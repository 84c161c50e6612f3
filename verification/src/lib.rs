//! Core of a restaurant ordering service: a keyed store of orders per table,
//! a service layer that validates, manufactures and exposes order operations,
//! and the decision logic of a randomized workload driver.

pub mod config;
pub mod ext;
pub mod menu;
pub mod order;
pub mod service;
pub mod store;
pub mod workload;
