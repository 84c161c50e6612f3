use vstd::prelude::*;
use crate::menu::MenuData;

verus! {

/// One placed order: a fresh unique id, the table it belongs to, a copy of
/// the requested menu item, a simulated cooking duration drawn from [5, 15],
/// and the creation instant in milliseconds since the Unix epoch. Never
/// mutated after creation.
#[derive(Debug)]
pub struct Order {
    pub id: u128,
    pub table_id: u32,
    pub menu: MenuData,
    pub cooking_time_minutes: u32,
    pub created_at: i64,
}

impl Clone for Order {
    fn clone(&self) -> (r: Order)
        ensures
            r == *self,
    {
        Order {
            id: self.id,
            table_id: self.table_id,
            menu: self.menu.clone(),
            cooking_time_minutes: self.cooking_time_minutes,
            created_at: self.created_at,
        }
    }
}

/// A request to create one order per listed menu item at the given table.
#[derive(Debug)]
pub struct CreateOrderRequest {
    pub table_id: u32,
    pub menus: Vec<MenuData>,
}

/// The classified failures the service reports: a table outside the
/// configured range on create, and an unknown table or order on get and
/// delete, the two collapsed to one signal by design.
#[derive(Debug, Clone, Copy, PartialEq, Eq, Structural)]
pub enum OrderError {
    InvalidTable,
    NotFound,
}

} // verus!
