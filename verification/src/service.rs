//! The order service: validates requests against the configured table range,
//! manufactures order records, and exposes list, get, create and delete over
//! the store.

use vstd::prelude::*;
use crate::config::Config;
use crate::ext::{fresh_uuid, now_millis, random_between};
use crate::order::{CreateOrderRequest, Order, OrderError};
use crate::store::{clone_orders, find_in, has_id, without_id, OrderStore};

verus! {

/// A cooking duration in minutes, drawn uniformly from [5, 15].
pub fn random_cooking_time() -> (t: u32)
    ensures
        5 <= t <= 15,
{
    random_between(5, 15) as u32
}

/// The service: the configured table range and the store it guards. The
/// service is the store's only writer.
#[derive(Debug)]
pub struct OrderService {
    pub config: Config,
    pub store: OrderStore,
}

impl OrderService {
    pub open spec fn wf(self) -> bool {
        self.store.wf()
    }

    /// A service over an empty store.
    pub fn new(config: Config) -> (s: OrderService)
        ensures
            s.wf(),
            s.config == config,
            s.store.ids_unique(),
            forall|t: u32| #[trigger] s.store.orders_at(t) == Seq::<Order>::empty(),
    {
        OrderService { config, store: OrderStore::new() }
    }

    /// All orders of one table. No validation: an out-of-range table simply
    /// yields the empty list.
    pub fn get_table_orders(&self, table_id: u32) -> (r: Vec<Order>)
        ensures
            r@ == self.store.orders_at(table_id),
    {
        self.store.list(table_id)
    }

    /// One order by table and id. An unknown table and an unknown order
    /// within a known table are both reported as `NotFound`.
    pub fn get_table_order(&self, table_id: u32, order_id: u128) -> (r: Result<Order, OrderError>)
        ensures
            match r {
                Ok(o) => find_in(self.store.orders_at(table_id), order_id) == Some(o),
                Err(e) => e == OrderError::NotFound && find_in(
                    self.store.orders_at(table_id),
                    order_id,
                ) is None,
            },
    {
        match self.store.get(table_id, order_id) {
            Some(o) => Ok(o),
            None => Err(OrderError::NotFound),
        }
    }

    /// Validates the table against the configured range, then manufactures
    /// one order per requested menu item — fresh id, cooking time drawn from
    /// [5, 15], one shared creation instant — appends the whole batch as one
    /// step and returns it. An out-of-range table is rejected with
    /// `InvalidTable` and mutates nothing; every other input succeeds, the
    /// empty request included.
    pub fn create_orders(&mut self, req: CreateOrderRequest) -> (r: Result<Vec<Order>, OrderError>)
        requires
            old(self).wf(),
        ensures
            final(self).wf(),
            final(self).config == old(self).config,
            !old(self).config.in_range(req.table_id) ==> r == Err::<Vec<Order>, OrderError>(
                OrderError::InvalidTable,
            ) && *final(self) == *old(self),
            old(self).config.in_range(req.table_id) ==> r is Ok,
            r matches Ok(batch) ==> {
                &&& batch@.len() == req.menus@.len()
                &&& forall|i: int|
                    0 <= i < batch@.len() ==> (#[trigger] batch@[i]).table_id == req.table_id
                &&& forall|i: int| 0 <= i < batch@.len() ==> (#[trigger] batch@[i]).menu == req.menus@[i]
                &&& forall|i: int|
                    0 <= i < batch@.len() ==> 5 <= (#[trigger] batch@[i]).cooking_time_minutes <= 15
                &&& forall|i: int|
                    0 <= i < batch@.len() ==> (#[trigger] batch@[i]).created_at == batch@[0].created_at
                &&& final(self).store.orders_at(req.table_id) == old(self).store.orders_at(
                    req.table_id,
                ) + batch@
                &&& forall|t: u32|
                    t != req.table_id ==> #[trigger] final(self).store.orders_at(t) == old(
                        self,
                    ).store.orders_at(t)
            },
    {
        if !(self.config.table_range.0 <= req.table_id && req.table_id
            <= self.config.table_range.1) {
            return Err(OrderError::InvalidTable);
        }
        let now = now_millis();
        let mut batch: Vec<Order> = Vec::new();
        let mut i: usize = 0;
        while i < req.menus.len()
            invariant
                i <= req.menus@.len(),
                batch@.len() == i,
                forall|j: int| 0 <= j < i ==> (#[trigger] batch@[j]).table_id == req.table_id,
                forall|j: int| 0 <= j < i ==> (#[trigger] batch@[j]).menu == req.menus@[j],
                forall|j: int| 0 <= j < i ==> 5 <= (#[trigger] batch@[j]).cooking_time_minutes <= 15,
                forall|j: int| 0 <= j < i ==> (#[trigger] batch@[j]).created_at == now,
            decreases req.menus@.len() - i,
        {
            let order = Order {
                id: fresh_uuid(),
                table_id: req.table_id,
                menu: req.menus[i].clone(),
                cooking_time_minutes: random_cooking_time(),
                created_at: now,
            };
            batch.push(order);
            i = i + 1;
        }
        let stored = clone_orders(&batch);
        self.store.append(req.table_id, stored);
        Ok(batch)
    }

    /// Deletes one order by table and id. Success exactly when the order was
    /// present; an unknown table and an unknown order are both `NotFound`.
    pub fn delete_table_order(&mut self, table_id: u32, order_id: u128) -> (r: Result<
        (),
        OrderError,
    >)
        requires
            old(self).wf(),
        ensures
            final(self).wf(),
            final(self).config == old(self).config,
            final(self).store.orders_at(table_id) == without_id(
                old(self).store.orders_at(table_id),
                order_id,
            ),
            forall|t: u32|
                t != table_id ==> #[trigger] final(self).store.orders_at(t) == old(
                    self,
                ).store.orders_at(t),
            r is Ok <==> has_id(old(self).store.orders_at(table_id), order_id),
            r is Err ==> r == Err::<(), OrderError>(OrderError::NotFound),
    {
        if self.store.delete(table_id, order_id) {
            Ok(())
        } else {
            Err(OrderError::NotFound)
        }
    }
}

} // verus!
