//! The keyed order store: a mapping from table id to the ordered list of that
//! table's orders, with list, get, append and delete operations. An empty
//! entry and a missing entry are observationally the same, so the store is
//! specified through `orders_at`, which yields the (possibly empty) sequence
//! of orders held for a table.

use vstd::prelude::*;
use crate::order::Order;

verus! {

/// One table's slot: the key and the orders appended to it, in insertion
/// order.
#[derive(Debug)]
pub struct TableEntry {
    pub table_id: u32,
    pub orders: Vec<Order>,
}

/// The orders the entries hold for table `t`: those of the first entry keyed
/// by `t`, or the empty sequence when no entry is.
pub open spec fn seq_orders_at(entries: Seq<TableEntry>, t: u32) -> Seq<Order>
    decreases entries.len(),
{
    if entries.len() == 0 {
        Seq::empty()
    } else if entries[0].table_id == t {
        entries[0].orders@
    } else {
        seq_orders_at(entries.drop_first(), t)
    }
}

/// The first order in `s` carrying `id`, if any.
pub open spec fn find_in(s: Seq<Order>, id: u128) -> Option<Order>
    decreases s.len(),
{
    if s.len() == 0 {
        None
    } else if s[0].id == id {
        Some(s[0])
    } else {
        find_in(s.drop_first(), id)
    }
}

/// Whether some order in `s` carries `id`.
pub open spec fn has_id(s: Seq<Order>, id: u128) -> bool {
    exists|i: int| 0 <= i < s.len() && s[i].id == id
}

/// `s` with every order carrying `id` removed, the rest kept in order.
pub open spec fn without_id(s: Seq<Order>, id: u128) -> Seq<Order>
    decreases s.len(),
{
    if s.len() == 0 {
        Seq::empty()
    } else {
        let rest = without_id(s.drop_first(), id);
        if s[0].id == id {
            rest
        } else {
            seq![s[0]] + rest
        }
    }
}

/// No two orders in `s` share an id.
pub open spec fn seq_ids_distinct(s: Seq<Order>) -> bool {
    forall|i: int, j: int| 0 <= i < j < s.len() ==> s[i].id != s[j].id
}

/// No order of `a` shares an id with one of `b`.
pub open spec fn ids_disjoint(a: Seq<Order>, b: Seq<Order>) -> bool {
    forall|i: int, j: int| 0 <= i < a.len() && 0 <= j < b.len() ==> a[i].id != b[j].id
}

/// The keyed collection of orders.
#[derive(Debug)]
pub struct OrderStore {
    pub tables: Vec<TableEntry>,
}

impl OrderStore {
    /// The orders currently held for table `t`, in insertion order.
    pub open spec fn orders_at(self, t: u32) -> Seq<Order> {
        seq_orders_at(self.tables@, t)
    }

    /// Representation invariant: table keys occur at most once, and every
    /// order lies under its own table's key.
    pub open spec fn wf(self) -> bool {
        &&& forall|k1: int, k2: int|
            0 <= k1 < k2 < self.tables@.len() ==> self.tables@[k1].table_id != self.tables@[k2].table_id
        &&& forall|k: int, i: int|
            0 <= k < self.tables@.len() && 0 <= i < self.tables@[k].orders@.len()
                ==> self.tables@[k].orders@[i].table_id == self.tables@[k].table_id
    }

    /// Global id uniqueness: ids are distinct within each table and across
    /// any two distinct tables.
    pub open spec fn ids_unique(self) -> bool {
        &&& forall|t: u32| seq_ids_distinct(#[trigger] self.orders_at(t))
        &&& forall|t1: u32, t2: u32|
            t1 != t2 ==> ids_disjoint(#[trigger] self.orders_at(t1), #[trigger] self.orders_at(t2))
    }

    /// Whether any table holds an order carrying `id`.
    pub open spec fn contains_id(self, id: u128) -> bool {
        exists|t: u32| has_id(#[trigger] self.orders_at(t), id)
    }

    /// A store with no orders at any table.
    pub fn new() -> (s: OrderStore)
        ensures
            s.wf(),
            s.ids_unique(),
            forall|t: u32| #[trigger] s.orders_at(t) == Seq::<Order>::empty(),
    {
        let s = OrderStore { tables: Vec::new() };
        proof {
            assert forall|t: u32| #[trigger] s.orders_at(t) == Seq::<Order>::empty() by {
                assert(s.tables@.len() == 0);
            }
        }
        s
    }

    /// The index of the entry keyed by `table_id`, if one exists.
    fn find_table(&self, table_id: u32) -> (r: Option<usize>)
        ensures
            match r {
                Some(k) => k < self.tables@.len() && self.tables@[k as int].table_id == table_id
                    && forall|j: int| 0 <= j < k ==> self.tables@[j].table_id != table_id,
                None => forall|j: int|
                    0 <= j < self.tables@.len() ==> self.tables@[j].table_id != table_id,
            },
    {
        let mut i: usize = 0;
        while i < self.tables.len()
            invariant
                i <= self.tables@.len(),
                forall|j: int| 0 <= j < i ==> self.tables@[j].table_id != table_id,
            decreases self.tables@.len() - i,
        {
            if self.tables[i].table_id == table_id {
                return Some(i);
            }
            i = i + 1;
        }
        None
    }

    /// All orders for `table_id`, possibly empty, never an error.
    pub fn list(&self, table_id: u32) -> (r: Vec<Order>)
        ensures
            r@ == self.orders_at(table_id),
    {
        match self.find_table(table_id) {
            Some(k) => {
                proof {
                    lemma_orders_at_found(self.tables@, table_id, k as int);
                }
                clone_orders(&self.tables[k].orders)
            },
            None => {
                proof {
                    lemma_orders_at_absent(self.tables@, table_id);
                }
                Vec::new()
            },
        }
    }

    /// The order carrying `order_id` at `table_id`. An unknown table and an
    /// unknown order within a known table both yield `None`.
    pub fn get(&self, table_id: u32, order_id: u128) -> (r: Option<Order>)
        ensures
            r == find_in(self.orders_at(table_id), order_id),
    {
        match self.find_table(table_id) {
            Some(k) => {
                proof {
                    lemma_orders_at_found(self.tables@, table_id, k as int);
                }
                find_order(&self.tables[k].orders, order_id)
            },
            None => {
                proof {
                    lemma_orders_at_absent(self.tables@, table_id);
                }
                None
            },
        }
    }

    /// Appends `batch` to `table_id`'s list as one indivisible step, creating
    /// the entry when absent: afterwards the table's list is exactly the old
    /// list followed by the whole batch, and no other table changed.
    pub fn append(&mut self, table_id: u32, batch: Vec<Order>)
        requires
            old(self).wf(),
            forall|i: int| 0 <= i < batch@.len() ==> batch@[i].table_id == table_id,
        ensures
            final(self).wf(),
            final(self).orders_at(table_id) == old(self).orders_at(table_id) + batch@,
            forall|t: u32|
                t != table_id ==> #[trigger] final(self).orders_at(t) == old(self).orders_at(t),
    {
        let ghost orig = self.tables@;
        let ghost b = batch@;
        match self.find_table(table_id) {
            Some(k) => {
                let mut entry = self.tables.remove(k);
                let mut batch = batch;
                entry.orders.append(&mut batch);
                self.tables.insert(k, entry);
                proof {
                    let e2 = self.tables@[k as int];
                    assert(self.tables@ =~= orig.update(k as int, e2));
                    assert(e2.table_id == table_id);
                    assert(e2.orders@ == orig[k as int].orders@ + b);
                    lemma_orders_at_found(orig, table_id, k as int);
                    lemma_orders_at_found(self.tables@, table_id, k as int);
                    assert forall|t: u32|
                        t != table_id implies #[trigger] seq_orders_at(self.tables@, t)
                        == seq_orders_at(orig, t) by {
                        lemma_orders_at_update(orig, k as int, e2, t);
                    }
                }
            },
            None => {
                let entry = TableEntry { table_id, orders: batch };
                self.tables.push(entry);
                proof {
                    let e = self.tables@[orig.len() as int];
                    assert(self.tables@ =~= orig.push(e));
                    lemma_orders_at_absent(orig, table_id);
                    lemma_orders_at_found(self.tables@, table_id, orig.len() as int);
                    assert(seq_orders_at(self.tables@, table_id) =~= seq_orders_at(orig, table_id) + b);
                    assert forall|t: u32|
                        t != table_id implies #[trigger] seq_orders_at(self.tables@, t)
                        == seq_orders_at(orig, t) by {
                        lemma_orders_at_push_other(orig, e, t);
                    }
                }
            },
        }
    }

    /// Removes the order carrying `order_id` from `table_id`'s list. Returns
    /// whether anything was removed; an unknown table and an unknown order
    /// are reported identically.
    pub fn delete(&mut self, table_id: u32, order_id: u128) -> (deleted: bool)
        requires
            old(self).wf(),
        ensures
            final(self).wf(),
            final(self).orders_at(table_id) == without_id(old(self).orders_at(table_id), order_id),
            forall|t: u32|
                t != table_id ==> #[trigger] final(self).orders_at(t) == old(self).orders_at(t),
            deleted == has_id(old(self).orders_at(table_id), order_id),
    {
        let ghost orig = self.tables@;
        match self.find_table(table_id) {
            Some(k) => {
                let mut entry = self.tables.remove(k);
                let found = remove_matching(&mut entry.orders, order_id);
                self.tables.insert(k, entry);
                proof {
                    let e2 = self.tables@[k as int];
                    assert(self.tables@ =~= orig.update(k as int, e2));
                    assert(e2.table_id == table_id);
                    lemma_orders_at_found(orig, table_id, k as int);
                    lemma_orders_at_found(self.tables@, table_id, k as int);
                    assert forall|t: u32|
                        t != table_id implies #[trigger] seq_orders_at(self.tables@, t)
                        == seq_orders_at(orig, t) by {
                        lemma_orders_at_update(orig, k as int, e2, t);
                    }
                }
                found
            },
            None => {
                proof {
                    lemma_orders_at_absent(orig, table_id);
                }
                false
            },
        }
    }
}

/// A copy of `orders` holding equal orders in the same positions.
pub(crate) fn clone_orders(orders: &Vec<Order>) -> (r: Vec<Order>)
    ensures
        r@ == orders@,
{
    let mut r: Vec<Order> = Vec::new();
    let mut i: usize = 0;
    while i < orders.len()
        invariant
            i <= orders@.len(),
            r@ == orders@.subrange(0, i as int),
        decreases orders@.len() - i,
    {
        proof {
            assert(orders@.subrange(0, i as int + 1) =~= orders@.subrange(0, i as int).push(
                orders@[i as int],
            ));
        }
        r.push(orders[i].clone());
        i = i + 1;
    }
    proof {
        assert(orders@.subrange(0, orders@.len() as int) =~= orders@);
    }
    r
}

/// Linear search for the first order carrying `order_id`.
fn find_order(orders: &Vec<Order>, order_id: u128) -> (r: Option<Order>)
    ensures
        r == find_in(orders@, order_id),
{
    let mut i: usize = 0;
    while i < orders.len()
        invariant
            i <= orders@.len(),
            forall|j: int| 0 <= j < i ==> orders@[j].id != order_id,
        decreases orders@.len() - i,
    {
        if orders[i].id == order_id {
            proof {
                lemma_find_in_found(orders@, order_id, i as int);
            }
            return Some(orders[i].clone());
        }
        i = i + 1;
    }
    proof {
        lemma_find_in_absent(orders@, order_id);
    }
    None
}

/// Rebuilds `orders` without the orders carrying `order_id`, keeping the rest
/// in their relative positions, and reports whether any matched.
fn remove_matching(orders: &mut Vec<Order>, order_id: u128) -> (found: bool)
    ensures
        final(orders)@ == without_id(old(orders)@, order_id),
        forall|i: int|
            0 <= i < final(orders)@.len() ==> old(orders)@.contains(#[trigger] final(orders)@[i]),
        found == has_id(old(orders)@, order_id),
{
    let ghost orig = orders@;
    let mut kept: Vec<Order> = Vec::new();
    let mut found = false;
    let mut i: usize = 0;
    proof {
        assert(orig.subrange(0, orig.len() as int) =~= orig);
        assert(kept@ + without_id(orig, order_id) =~= without_id(orig, order_id));
    }
    while i < orders.len()
        invariant
            i <= orig.len(),
            orders@ == orig,
            kept@ + without_id(orig.subrange(i as int, orig.len() as int), order_id) == without_id(
                orig,
                order_id,
            ),
            forall|j: int| 0 <= j < kept@.len() ==> orig.contains(#[trigger] kept@[j]),
            found == exists|j: int| 0 <= j < i && orig[j].id == order_id,
        decreases orig.len() - i,
    {
        let ghost rest = orig.subrange(i as int, orig.len() as int);
        proof {
            assert(rest.len() > 0);
            assert(rest[0] == orig[i as int]);
            assert(rest.drop_first() =~= orig.subrange(i as int + 1, orig.len() as int));
        }
        if orders[i].id == order_id {
            found = true;
            proof {
                assert(orig[i as int].id == order_id);
            }
        } else {
            let o = orders[i].clone();
            proof {
                assert(orig.contains(orig[i as int]));
                assert(kept@.push(o) + without_id(rest.drop_first(), order_id) =~= kept@ + (seq![
                    orig[i as int],
                ] + without_id(rest.drop_first(), order_id)));
            }
            kept.push(o);
        }
        i = i + 1;
    }
    proof {
        assert(orig.subrange(orig.len() as int, orig.len() as int) =~= Seq::<Order>::empty());
        assert(kept@ + Seq::<Order>::empty() =~= kept@);
    }
    *orders = kept;
    found
}

/// When a prefix of entries misses `t` and index `k` carries it, the first
/// entry keyed by `t` is the one at `k`.
proof fn lemma_orders_at_found(entries: Seq<TableEntry>, t: u32, k: int)
    requires
        0 <= k < entries.len(),
        entries[k].table_id == t,
        forall|j: int| 0 <= j < k ==> entries[j].table_id != t,
    ensures
        seq_orders_at(entries, t) == entries[k].orders@,
    decreases k,
{
    if k > 0 {
        lemma_orders_at_found(entries.drop_first(), t, k - 1);
    }
}

/// When no entry is keyed by `t`, the store holds nothing for it.
proof fn lemma_orders_at_absent(entries: Seq<TableEntry>, t: u32)
    requires
        forall|j: int| 0 <= j < entries.len() ==> entries[j].table_id != t,
    ensures
        seq_orders_at(entries, t) == Seq::<Order>::empty(),
    decreases entries.len(),
{
    if entries.len() > 0 {
        lemma_orders_at_absent(entries.drop_first(), t);
    }
}

/// Replacing an entry in place, key unchanged, leaves every other table's
/// orders as they were.
proof fn lemma_orders_at_update(entries: Seq<TableEntry>, k: int, e: TableEntry, t: u32)
    requires
        0 <= k < entries.len(),
        entries[k].table_id == e.table_id,
        t != e.table_id,
    ensures
        seq_orders_at(entries.update(k, e), t) == seq_orders_at(entries, t),
    decreases k,
{
    let upd = entries.update(k, e);
    if k == 0 {
        assert(upd.drop_first() =~= entries.drop_first());
    } else {
        assert(upd[0] == entries[0]);
        if entries[0].table_id != t {
            assert(upd.drop_first() =~= entries.drop_first().update(k - 1, e));
            lemma_orders_at_update(entries.drop_first(), k - 1, e, t);
        }
    }
}

/// Adding an entry for one table leaves every other table's orders as they
/// were.
proof fn lemma_orders_at_push_other(entries: Seq<TableEntry>, e: TableEntry, t: u32)
    requires
        t != e.table_id,
    ensures
        seq_orders_at(entries.push(e), t) == seq_orders_at(entries, t),
    decreases entries.len(),
{
    let p = entries.push(e);
    if entries.len() == 0 {
        assert(p[0] == e);
        assert(p.drop_first() =~= Seq::<TableEntry>::empty());
        assert(seq_orders_at(Seq::<TableEntry>::empty(), t) == Seq::<Order>::empty());
        assert(seq_orders_at(p, t) == Seq::<Order>::empty());
        assert(seq_orders_at(entries, t) == Seq::<Order>::empty());
    } else {
        assert(p[0] == entries[0]);
        if entries[0].table_id != t {
            assert(p.drop_first() =~= entries.drop_first().push(e));
            lemma_orders_at_push_other(entries.drop_first(), e, t);
        }
    }
}

/// A prefix free of `id` followed by a hit at `i` makes `find_in` yield the
/// order at `i`.
proof fn lemma_find_in_found(s: Seq<Order>, id: u128, i: int)
    requires
        0 <= i < s.len(),
        s[i].id == id,
        forall|j: int| 0 <= j < i ==> s[j].id != id,
    ensures
        find_in(s, id) == Some(s[i]),
    decreases i,
{
    if i > 0 {
        lemma_find_in_found(s.drop_first(), id, i - 1);
    }
}

/// A sequence free of `id` makes `find_in` yield nothing.
proof fn lemma_find_in_absent(s: Seq<Order>, id: u128)
    requires
        forall|j: int| 0 <= j < s.len() ==> s[j].id != id,
    ensures
        find_in(s, id) is None,
    decreases s.len(),
{
    if s.len() > 0 {
        lemma_find_in_absent(s.drop_first(), id);
    }
}

/// Distinct ids survive dropping the first order.
proof fn lemma_distinct_drop_first(s: Seq<Order>)
    requires
        s.len() > 0,
        seq_ids_distinct(s),
    ensures
        seq_ids_distinct(s.drop_first()),
{
    let t = s.drop_first();
    assert forall|i: int, j: int| 0 <= i < j < t.len() implies t[i].id != t[j].id by {
        assert(t[i] == s[i + 1]);
        assert(t[j] == s[j + 1]);
    }
}

/// In a well-formed store every order listed for a table carries that
/// table's id.
pub proof fn lemma_orders_at_carry_table_id(store: OrderStore, t: u32)
    requires
        store.wf(),
    ensures
        forall|i: int|
            0 <= i < store.orders_at(t).len() ==> #[trigger] store.orders_at(t)[i].table_id == t,
{
    lemma_seq_orders_at_table_ids(store.tables@, t);
}

proof fn lemma_seq_orders_at_table_ids(entries: Seq<TableEntry>, t: u32)
    requires
        forall|k: int, i: int|
            0 <= k < entries.len() && 0 <= i < entries[k].orders@.len()
                ==> entries[k].orders@[i].table_id == entries[k].table_id,
    ensures
        forall|i: int|
            0 <= i < seq_orders_at(entries, t).len() ==> #[trigger] seq_orders_at(
                entries,
                t,
            )[i].table_id == t,
    decreases entries.len(),
{
    if entries.len() == 0 {
        assert(seq_orders_at(entries, t).len() == 0);
    } else {
        if entries[0].table_id == t {
            assert forall|i: int|
                0 <= i < seq_orders_at(entries, t).len() implies #[trigger] seq_orders_at(
                entries,
                t,
            )[i].table_id == t by {
                assert(seq_orders_at(entries, t) == entries[0].orders@);
                assert(entries[0].orders@[i].table_id == entries[0].table_id);
            }
        } else {
            let tail = entries.drop_first();
            assert forall|k: int, i: int|
                0 <= k < tail.len() && 0 <= i < tail[k].orders@.len() implies tail[k].orders@[i].table_id
                == tail[k].table_id by {
                assert(tail[k] == entries[k + 1]);
            }
            lemma_seq_orders_at_table_ids(tail, t);
            assert(seq_orders_at(entries, t) == seq_orders_at(tail, t));
            assert forall|i: int|
                0 <= i < seq_orders_at(entries, t).len() implies #[trigger] seq_orders_at(
                entries,
                t,
            )[i].table_id == t by {
                assert(seq_orders_at(tail, t)[i].table_id == t);
            }
        }
    }
}

/// Creating a batch and then listing the table yields the previous list with
/// exactly the created batch as its suffix: every created order is there, in
/// request order, and nothing else was added or moved.
pub proof fn lemma_created_batch_is_list_suffix(pre: Seq<Order>, batch: Seq<Order>)
    ensures
        (pre + batch).len() == pre.len() + batch.len(),
        (pre + batch).subrange(pre.len() as int, (pre + batch).len() as int) == batch,
        (pre + batch).subrange(0, pre.len() as int) == pre,
{
    assert((pre + batch).subrange(pre.len() as int, (pre + batch).len() as int) =~= batch);
    assert((pre + batch).subrange(0, pre.len() as int) =~= pre);
}

/// Looking up the exact id of an order present in a list with distinct ids
/// returns a value equal to that order.
pub proof fn lemma_get_of_present_order(s: Seq<Order>, o: Order)
    requires
        seq_ids_distinct(s),
        s.contains(o),
    ensures
        find_in(s, o.id) == Some(o),
    decreases s.len(),
{
    let i = choose|i: int| 0 <= i < s.len() && s[i] == o;
    if s[0].id == o.id {
        if i > 0 {
            assert(s[0].id != s[i].id);
            assert(false);
        }
        assert(s[0] == o);
    } else {
        assert(i > 0);
        lemma_distinct_drop_first(s);
        assert(s.drop_first()[i - 1] == o);
        assert(s.drop_first().contains(o));
        lemma_get_of_present_order(s.drop_first(), o);
    }
}

/// Looking up an id that no table of the store holds returns nothing, at any
/// table.
pub proof fn lemma_get_of_unknown_id(store: OrderStore, table_id: u32, id: u128)
    requires
        !store.contains_id(id),
    ensures
        find_in(store.orders_at(table_id), id) is None,
{
    let s = store.orders_at(table_id);
    assert(!has_id(s, id));
    assert forall|j: int| 0 <= j < s.len() implies s[j].id != id by {
        if s[j].id == id {
            assert(has_id(s, id));
        }
    }
    lemma_find_in_absent(s, id);
}

/// Deleting an id that no order of the list carries changes nothing.
pub proof fn lemma_without_id_absent(s: Seq<Order>, id: u128)
    requires
        !has_id(s, id),
    ensures
        without_id(s, id) == s,
    decreases s.len(),
{
    if s.len() > 0 {
        if s[0].id == id {
            assert(has_id(s, id));
        }
        let t = s.drop_first();
        assert forall|j: int| 0 <= j < t.len() implies t[j].id != id by {
            assert(t[j] == s[j + 1]);
            if s[j + 1].id == id {
                assert(has_id(s, id));
            }
        }
        lemma_without_id_absent(t, id);
        assert(seq![s[0]] + t =~= s);
    }
}

/// After a delete, no order carrying the deleted id remains, so a second
/// delete of the same id finds nothing.
pub proof fn lemma_without_id_removes_all(s: Seq<Order>, id: u128)
    ensures
        !has_id(without_id(s, id), id),
    decreases s.len(),
{
    if s.len() > 0 {
        let t = s.drop_first();
        lemma_without_id_removes_all(t, id);
        if s[0].id != id {
            let w = seq![s[0]] + without_id(t, id);
            assert forall|k: int| 0 <= k < w.len() implies w[k].id != id by {
                if k > 0 {
                    assert(w[k] == without_id(t, id)[k - 1]);
                    if without_id(t, id)[k - 1].id == id {
                        assert(has_id(without_id(t, id), id));
                    }
                }
            }
            assert(without_id(s, id) == w);
            if has_id(w, id) {
                let k = choose|k: int| 0 <= k < w.len() && w[k].id == id;
                assert(w[k].id != id);
            }
        }
    }
}

/// A delete of a present id, under distinct ids, removes exactly that order:
/// the list shrinks by one and every other order keeps its relative position.
pub proof fn lemma_delete_removes_exactly_one(s: Seq<Order>, id: u128, i: int)
    requires
        seq_ids_distinct(s),
        0 <= i < s.len(),
        s[i].id == id,
    ensures
        without_id(s, id) == s.subrange(0, i) + s.subrange(i + 1, s.len() as int),
        without_id(s, id).len() == s.len() - 1,
    decreases s.len(),
{
    let t = s.drop_first();
    if i == 0 {
        assert forall|j: int| 0 <= j < t.len() implies t[j].id != id by {
            assert(t[j] == s[j + 1]);
            assert(s[0].id != s[j + 1].id);
        }
        assert(!has_id(t, id)) by {
            if has_id(t, id) {
                let k = choose|k: int| 0 <= k < t.len() && t[k].id == id;
                assert(t[k].id != id);
            }
        }
        lemma_without_id_absent(t, id);
        assert(without_id(s, id) == t);
        assert(s.subrange(0, 0) + s.subrange(1, s.len() as int) =~= t);
    } else {
        lemma_distinct_drop_first(s);
        assert(t[i - 1] == s[i]);
        lemma_delete_removes_exactly_one(t, id, i - 1);
        assert(s[0].id != s[i].id);
        assert(without_id(s, id) == seq![s[0]] + without_id(t, id));
        assert(seq![s[0]] + (t.subrange(0, i - 1) + t.subrange(i, t.len() as int)) =~= s.subrange(
            0,
            i,
        ) + s.subrange(i + 1, s.len() as int));
    }
}

/// Every order a delete keeps was already in the list.
pub proof fn lemma_without_id_contains(s: Seq<Order>, id: u128, x: Order)
    requires
        without_id(s, id).contains(x),
    ensures
        s.contains(x),
    decreases s.len(),
{
    if s.len() > 0 {
        let t = s.drop_first();
        let w = without_id(s, id);
        let k = choose|k: int| 0 <= k < w.len() && w[k] == x;
        if s[0].id == id {
            lemma_without_id_contains(t, id, x);
            let m = choose|m: int| 0 <= m < t.len() && t[m] == x;
            assert(s[m + 1] == x);
        } else {
            if k == 0 {
                assert(s[0] == x);
            } else {
                assert(w[k] == without_id(t, id)[k - 1]);
                assert(without_id(t, id).contains(x));
                lemma_without_id_contains(t, id, x);
                let m = choose|m: int| 0 <= m < t.len() && t[m] == x;
                assert(s[m + 1] == x);
            }
        }
    }
}

/// Distinct ids survive a delete.
pub proof fn lemma_without_id_distinct(s: Seq<Order>, id: u128)
    requires
        seq_ids_distinct(s),
    ensures
        seq_ids_distinct(without_id(s, id)),
    decreases s.len(),
{
    if s.len() > 0 {
        let t = s.drop_first();
        lemma_distinct_drop_first(s);
        lemma_without_id_distinct(t, id);
        if s[0].id != id {
            let wt = without_id(t, id);
            let w = seq![s[0]] + wt;
            assert forall|i: int, j: int| 0 <= i < j < w.len() implies w[i].id != w[j].id by {
                if i == 0 {
                    assert(w[j] == wt[j - 1]);
                    assert(wt.contains(wt[j - 1]));
                    lemma_without_id_contains(t, id, wt[j - 1]);
                    let m = choose|m: int| 0 <= m < t.len() && t[m] == wt[j - 1];
                    assert(s[m + 1] == wt[j - 1]);
                    assert(s[0].id != s[m + 1].id);
                } else {
                    assert(w[i] == wt[i - 1]);
                    assert(w[j] == wt[j - 1]);
                }
            }
            assert(without_id(s, id) == w);
        }
    }
}

/// The list state reached by appending each order of `batch` on its own, one
/// single-order append at a time, in the given serialization order.
pub open spec fn push_each(s: Seq<Order>, batch: Seq<Order>) -> Seq<Order>
    decreases batch.len(),
{
    if batch.len() == 0 {
        s
    } else {
        push_each(s + seq![batch[0]], batch.drop_first())
    }
}

/// N single-order creates, serialized one at a time in any order the store
/// chose, leave the same list as one atomic append of the whole batch.
pub proof fn lemma_serialized_creates_equal_batch(s: Seq<Order>, batch: Seq<Order>)
    ensures
        push_each(s, batch) == s + batch,
    decreases batch.len(),
{
    if batch.len() == 0 {
        assert(s + batch =~= s);
    } else {
        lemma_serialized_creates_equal_batch(s + seq![batch[0]], batch.drop_first());
        assert((s + seq![batch[0]]) + batch.drop_first() =~= s + batch);
    }
}

/// Creates with fresh, pairwise distinct ids lose nothing: afterwards the
/// table holds every created order, the count adds up, and no id occurs
/// twice.
pub proof fn lemma_creates_lose_nothing(pre: Seq<Order>, created: Seq<Order>)
    requires
        seq_ids_distinct(pre),
        seq_ids_distinct(created),
        ids_disjoint(pre, created),
    ensures
        seq_ids_distinct(pre + created),
        forall|i: int| 0 <= i < created.len() ==> (pre + created).contains(#[trigger] created[i]),
        (pre + created).len() == pre.len() + created.len(),
{
    let c = pre + created;
    assert forall|i: int, j: int| 0 <= i < j < c.len() implies c[i].id != c[j].id by {
        if j < pre.len() {
            assert(c[i] == pre[i] && c[j] == pre[j]);
        } else if i >= pre.len() {
            assert(c[i] == created[i - pre.len()] && c[j] == created[j - pre.len()]);
        } else {
            assert(c[i] == pre[i] && c[j] == created[j - pre.len()]);
        }
    }
    assert forall|i: int| 0 <= i < created.len() implies (pre + created).contains(
        #[trigger] created[i],
    ) by {
        assert(c[pre.len() + i] == created[i]);
    }
}

/// One atomic append of a batch whose ids are pairwise distinct and absent
/// from the whole store keeps ids globally unique.
pub proof fn lemma_append_preserves_ids_unique(
    pre: OrderStore,
    post: OrderStore,
    table_id: u32,
    batch: Seq<Order>,
)
    requires
        pre.ids_unique(),
        seq_ids_distinct(batch),
        forall|i: int| 0 <= i < batch.len() ==> !pre.contains_id(#[trigger] batch[i].id),
        post.orders_at(table_id) == pre.orders_at(table_id) + batch,
        forall|t: u32| t != table_id ==> #[trigger] post.orders_at(t) == pre.orders_at(t),
    ensures
        post.ids_unique(),
{
    assert forall|t: u32, i: int, j: int|
        0 <= i < batch.len() && 0 <= j < pre.orders_at(t).len() implies #[trigger] pre.orders_at(
        t,
    )[j].id != #[trigger] batch[i].id by {
        if pre.orders_at(t)[j].id == batch[i].id {
            assert(has_id(pre.orders_at(t), batch[i].id));
            assert(pre.contains_id(batch[i].id));
        }
    }
    assert(ids_disjoint(pre.orders_at(table_id), batch));
    lemma_creates_lose_nothing(pre.orders_at(table_id), batch);
    assert forall|t: u32| seq_ids_distinct(#[trigger] post.orders_at(t)) by {
        if t != table_id {
            assert(post.orders_at(t) == pre.orders_at(t));
        }
    }
    assert forall|t1: u32, t2: u32|
        t1 != t2 implies ids_disjoint(
        #[trigger] post.orders_at(t1),
        #[trigger] post.orders_at(t2),
    ) by {
        let a = post.orders_at(t1);
        let b = post.orders_at(t2);
        assert forall|i: int, j: int|
            0 <= i < a.len() && 0 <= j < b.len() implies a[i].id != b[j].id by {
            let pa = pre.orders_at(t1);
            let pb = pre.orders_at(t2);
            if t1 == table_id {
                assert(b == pb);
                if i < pa.len() {
                    assert(a[i] == pa[i]);
                } else {
                    assert(a[i] == batch[i - pa.len()]);
                }
            } else if t2 == table_id {
                assert(a == pa);
                if j < pb.len() {
                    assert(b[j] == pb[j]);
                } else {
                    assert(b[j] == batch[j - pb.len()]);
                }
            } else {
                assert(a == pa && b == pb);
            }
        }
    }
}

/// A delete keeps ids globally unique.
pub proof fn lemma_delete_preserves_ids_unique(
    pre: OrderStore,
    post: OrderStore,
    table_id: u32,
    id: u128,
)
    requires
        pre.ids_unique(),
        post.orders_at(table_id) == without_id(pre.orders_at(table_id), id),
        forall|t: u32| t != table_id ==> #[trigger] post.orders_at(t) == pre.orders_at(t),
    ensures
        post.ids_unique(),
{
    let ps = pre.orders_at(table_id);
    let w = without_id(ps, id);
    lemma_without_id_distinct(ps, id);
    assert forall|t: u32| seq_ids_distinct(#[trigger] post.orders_at(t)) by {
        if t != table_id {
            assert(post.orders_at(t) == pre.orders_at(t));
        }
    }
    assert forall|t1: u32, t2: u32|
        t1 != t2 implies ids_disjoint(
        #[trigger] post.orders_at(t1),
        #[trigger] post.orders_at(t2),
    ) by {
        let a = post.orders_at(t1);
        let b = post.orders_at(t2);
        assert forall|i: int, j: int|
            0 <= i < a.len() && 0 <= j < b.len() implies a[i].id != b[j].id by {
            if t1 == table_id {
                assert(a == w);
                assert(w.contains(w[i]));
                lemma_without_id_contains(ps, id, w[i]);
                let m = choose|m: int| 0 <= m < ps.len() && ps[m] == w[i];
                assert(ids_disjoint(ps, pre.orders_at(t2)));
                assert(ps[m].id != pre.orders_at(t2)[j].id);
            } else if t2 == table_id {
                assert(b == w);
                assert(w.contains(w[j]));
                lemma_without_id_contains(ps, id, w[j]);
                let m = choose|m: int| 0 <= m < ps.len() && ps[m] == w[j];
                assert(ids_disjoint(pre.orders_at(t1), ps));
                assert(pre.orders_at(t1)[i].id != ps[m].id);
            } else {
                assert(a == pre.orders_at(t1) && b == pre.orders_at(t2));
            }
        }
    }
}

} // verus!
