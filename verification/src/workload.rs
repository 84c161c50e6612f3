//! The decision logic of the workload driver. Each tick the driver samples a
//! set of distinct target tables, probes every target concurrently, and
//! reacts to each probe's outcome with at most one follow-up operation. The
//! draws and the network calls happen outside; the choices made from them are
//! here.

use vstd::prelude::*;
use crate::ext::random_between;
use crate::menu::MenuData;
use crate::order::Order;
use crate::store::has_id;

verus! {

/// The envelope the service wraps every successful payload in.
#[derive(Debug)]
pub struct ApiResponse<T> {
    pub status: String,
    pub data: T,
}

impl<T> ApiResponse<T> {
    /// The success envelope around a payload.
    pub fn success(data: T) -> (r: ApiResponse<T>)
        ensures
            r.status@ == "success"@,
            r.data == data,
    {
        ApiResponse { status: String::from_str("success"), data }
    }
}

/// The follow-up a workload unit settles on after probing one table.
#[derive(Debug, PartialEq, Eq, Structural)]
pub enum FollowUp {
    /// Create one order batch of this many randomly chosen menu items.
    Create { menu_count: usize },
    /// Delete the existing order carrying this id.
    Delete { order_id: u128 },
    /// Re-fetch the existing order carrying this id and discard the result.
    Fetch { order_id: u128 },
    /// Nothing further for this table in this tick.
    Skip,
}

/// No table id occurs twice among the selected targets.
pub open spec fn targets_distinct(s: Seq<u32>) -> bool {
    forall|i: int, j: int| 0 <= i < j < s.len() ==> s[i] != s[j]
}

/// A uniformly drawn index into a list of `len` elements.
fn pick_index(len: usize) -> (i: usize)
    requires
        len > 0,
    ensures
        i < len,
{
    let r = random_between(0, (len - 1) as u64);
    r as usize
}

/// The reaction to a table found without orders: create one batch of a
/// uniformly drawn size in [1, 3].
pub fn handle_empty_order() -> (f: FollowUp)
    ensures
        f matches FollowUp::Create { menu_count } && 1 <= menu_count <= 3,
{
    let menu_count = random_between(1, 3) as usize;
    FollowUp::Create { menu_count }
}

/// The reaction to a table found with orders: uniformly one of creating a
/// batch of size in [1, 2], deleting one existing order drawn uniformly from
/// the fetched list, or re-fetching one such order. Only a list that turned
/// out empty leaves nothing to do.
pub fn specific_operation(orders: &Vec<Order>) -> (f: FollowUp)
    ensures
        f matches FollowUp::Create { menu_count } ==> 1 <= menu_count <= 2,
        f matches FollowUp::Delete { order_id } ==> has_id(orders@, order_id),
        f matches FollowUp::Fetch { order_id } ==> has_id(orders@, order_id),
        f is Skip ==> orders@.len() == 0,
{
    let action = random_between(0, 2);
    if action == 0 {
        let menu_count = random_between(1, 2) as usize;
        FollowUp::Create { menu_count }
    } else if action == 1 {
        if orders.len() > 0 {
            let idx = pick_index(orders.len());
            let order_id = orders[idx].id;
            proof {
                assert(orders@[idx as int].id == order_id);
            }
            FollowUp::Delete { order_id }
        } else {
            FollowUp::Skip
        }
    } else {
        if orders.len() > 0 {
            let idx = pick_index(orders.len());
            let order_id = orders[idx].id;
            proof {
                assert(orders@[idx as int].id == order_id);
            }
            FollowUp::Fetch { order_id }
        } else {
            FollowUp::Skip
        }
    }
}

/// Whether some selected target equals `x`.
fn contains_target(targets: &Vec<u32>, x: u32) -> (r: bool)
    ensures
        r == targets@.contains(x),
{
    let mut i: usize = 0;
    while i < targets.len()
        invariant
            i <= targets@.len(),
            forall|j: int| 0 <= j < i ==> targets@[j] != x,
        decreases targets@.len() - i,
    {
        if targets[i] == x {
            proof {
                assert(targets@[i as int] == x);
            }
            return true;
        }
        i = i + 1;
    }
    false
}

/// One step of target selection by rejection sampling: a freshly drawn table
/// id joins the target set unless it was already selected. Repeated by the
/// driver until the set holds the wanted number of distinct targets, which
/// requires the configured range to hold at least that many tables.
pub fn add_target(targets: &mut Vec<u32>, drawn: u32)
    ensures
        old(targets)@.contains(drawn) ==> final(targets)@ == old(targets)@,
        !old(targets)@.contains(drawn) ==> final(targets)@ == old(targets)@.push(drawn),
        targets_distinct(old(targets)@) ==> targets_distinct(final(targets)@),
{
    if !contains_target(targets, drawn) {
        targets.push(drawn);
        proof {
            let pre = old(targets)@;
            let s = targets@;
            if targets_distinct(pre) {
                assert forall|i: int, j: int| 0 <= i < j < s.len() implies s[i] != s[j] by {
                    if j == s.len() - 1 {
                        assert(s[i] == pre[i]);
                        assert(s[j] == drawn);
                        if pre[i] == drawn {
                            assert(pre.contains(drawn));
                        }
                    } else {
                        assert(s[i] == pre[i] && s[j] == pre[j]);
                    }
                }
            }
        }
    }
}

/// A table id drawn uniformly from the configured inclusive range.
pub fn draw_table(start: u32, end: u32) -> (t: u32)
    requires
        start <= end,
    ensures
        start <= t <= end,
{
    let r = random_between(start as u64, end as u64);
    r as u32
}

/// `menu_count` menu items drawn uniformly, with replacement, from the
/// catalog fetched at startup.
pub fn select_menus(available: &Vec<MenuData>, menu_count: usize) -> (r: Vec<MenuData>)
    requires
        available@.len() > 0,
    ensures
        r@.len() == menu_count,
        forall|i: int| 0 <= i < r@.len() ==> available@.contains(#[trigger] r@[i]),
{
    let mut r: Vec<MenuData> = Vec::new();
    let mut i: usize = 0;
    while i < menu_count
        invariant
            i <= menu_count,
            available@.len() > 0,
            r@.len() == i,
            forall|j: int| 0 <= j < r@.len() ==> available@.contains(#[trigger] r@[j]),
        decreases menu_count - i,
    {
        let idx = pick_index(available.len());
        let item = available[idx].clone();
        proof {
            assert(available@[idx as int] == item);
            assert(available@.contains(item));
        }
        r.push(item);
        i = i + 1;
    }
    r
}

} // verus!
