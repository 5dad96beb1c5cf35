//! Shared pagination engine: translates an optional offset, limit and order
//! into the concrete bounds and direction of a store-level range scan.
//!
//! The offset, when present, is an *exclusive* boundary in the key space
//! being iterated: it becomes the lower bound under ascending order and the
//! upper bound under descending order, yielding "the next page after X"
//! semantics in both directions.

use vstd::prelude::*;

verus! {

/// Hard cap on the number of items one page may return; larger requests are
/// silently clamped, never rejected.
pub const MAX_LIMIT: u8 = 50;

/// Page size used when the caller does not ask for one.
pub const DEFAULT_LIMIT: u8 = 20;

/// Sentinel in the wire format of queries that selects descending order;
/// any other value (or none) selects ascending order.
pub const ORDER_DESCENDING: u8 = 2;

/// Direction of a range scan.
#[derive(Clone, Copy, Debug, PartialEq, Eq, Structural)]
pub enum Order {
    Ascending,
    Descending,
}

/// The page size that a request for `limit` items actually gets.
pub open spec fn clamped_limit(limit: Option<u8>) -> int {
    match limit {
        Some(l) => if l < MAX_LIMIT { l as int } else { MAX_LIMIT as int },
        None => DEFAULT_LIMIT as int,
    }
}

/// The direction that an optional order byte selects.
pub open spec fn chosen_order(order: Option<u8>) -> Order {
    if order == Some(ORDER_DESCENDING) {
        Order::Descending
    } else {
        Order::Ascending
    }
}

/// `s` cut off after `limit` elements.
pub open spec fn truncated<T>(s: Seq<T>, limit: int) -> Seq<T> {
    if limit < s.len() {
        s.take(limit)
    } else {
        s
    }
}

/// A page of `s`: the first `limit` elements, read in the chosen direction.
pub open spec fn page<T>(s: Seq<T>, order: Order, limit: int) -> Seq<T> {
    let directed = if order == Order::Descending {
        s.reverse()
    } else {
        s
    };
    truncated(directed, limit)
}

/// The actual page size: the requested one clamped to the hard cap, or the
/// default when none was requested.
pub fn clamp_limit(limit: Option<u8>) -> (r: usize)
    ensures
        r == clamped_limit(limit),
{
    match limit {
        Some(l) => if l < MAX_LIMIT {
            l as usize
        } else {
            MAX_LIMIT as usize
        },
        None => DEFAULT_LIMIT as usize,
    }
}

/// The direction an optional order byte selects.
pub fn order_of(order: Option<u8>) -> (r: Order)
    ensures
        r == chosen_order(order),
{
    match order {
        Some(num) => if num == ORDER_DESCENDING {
            Order::Descending
        } else {
            Order::Ascending
        },
        None => Order::Ascending,
    }
}

/// Turns the raw paging arguments of a query into the tuple a range scan
/// consumes: `(limit, lower bound, upper bound, direction)`. Both bounds are
/// exclusive; a `None` bound leaves that side of the scan unbounded.
pub fn get_range_params<T>(offset: Option<T>, limit: Option<u8>, order: Option<u8>) -> (r: (
    usize,
    Option<T>,
    Option<T>,
    Order,
))
    ensures
        r.0 == clamped_limit(limit),
        r.3 == chosen_order(order),
        r.3 == Order::Ascending ==> r.1 == offset && r.2 == None::<T>,
        r.3 == Order::Descending ==> r.1 == None::<T> && r.2 == offset,
{
    let limit: usize = clamp_limit(limit);
    let order_enum = order_of(order);
    match order_enum {
        Order::Ascending => (limit, offset, None, order_enum),
        Order::Descending => (limit, None, offset, order_enum),
    }
}

} // verus!
