//! Front-of-house steps of the restaurant interface: joining the waiting
//! list, being seated, and a guest's visit that walks through both. The
//! steps carry no state of their own.

use vstd::prelude::*;

verus! {

/// Puts a party on the waiting list.
pub fn add_to_list() {
}

/// Seats the next waiting party.
pub fn seat_table() {
}

/// A guest's visit: join the waiting list, then get seated.
pub fn eat_at_restaurant() {
    add_to_list();
    seat_table();
}

} // verus!
