//! The listing that the list endpoint returns, and the ways its body can fail
//! to be one.

use vstd::prelude::*;

verus! {

/// One resource identifier.
#[derive(Debug)]
pub struct Item {
    pub id: String,
}

impl View for Item {
    type V = Seq<char>;

    open spec fn view(&self) -> Seq<char> {
        self.id@
    }
}

/// The decoded list response: the identifiers in the order of the body, and
/// the total that the body declares. The total is advisory; the items are what
/// gets deleted.
#[derive(Debug)]
pub struct ResponseData {
    pub items: Vec<Item>,
    pub total: i32,
}

/// A listing as mathematics.
pub struct Listing {
    pub ids: Seq<Seq<char>>,
    pub total: int,
}

/// The identifiers that a sequence of items holds, in order.
pub open spec fn ids_of(items: Seq<Item>) -> Seq<Seq<char>> {
    Seq::new(items.len(), |i: int| items[i]@)
}

impl View for ResponseData {
    type V = Listing;

    open spec fn view(&self) -> Listing {
        Listing { ids: ids_of(self.items@), total: self.total as int }
    }
}

impl ResponseData {
    /// How many slots to reserve for the work list: the declared total where
    /// it is a count, none where it is negative.
    pub fn capacity_hint(&self) -> (n: usize)
        ensures
            n == if self.total < 0 { 0 } else { self.total as int },
    {
        if self.total < 0 {
            0
        } else {
            self.total as usize
        }
    }
}

/// Why a response body is no listing.
#[derive(Debug, Clone, Copy, PartialEq, Eq, Structural)]
pub enum DecodeError {
    /// The body is not JSON.
    Syntax,
    /// The body is no object with an array under `items`.
    Items,
    /// The body has no integer under `total` that an `i32` holds.
    Total,
    /// The element of `items` at this index has no text under the first
    /// identifier name that it holds, or holds none of the names.
    Identifier(usize),
    /// The address of the list request is malformed.
    ListAddress,
    /// The address of the delete request for the item at this index is
    /// malformed.
    DeleteAddress(usize),
}

} // verus!
