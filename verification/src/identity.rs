//! Identities of connections.

use std::sync::Arc;
use vstd::prelude::*;

verus! {

/// Where numbers come from. A copy comes from the same place, and anything else does not.
#[verifier::external_body]
#[derive(Debug)]
pub struct Origin {
    mark: Arc<u8>,
}

/// Which origin this is.
pub uninterp spec fn origin_of(origin: Origin) -> int;

/// `Arc::new` makes a place that nothing else points to. Nothing is claimed of which origin it is.
#[verifier::external_body]
fn new_origin() -> (origin: Origin) {
    Origin { mark: Arc::new(0) }
}

/// `Arc::clone` points to the same place.
#[verifier::external_body]
fn copy_origin(origin: &Origin) -> (copy: Origin)
    ensures
        origin_of(copy) == origin_of(*origin),
{
    Origin { mark: Arc::clone(&origin.mark) }
}

/// `Arc::ptr_eq` tells whether both point to the same place, which no other origin can have while one
/// of them is there.
#[verifier::external_body]
fn same_origin(a: &Origin, b: &Origin) -> (same: bool)
    ensures
        same == (origin_of(*a) == origin_of(*b)),
{
    Arc::ptr_eq(&a.mark, &b.mark)
}

/// Which connection this is: its number, and where the number comes from.
pub struct Identity {
    pub origin: int,
    pub number: u64,
}

/// The identity of a connection.
#[derive(Debug)]
pub struct ConnectionId {
    origin: Origin,
    number: u64,
}

impl View for ConnectionId {
    type V = Identity;

    closed spec fn view(&self) -> Identity {
        Identity { origin: origin_of(self.origin), number: self.number }
    }
}

impl ConnectionId {
    /// Copies the identity.
    pub(crate) fn copy(&self) -> (copy: ConnectionId)
        ensures
            copy@ == self@,
    {
        ConnectionId { origin: copy_origin(&self.origin), number: self.number }
    }

    /// Whether both are the identity of one connection.
    pub(crate) fn is(&self, other: &ConnectionId) -> (same: bool)
        ensures
            same == (self@ == other@),
    {
        self.number == other.number && same_origin(&self.origin, &other.origin)
    }
}

/// Gives connections that are split their identities, so that the halves of one are told apart from
/// those of any other. None is given twice.
#[derive(Debug)]
pub struct Connections {
    origin: Origin,
    next: u64,
}

impl Connections {
    /// Where the numbers come from.
    pub closed spec fn origin(self) -> int {
        origin_of(self.origin)
    }

    /// How many identities have been given.
    pub closed spec fn issued(self) -> u64 {
        self.next
    }

    /// The identity that is given next.
    pub open spec fn upcoming(self) -> Identity {
        Identity { origin: self.origin(), number: self.issued() }
    }

    /// No identities have been given.
    pub fn new() -> (connections: Connections)
        ensures
            connections.issued() == 0,
    {
        Connections { origin: new_origin(), next: 0 }
    }

    /// Whether another identity can be given.
    pub fn has_room(&self) -> (room: bool)
        ensures
            room == (self.issued() < u64::MAX),
    {
        self.next < u64::MAX
    }

    /// Gives an identity.
    pub(crate) fn issue(&mut self) -> (id: ConnectionId)
        requires
            old(self).issued() < u64::MAX,
        ensures
            id@ == old(self).upcoming(),
            final(self).origin() == old(self).origin(),
            final(self).issued() == old(self).issued() + 1,
    {
        let number: u64 = self.next;
        self.next = number + 1;
        ConnectionId { origin: copy_origin(&self.origin), number }
    }
}

} // verus!
