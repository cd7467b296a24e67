//! The two ends of a connection.

use vstd::prelude::*;

verus! {

/// Which end of a connection this is.
#[derive(Debug, Clone, Copy, PartialEq, Eq, Structural)]
pub enum Side {
    /// The end that opened the connection.
    Client,
    /// The end that accepted it.
    Server,
}

/// The other end.
pub open spec fn peer_of(side: Side) -> Side {
    match side {
        Side::Client => Side::Server,
        Side::Server => Side::Client,
    }
}

/// Law: a connection has two ends: the other end is never the same, and its other end is this one.
pub proof fn ends_are_opposite(side: Side)
    ensures
        peer_of(side) != side,
        peer_of(peer_of(side)) == side,
{
}

} // verus!
