//! Role markers. A connection is specialized at the type level to the client
//! or the server end of the tunnel; the dispatch rules differ per role.

use vstd::prelude::*;

verus! {

/// Marker for the client end of a tunnel connection.
#[derive(Clone)]
pub struct Client;

/// Marker for the server end of a tunnel connection.
#[derive(Clone)]
pub struct Server;

} // verus!
