//! Hooks for the server-list-ping side of the protocol.  Nothing is wired up
//! yet: the entry points exist so the listener can install them.

use vstd::prelude::*;

use crate::packet::Packet;

verus! {

/// Prepares the server-list-ping machinery.  Nothing to set up yet.
pub fn init() {
}

/// Called with the connection handle and the packet that asked for a server
/// list ping; the reply will be written through `_connection`.
pub fn slp_callback(_connection: i32, _packet: &Packet) {
}

} // verus!
