//! The connections of a server and what was negotiated on each.

use std::collections::HashMap;
use vstd::prelude::*;
use crate::event::MtuChangedEvent;

verus! {

/// What the server knows of one connection.
#[derive(Clone, Copy, Debug, PartialEq, Eq)]
pub struct Connection {
    /// The transmission unit size, once one was negotiated.
    pub mtu: Option<u16>,
}

/// The server's record of its connections, by connection id.
pub struct GattServer {
    pub active_connections: HashMap<u16, Connection>,
}

impl GattServer {
    /// Records the transmission unit size that was negotiated on a
    /// connection.
    ///
    /// Tells whether the connection is an active one. The event of any
    /// other connection changes nothing.
    pub fn on_mtu_change(&mut self, event: MtuChangedEvent) -> (known: bool)
        ensures
            known == old(self).active_connections@.contains_key(event.connection_id),
            known ==> final(self).active_connections@ == old(self).active_connections@.insert(
                event.connection_id,
                (Connection { mtu: Some(event.new_mtu) }),
            ),
            !known ==> final(self).active_connections@ == old(self).active_connections@,
    {
        if self.active_connections.contains_key(&event.connection_id) {
            self.active_connections.insert(
                event.connection_id,
                Connection { mtu: Some(event.new_mtu) },
            );
            true
        } else {
            false
        }
    }
}

} // verus!
