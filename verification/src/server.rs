//! The settings of one listener.

use crate::connection::{ConnectionSettings, ConnectionSettingsView};
use crate::socket_addr::{SocketAddr, SocketAddrView};
use vstd::prelude::*;

verus! {

/// One network listener: its name, the address it listens on, the pause
/// between two accepted connections, and the limits for its connections.
/// Listeners made here speak plain text; none is given a TLS setup.
#[derive(Debug)]
pub struct ServerSettings {
    name: String,
    listen: SocketAddr,
    next_connection_delay_ms: u64,
    connections: ConnectionSettings,
}

/// The settings of a listener as plain values.
pub struct ServerSettingsView {
    pub name: Seq<char>,
    pub listen: SocketAddrView,
    pub next_connection_delay_ms: nat,
    pub connections: ConnectionSettingsView,
}

impl View for ServerSettings {
    type V = ServerSettingsView;

    closed spec fn view(&self) -> ServerSettingsView {
        ServerSettingsView {
            name: self.name@,
            listen: self.listen@,
            next_connection_delay_ms: self.next_connection_delay_ms as nat,
            connections: self.connections@,
        }
    }
}

impl ServerSettings {
    /// The settings of a listener with the four values as given.
    pub fn new(
        name: String,
        listen: SocketAddr,
        next_connection_delay_ms: u64,
        connections: ConnectionSettings,
    ) -> (r: ServerSettings)
        ensures
            r@ == (ServerSettingsView {
                name: name@,
                listen: listen@,
                next_connection_delay_ms: next_connection_delay_ms as nat,
                connections: connections@,
            }),
    {
        ServerSettings { name, listen, next_connection_delay_ms, connections }
    }

    /// A copy of the listener's name.
    pub fn name(&self) -> (r: String)
        ensures
            r@ == self@.name,
    {
        self.name.clone()
    }

    /// Puts `name` in place of the listener's name.
    pub fn set_name(&mut self, name: String)
        ensures
            final(self)@ == (ServerSettingsView { name: name@, ..old(self)@ }),
    {
        self.name = name;
    }

    /// A copy of the address that the listener listens on.
    pub fn listen(&self) -> (r: SocketAddr)
        ensures
            r@ == self@.listen,
    {
        self.listen
    }

    /// Puts `listen` in place of the address that the listener listens on.
    pub fn set_listen(&mut self, listen: SocketAddr)
        ensures
            final(self)@ == (ServerSettingsView { listen: listen@, ..old(self)@ }),
    {
        self.listen = listen;
    }

    /// The pause between two accepted connections, in milliseconds.
    pub fn next_connection_delay_ms(&self) -> (n: u64)
        ensures
            n == self@.next_connection_delay_ms,
    {
        self.next_connection_delay_ms
    }

    /// Sets the pause between two accepted connections.
    pub fn set_next_connection_delay_ms(&mut self, delay: u64)
        ensures
            final(self)@ == (ServerSettingsView {
                next_connection_delay_ms: delay as nat,
                ..old(self)@
            }),
    {
        self.next_connection_delay_ms = delay;
    }

    /// A copy of the limits for the listener's connections.
    pub fn connections(&self) -> (r: ConnectionSettings)
        ensures
            r@ == self@.connections,
    {
        self.connections.clone()
    }

    /// Puts `connections` in place of the limits for the listener's
    /// connections.
    pub fn set_connections(&mut self, connections: ConnectionSettings)
        ensures
            final(self)@ == (ServerSettingsView { connections: connections@, ..old(self)@ }),
    {
        self.connections = connections;
    }
}

impl Clone for ServerSettings {
    /// A copy that holds the same values.
    fn clone(&self) -> (r: ServerSettings)
        ensures
            r@ == self@,
    {
        ServerSettings {
            name: self.name.clone(),
            listen: self.listen,
            next_connection_delay_ms: self.next_connection_delay_ms,
            connections: self.connections.clone(),
        }
    }
}

} // verus!
