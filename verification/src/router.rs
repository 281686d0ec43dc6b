//! The sizing policy of the broker's router.

use vstd::prelude::*;

verus! {

/// Limits that size the broker's internals. Zero is accepted for each of
/// them, though a broker with such a limit serves nobody.
#[derive(Debug, Clone, Copy, PartialEq, Eq)]
pub struct RouterConfig {
    max_connections: usize,
    max_outgoing_packet_count: u64,
    max_segment_size: usize,
    max_segment_count: usize,
}

/// The limits as numbers.
pub struct RouterConfigView {
    pub max_connections: nat,
    pub max_outgoing_packet_count: nat,
    pub max_segment_size: nat,
    pub max_segment_count: nat,
}

impl View for RouterConfig {
    type V = RouterConfigView;

    closed spec fn view(&self) -> RouterConfigView {
        RouterConfigView {
            max_connections: self.max_connections as nat,
            max_outgoing_packet_count: self.max_outgoing_packet_count as nat,
            max_segment_size: self.max_segment_size as nat,
            max_segment_count: self.max_segment_count as nat,
        }
    }
}

impl RouterConfig {
    /// A router configuration with the four limits as given.
    pub fn new(
        max_connections: usize,
        max_outgoing_packet_count: u64,
        max_segment_size: usize,
        max_segment_count: usize,
    ) -> (r: RouterConfig)
        ensures
            r@ == (RouterConfigView {
                max_connections: max_connections as nat,
                max_outgoing_packet_count: max_outgoing_packet_count as nat,
                max_segment_size: max_segment_size as nat,
                max_segment_count: max_segment_count as nat,
            }),
    {
        RouterConfig {
            max_connections,
            max_outgoing_packet_count,
            max_segment_size,
            max_segment_count,
        }
    }

    /// How many connections the broker accepts at once.
    pub fn max_connections(&self) -> (n: usize)
        ensures
            n == self@.max_connections,
    {
        self.max_connections
    }

    /// Sets how many connections the broker accepts at once.
    pub fn set_max_connections(&mut self, max_connections: usize)
        ensures
            final(self)@ == (RouterConfigView {
                max_connections: max_connections as nat,
                ..old(self)@
            }),
    {
        self.max_connections = max_connections;
    }

    /// How many packets may wait to go out on one connection.
    pub fn max_outgoing_packet_count(&self) -> (n: u64)
        ensures
            n == self@.max_outgoing_packet_count,
    {
        self.max_outgoing_packet_count
    }

    /// Sets how many packets may wait to go out on one connection.
    pub fn set_max_outgoing_packet_count(&mut self, max_outgoing_packet_count: u64)
        ensures
            final(self)@ == (RouterConfigView {
                max_outgoing_packet_count: max_outgoing_packet_count as nat,
                ..old(self)@
            }),
    {
        self.max_outgoing_packet_count = max_outgoing_packet_count;
    }

    /// How large one segment of the message log may grow.
    pub fn max_segment_size(&self) -> (n: usize)
        ensures
            n == self@.max_segment_size,
    {
        self.max_segment_size
    }

    /// Sets how large one segment of the message log may grow.
    pub fn set_max_segment_size(&mut self, max_segment_size: usize)
        ensures
            final(self)@ == (RouterConfigView {
                max_segment_size: max_segment_size as nat,
                ..old(self)@
            }),
    {
        self.max_segment_size = max_segment_size;
    }

    /// How many segments the message log keeps.
    pub fn max_segment_count(&self) -> (n: usize)
        ensures
            n == self@.max_segment_count,
    {
        self.max_segment_count
    }

    /// Sets how many segments the message log keeps.
    pub fn set_max_segment_count(&mut self, max_segment_count: usize)
        ensures
            final(self)@ == (RouterConfigView {
                max_segment_count: max_segment_count as nat,
                ..old(self)@
            }),
    {
        self.max_segment_count = max_segment_count;
    }
}

} // verus!
