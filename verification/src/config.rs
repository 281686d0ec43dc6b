//! The full configuration of a broker.

use crate::router::{RouterConfig, RouterConfigView};
use crate::server::{ServerSettings, ServerSettingsView};
use std::collections::HashMap;
use vstd::prelude::*;

verus! {

/// What a broker is made from: its number, the sizing policy of its router,
/// and its listeners for version 5 of the protocol, each under its name.
/// The number need not differ from that of any other broker.
#[derive(Debug)]
pub struct Config {
    id: usize,
    router: RouterConfig,
    v5: Option<HashMap<String, ServerSettings>>,
}

/// A configuration as plain values. The listeners are a map from a name to
/// the settings under that name, so that no name occurs twice.
pub struct ConfigView {
    pub id: nat,
    pub router: RouterConfigView,
    pub v5: Option<Map<String, ServerSettingsView>>,
}

impl ConfigView {
    /// The configuration with another router configuration in place.
    pub open spec fn with_router(self, router: RouterConfigView) -> ConfigView {
        ConfigView { router, ..self }
    }

    /// The configuration with another number in place.
    pub open spec fn with_id(self, id: nat) -> ConfigView {
        ConfigView { id, ..self }
    }
}

/// The listeners as a map of plain values, where there are any.
pub open spec fn listeners_view(v5: Option<HashMap<String, ServerSettings>>) -> Option<
    Map<String, ServerSettingsView>,
> {
    match v5 {
        Some(m) => Some(m@.map_values(|s: ServerSettings| s@)),
        None => None,
    }
}

impl View for Config {
    type V = ConfigView;

    closed spec fn view(&self) -> ConfigView {
        ConfigView { id: self.id as nat, router: self.router@, v5: listeners_view(self.v5) }
    }
}

/// A copy of the listeners.
fn clone_listeners(v5: &Option<HashMap<String, ServerSettings>>) -> (r: Option<
    HashMap<String, ServerSettings>,
>)
    ensures
        listeners_view(r) == listeners_view(*v5),
{
    match v5 {
        Some(m) => Some(m.clone()),
        None => None,
    }
}

impl Config {
    /// A configuration with the number, the router configuration and the
    /// listeners as given.
    pub fn new(id: usize, router: RouterConfig, v5: Option<HashMap<String, ServerSettings>>) -> (r:
        Config)
        ensures
            r@ == (ConfigView { id: id as nat, router: router@, v5: listeners_view(v5) }),
    {
        Config { id, router, v5 }
    }

    /// The broker's number.
    pub fn id(&self) -> (id: usize)
        ensures
            id == self@.id,
    {
        self.id
    }

    /// Puts `id` in place of the broker's number.
    pub fn set_id(&mut self, id: usize)
        ensures
            final(self)@ == old(self)@.with_id(id as nat),
    {
        self.id = id;
    }

    /// A copy of the router configuration. What is done to the copy does
    /// not reach this configuration.
    pub fn router(&self) -> (r: RouterConfig)
        ensures
            r@ == self@.router,
    {
        self.router
    }

    /// Puts a copy of `router` in place of the router configuration, and
    /// changes nothing else.
    pub fn set_router(&mut self, router: RouterConfig)
        ensures
            final(self)@ == old(self)@.with_router(router@),
    {
        self.router = router;
    }

    /// A copy of the listeners, where there are any.
    pub fn v5(&self) -> (r: Option<HashMap<String, ServerSettings>>)
        ensures
            listeners_view(r) == self@.v5,
    {
        clone_listeners(&self.v5)
    }

    /// The router configuration is read and written by value. A router
    /// configuration that `router` returned, whatever it is changed to,
    /// is a value apart: the configuration keeps the router configuration
    /// it had. Only `set_router` puts the changed one in place; it changes
    /// the router configuration and nothing else, and writing back what was
    /// read changes nothing.
    pub proof fn lemma_router_is_read_by_value(self, changed: RouterConfigView)
        ensures
            ({
                let read = self@.router;
                let written = self@.with_router(changed);
                &&& self@.router == read
                &&& written.router == changed
                &&& written.id == self@.id
                &&& written.v5 == self@.v5
                &&& self@.with_router(read) == self@
            }),
    {
    }
}

impl Clone for Config {
    /// A copy that holds the same values and shares nothing with this
    /// configuration.
    fn clone(&self) -> (r: Config)
        ensures
            r@ == self@,
    {
        Config { id: self.id, router: self.router, v5: clone_listeners(&self.v5) }
    }
}

impl Default for Config {
    /// Number zero, all limits of the router zero, no listeners.
    fn default() -> (r: Config)
        ensures
            r@ == (ConfigView {
                id: 0,
                router: (RouterConfigView {
                    max_connections: 0,
                    max_outgoing_packet_count: 0,
                    max_segment_size: 0,
                    max_segment_count: 0,
                }),
                v5: None,
            }),
    {
        Config { id: 0, router: RouterConfig::new(0, 0, 0, 0), v5: None }
    }
}

} // verus!
