//! The broker before it runs: it holds a configuration, and hands over a
//! snapshot of it when it is started.

use crate::config::{Config, ConfigView};
use crate::router::RouterConfigView;
use vstd::prelude::*;

verus! {

/// A broker that can be started. Starting is all that can be done with it:
/// there is no way to stop a started broker, to start it anew or to ask
/// how it fares.
pub struct Broker {
    config: Config,
}

/// A broker as the configuration that it holds.
pub struct BrokerView {
    pub config: ConfigView,
}

impl View for Broker {
    type V = BrokerView;

    closed spec fn view(&self) -> BrokerView {
        BrokerView { config: self.config@ }
    }
}

impl Broker {
    /// A broker that holds `config`.
    pub fn new(config: Config) -> (b: Broker)
        ensures
            b@.config == config@,
    {
        Broker { config }
    }

    /// Starts the broker: hands over a snapshot of the configuration, from
    /// which the engine is to be made and run on a thread of its own. The
    /// snapshot holds what the broker holds at this moment and shares
    /// nothing with it; the broker itself stays as it is.
    pub fn start(&self) -> (snapshot: Config)
        ensures
            snapshot@ == self@.config,
    {
        self.config.clone()
    }

    /// The snapshot that `start` hands over is the configuration that the
    /// broker was made from by `new`. Where the one who made the broker
    /// goes on to set another number or another router configuration in a
    /// configuration of their own, that is a value apart: the snapshot does
    /// not follow.
    pub proof fn lemma_snapshot_is_what_was_given(
        given: ConfigView,
        id: nat,
        router: RouterConfigView,
    )
        ensures
            ({
                let broker = BrokerView { config: given };
                let changed = given.with_id(id).with_router(router);
                let snapshot = broker.config;
                &&& snapshot == given
                &&& (id != given.id || router != given.router) ==> snapshot != changed
            }),
    {
    }
}

} // verus!
