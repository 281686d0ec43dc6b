//! The limits that a listener applies to each of its connections.

use std::collections::HashMap;
use vstd::prelude::*;

verus! {

/// Limits for one connection, and the credentials that a listener accepts.
/// No value is checked against another: any number is accepted.
#[derive(Debug)]
pub struct ConnectionSettings {
    connection_timeout_ms: u16,
    max_payload_size: usize,
    max_inflight_count: usize,
    auth: Option<HashMap<String, String>>,
    dynamic_filters: bool,
}

/// Connection settings as plain values. The credentials are a map from a
/// name to its secret, so that no name occurs twice.
pub struct ConnectionSettingsView {
    pub connection_timeout_ms: nat,
    pub max_payload_size: nat,
    pub max_inflight_count: nat,
    pub auth: Option<Map<String, String>>,
    pub dynamic_filters: bool,
}

/// The credentials as a map, where there are any.
pub open spec fn auth_view(auth: Option<HashMap<String, String>>) -> Option<Map<String, String>> {
    match auth {
        Some(m) => Some(m@),
        None => None,
    }
}

impl View for ConnectionSettings {
    type V = ConnectionSettingsView;

    closed spec fn view(&self) -> ConnectionSettingsView {
        ConnectionSettingsView {
            connection_timeout_ms: self.connection_timeout_ms as nat,
            max_payload_size: self.max_payload_size as nat,
            max_inflight_count: self.max_inflight_count as nat,
            auth: auth_view(self.auth),
            dynamic_filters: self.dynamic_filters,
        }
    }
}

/// A copy of the credentials.
fn clone_auth(auth: &Option<HashMap<String, String>>) -> (r: Option<HashMap<String, String>>)
    ensures
        auth_view(r) == auth_view(*auth),
{
    match auth {
        Some(m) => Some(m.clone()),
        None => None,
    }
}

impl ConnectionSettings {
    /// Connection settings with the five values as given.
    pub fn new(
        connection_timeout_ms: u16,
        max_payload_size: usize,
        max_inflight_count: usize,
        dynamic_filters: bool,
        auth: Option<HashMap<String, String>>,
    ) -> (r: ConnectionSettings)
        ensures
            r@ == (ConnectionSettingsView {
                connection_timeout_ms: connection_timeout_ms as nat,
                max_payload_size: max_payload_size as nat,
                max_inflight_count: max_inflight_count as nat,
                auth: auth_view(auth),
                dynamic_filters,
            }),
    {
        ConnectionSettings {
            connection_timeout_ms,
            max_payload_size,
            max_inflight_count,
            auth,
            dynamic_filters,
        }
    }

    /// How long a connection may take to get established, in milliseconds.
    pub fn connection_timeout_ms(&self) -> (n: u16)
        ensures
            n == self@.connection_timeout_ms,
    {
        self.connection_timeout_ms
    }

    /// Sets how long a connection may take to get established.
    pub fn set_connection_timeout_ms(&mut self, timeout: u16)
        ensures
            final(self)@ == (ConnectionSettingsView {
                connection_timeout_ms: timeout as nat,
                ..old(self)@
            }),
    {
        self.connection_timeout_ms = timeout;
    }

    /// How large the payload of one packet may be.
    pub fn max_payload_size(&self) -> (n: usize)
        ensures
            n == self@.max_payload_size,
    {
        self.max_payload_size
    }

    /// Sets how large the payload of one packet may be.
    pub fn set_max_payload_size(&mut self, size: usize)
        ensures
            final(self)@ == (ConnectionSettingsView {
                max_payload_size: size as nat,
                ..old(self)@
            }),
    {
        self.max_payload_size = size;
    }

    /// How many messages may wait for their acknowledgement at once.
    pub fn max_inflight_count(&self) -> (n: usize)
        ensures
            n == self@.max_inflight_count,
    {
        self.max_inflight_count
    }

    /// Sets how many messages may wait for their acknowledgement at once.
    pub fn set_max_inflight_count(&mut self, count: usize)
        ensures
            final(self)@ == (ConnectionSettingsView {
                max_inflight_count: count as nat,
                ..old(self)@
            }),
    {
        self.max_inflight_count = count;
    }

    /// A copy of the credentials, where there are any.
    pub fn auth(&self) -> (r: Option<HashMap<String, String>>)
        ensures
            auth_view(r) == self@.auth,
    {
        clone_auth(&self.auth)
    }

    /// Puts the credentials in place of the present ones.
    pub fn set_auth(&mut self, auth: Option<HashMap<String, String>>)
        ensures
            final(self)@ == (ConnectionSettingsView { auth: auth_view(auth), ..old(self)@ }),
    {
        self.auth = auth;
    }

    /// Whether clients may subscribe to filters that were not set up in
    /// advance.
    pub fn dynamic_filters(&self) -> (b: bool)
        ensures
            b == self@.dynamic_filters,
    {
        self.dynamic_filters
    }

    /// Sets whether clients may subscribe to filters that were not set up in
    /// advance.
    pub fn set_dynamic_filters(&mut self, filters: bool)
        ensures
            final(self)@ == (ConnectionSettingsView { dynamic_filters: filters, ..old(self)@ }),
    {
        self.dynamic_filters = filters;
    }
}

impl Clone for ConnectionSettings {
    /// A copy that holds the same values.
    fn clone(&self) -> (r: ConnectionSettings)
        ensures
            r@ == self@,
    {
        ConnectionSettings {
            connection_timeout_ms: self.connection_timeout_ms,
            max_payload_size: self.max_payload_size,
            max_inflight_count: self.max_inflight_count,
            auth: clone_auth(&self.auth),
            dynamic_filters: self.dynamic_filters,
        }
    }
}

} // verus!
