//! Configuration for the replicator.

use crate::change;
use crate::change::clone_opt_text;
use crate::ext::time;
use std::time::Duration;
use vstd::prelude::*;

verus! {

/// Configuration for the replicator.
///
/// This struct configures how the replication layer operates, including discovery
/// mechanisms, sync intervals, and network settings.
#[derive(Debug)]
pub struct ReplicatorConfig {
    /// Enable DHT-based peer discovery
    pub enable_dht: bool,
    /// Enable DNS-based discovery (default: true)
    pub enable_dns: bool,
    /// Enable local network discovery via mDNS (default: true)
    pub enable_mdns: bool,
    /// Publish our address via Pkarr for DNS discovery (default: true)
    pub enable_pkarr_publish: bool,
    /// Interval between sync attempts with connected peers
    pub sync_interval: Duration,
    /// Maximum number of peers to connect to simultaneously
    pub max_peers: usize,
    /// Bind address for the endpoint, as text
    pub bind_addr: Option<String>,
    /// External address hint for NAT traversal, as text
    pub external_addr: Option<String>,
    /// Relay servers to use (defaults to the public relays)
    pub relay_servers: Vec<String>,
    /// Enable metrics collection
    pub enable_metrics: bool,
    /// Secret key for this node (if None, generates a new one)
    pub secret_key_bytes: Option<Vec<u8>>,
}

impl Clone for ReplicatorConfig {
    fn clone(&self) -> (c: Self)
        ensures
            c.enable_dht == self.enable_dht,
            c.enable_dns == self.enable_dns,
            c.enable_mdns == self.enable_mdns,
            c.enable_pkarr_publish == self.enable_pkarr_publish,
            c.sync_interval == self.sync_interval,
            c.max_peers == self.max_peers,
            change::opt_text(c.bind_addr) == change::opt_text(self.bind_addr),
            change::opt_text(c.external_addr) == change::opt_text(self.external_addr),
            c.relay_servers@.len() == self.relay_servers@.len(),
            forall|i: int|
                0 <= i < self.relay_servers@.len() ==> (#[trigger] c.relay_servers@[i])@
                    == self.relay_servers@[i]@,
            c.enable_metrics == self.enable_metrics,
            match self.secret_key_bytes {
                Some(bytes) => c.secret_key_bytes is Some && c.secret_key_bytes->Some_0@ == bytes@,
                None => c.secret_key_bytes is None,
            },
    {
        let mut relay_servers: Vec<String> = Vec::new();
        let mut i: usize = 0;
        while i < self.relay_servers.len()
            invariant
                i <= self.relay_servers.len(),
                relay_servers.len() == i,
                forall|k: int|
                    0 <= k < i ==> (#[trigger] relay_servers@[k])@ == self.relay_servers@[k]@,
            decreases self.relay_servers.len() - i,
        {
            relay_servers.push(self.relay_servers[i].clone());
            i = i + 1;
        }
        ReplicatorConfig {
            enable_dht: self.enable_dht,
            enable_dns: self.enable_dns,
            enable_mdns: self.enable_mdns,
            enable_pkarr_publish: self.enable_pkarr_publish,
            sync_interval: self.sync_interval,
            max_peers: self.max_peers,
            bind_addr: clone_opt_text(&self.bind_addr),
            external_addr: clone_opt_text(&self.external_addr),
            relay_servers,
            enable_metrics: self.enable_metrics,
            secret_key_bytes: match &self.secret_key_bytes {
                Some(bytes) => {
                    let copy = bytes.clone();
                    assert(copy@ =~= bytes@);
                    Some(copy)
                },
                None => None,
            },
        }
    }
}

/// Whether a configuration has the default values.
pub open spec fn is_default_config(c: ReplicatorConfig) -> bool {
    &&& !c.enable_dht
    &&& c.enable_dns
    &&& c.enable_mdns
    &&& c.enable_pkarr_publish
    &&& time::duration_nanos(c.sync_interval) == 30_000_000_000
    &&& c.max_peers == 10
    &&& c.bind_addr is None
    &&& c.external_addr is None
    &&& c.relay_servers@.len() == 0
    &&& !c.enable_metrics
    &&& c.secret_key_bytes is None
}

impl Default for ReplicatorConfig {
    fn default() -> (c: Self)
        ensures
            is_default_config(c),
    {
        ReplicatorConfig {
            enable_dht: false,
            enable_dns: true,
            enable_mdns: true,
            enable_pkarr_publish: true,
            sync_interval: Duration::from_secs(30),
            max_peers: 10,
            bind_addr: None,
            external_addr: None,
            relay_servers: Vec::new(),
            enable_metrics: false,
            secret_key_bytes: None,
        }
    }
}

impl ReplicatorConfig {
    /// Create a new configuration with default values.
    pub fn new() -> (c: Self)
        ensures
            is_default_config(c),
    {
        Self::default()
    }

    /// Enable or disable DHT-based discovery.
    pub fn with_dht(self, enabled: bool) -> (c: Self)
        ensures
            c == (ReplicatorConfig { enable_dht: enabled, ..self }),
    {
        ReplicatorConfig { enable_dht: enabled, ..self }
    }

    /// Enable or disable DNS-based discovery.
    pub fn with_dns(self, enabled: bool) -> (c: Self)
        ensures
            c == (ReplicatorConfig { enable_dns: enabled, ..self }),
    {
        ReplicatorConfig { enable_dns: enabled, ..self }
    }

    /// Enable or disable mDNS local discovery.
    pub fn with_mdns(self, enabled: bool) -> (c: Self)
        ensures
            c == (ReplicatorConfig { enable_mdns: enabled, ..self }),
    {
        ReplicatorConfig { enable_mdns: enabled, ..self }
    }

    /// Enable or disable Pkarr address publishing.
    pub fn with_pkarr(self, enabled: bool) -> (c: Self)
        ensures
            c == (ReplicatorConfig { enable_pkarr_publish: enabled, ..self }),
    {
        ReplicatorConfig { enable_pkarr_publish: enabled, ..self }
    }

    /// Set the sync interval.
    pub fn with_sync_interval(self, interval: Duration) -> (c: Self)
        ensures
            c == (ReplicatorConfig { sync_interval: interval, ..self }),
    {
        ReplicatorConfig { sync_interval: interval, ..self }
    }

    /// Set the maximum number of peers.
    pub fn with_max_peers(self, max: usize) -> (c: Self)
        ensures
            c == (ReplicatorConfig { max_peers: max, ..self }),
    {
        ReplicatorConfig { max_peers: max, ..self }
    }

    /// Set the bind address.
    pub fn with_bind_addr(self, addr: String) -> (c: Self)
        ensures
            c == (ReplicatorConfig { bind_addr: Some(addr), ..self }),
    {
        ReplicatorConfig { bind_addr: Some(addr), ..self }
    }

    /// Set external address hint.
    pub fn with_external_addr(self, addr: String) -> (c: Self)
        ensures
            c == (ReplicatorConfig { external_addr: Some(addr), ..self }),
    {
        ReplicatorConfig { external_addr: Some(addr), ..self }
    }

    /// Add a relay server URL.
    pub fn with_relay_server(self, url: String) -> (c: Self)
        ensures
            c.relay_servers@ == self.relay_servers@.push(url),
            c == (ReplicatorConfig { relay_servers: c.relay_servers, ..self }),
    {
        let mut c = self;
        c.relay_servers.push(url);
        c
    }
}

/// The replication that is set up where nothing else is asked for: found by DNS and on the
/// local network, with our address published; a sync every half a minute, with ten peers at
/// most; no addresses, relays or key of our own, and no metrics.
pub proof fn default_replication(c: ReplicatorConfig)
    requires
        call_ensures(ReplicatorConfig::new, (), c) || call_ensures(ReplicatorConfig::default, (), c),
    ensures
        !c.enable_dht,
        c.enable_dns,
        c.enable_mdns,
        c.enable_pkarr_publish,
        time::duration_nanos(c.sync_interval) == 30_000_000_000,
        c.max_peers == 10,
        c.bind_addr is None,
        c.external_addr is None,
        c.relay_servers@.len() == 0,
        !c.enable_metrics,
        c.secret_key_bytes is None,
{
}

/// Each setting sets what it names and leaves the other settings.
pub proof fn settings_are_independent(
    c: ReplicatorConfig,
    on: bool,
    dht: ReplicatorConfig,
    dns: ReplicatorConfig,
    mdns: ReplicatorConfig,
    pkarr: ReplicatorConfig,
    interval: Duration,
    timed: ReplicatorConfig,
    max: usize,
    limited: ReplicatorConfig,
    text: String,
    bound: ReplicatorConfig,
    hinted: ReplicatorConfig,
    relayed: ReplicatorConfig,
)
    requires
        call_ensures(ReplicatorConfig::with_dht, (c, on), dht),
        call_ensures(ReplicatorConfig::with_dns, (c, on), dns),
        call_ensures(ReplicatorConfig::with_mdns, (c, on), mdns),
        call_ensures(ReplicatorConfig::with_pkarr, (c, on), pkarr),
        call_ensures(ReplicatorConfig::with_sync_interval, (c, interval), timed),
        call_ensures(ReplicatorConfig::with_max_peers, (c, max), limited),
        call_ensures(ReplicatorConfig::with_bind_addr, (c, text), bound),
        call_ensures(ReplicatorConfig::with_external_addr, (c, text), hinted),
        call_ensures(ReplicatorConfig::with_relay_server, (c, text), relayed),
    ensures
        dht.enable_dht == on && dht.enable_dns == c.enable_dns && dht.enable_mdns == c.enable_mdns
            && dht.enable_pkarr_publish == c.enable_pkarr_publish,
        dns.enable_dns == on && dns.enable_dht == c.enable_dht && dns.enable_mdns == c.enable_mdns
            && dns.enable_pkarr_publish == c.enable_pkarr_publish,
        mdns.enable_mdns == on && mdns.enable_dht == c.enable_dht && mdns.enable_dns == c.enable_dns
            && mdns.enable_pkarr_publish == c.enable_pkarr_publish,
        pkarr.enable_pkarr_publish == on && pkarr.enable_dht == c.enable_dht && pkarr.enable_dns
            == c.enable_dns && pkarr.enable_mdns == c.enable_mdns,
        timed.sync_interval == interval && timed.max_peers == c.max_peers,
        limited.max_peers == max && limited.sync_interval == c.sync_interval,
        bound.bind_addr == Some(text) && bound.external_addr == c.external_addr,
        hinted.external_addr == Some(text) && hinted.bind_addr == c.bind_addr,
        relayed.relay_servers@ == c.relay_servers@.push(text),
{
}

}
