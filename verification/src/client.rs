//! Client configuration, held as plain values: bootstrap nodes, resolvers
//! and the DHT request timeout. The network-facing client itself is built
//! outside this crate from these settings; here they are only collected,
//! which is what the builder is for.

use vstd::prelude::*;

verus! {

/// Settings for the DHT-backed client: bootstrap nodes, resolvers (as
/// unresolved `host:port` strings), and the request timeout of the UDP
/// socket, in milliseconds.
#[derive(Debug)]
pub struct Settings {
    pub bootstrap: Vec<String>,
    pub resolvers: Vec<String>,
    pub request_timeout_ms: u64,
}

impl Default for Settings {
    /// No bootstrap nodes, no resolvers, a two-second timeout.
    fn default() -> (r: Settings)
        ensures
            r.bootstrap@ == Seq::<String>::empty(),
            r.resolvers@ == Seq::<String>::empty(),
            r.request_timeout_ms == 2000,
    {
        Settings { bootstrap: Vec::new(), resolvers: Vec::new(), request_timeout_ms: 2000 }
    }
}

/// A local test network: its bootstrap nodes and its own nodes, as
/// `host:port` strings.
#[derive(Debug)]
pub struct Testnet {
    pub bootstrap: Vec<String>,
    pub nodes: Vec<String>,
}

/// Collects client settings before the network-facing client is built.
#[derive(Debug)]
pub struct PubkyClientBuilder {
    pub settings: Settings,
}

impl Default for PubkyClientBuilder {
    fn default() -> (r: PubkyClientBuilder)
        ensures
            r.settings.bootstrap@ == Seq::<String>::empty(),
            r.settings.resolvers@ == Seq::<String>::empty(),
            r.settings.request_timeout_ms == 2000,
    {
        PubkyClientBuilder { settings: Settings::default() }
    }
}

impl PubkyClientBuilder {
    /// Replace the client settings wholesale.
    pub fn pkarr_settings(self, settings: Settings) -> (r: PubkyClientBuilder)
        ensures
            r.settings == settings,
    {
        PubkyClientBuilder { settings }
    }

    /// Use the bootstrap nodes of a testnet as both the bootstrap nodes
    /// and the resolvers.
    pub fn testnet(self, testnet: &Testnet) -> (r: PubkyClientBuilder)
        ensures
            r.settings.bootstrap@ == testnet.bootstrap@,
            r.settings.resolvers@ == testnet.bootstrap@,
            r.settings.request_timeout_ms == self.settings.request_timeout_ms,
    {
        let bootstrap = clone_strings(&testnet.bootstrap);
        let resolvers = clone_strings(&testnet.bootstrap);
        PubkyClientBuilder {
            settings: Settings {
                bootstrap,
                resolvers,
                request_timeout_ms: self.settings.request_timeout_ms,
            },
        }
    }

    /// Set the request timeout of the UDP socket in the DHT client, in
    /// milliseconds. Useful to speed up unit tests; defaults to 2 seconds.
    pub fn dht_request_timeout(self, timeout_ms: u64) -> (r: PubkyClientBuilder)
        ensures
            r.settings.request_timeout_ms == timeout_ms,
            r.settings.bootstrap@ == self.settings.bootstrap@,
            r.settings.resolvers@ == self.settings.resolvers@,
    {
        PubkyClientBuilder {
            settings: Settings {
                bootstrap: self.settings.bootstrap,
                resolvers: self.settings.resolvers,
                request_timeout_ms: timeout_ms,
            },
        }
    }
}

/// An element-wise copy of a vector of strings.
fn clone_strings(v: &Vec<String>) -> (r: Vec<String>)
    ensures
        r@ == v@,
{
    let mut out: Vec<String> = Vec::new();
    let n = v.len();
    let mut i: usize = 0;
    while i < n
        invariant
            i <= n == v@.len(),
            out@ == v@.take(i as int),
        decreases n - i,
    {
        out.push(v[i].clone());
        proof {
            assert(out@ =~= v@.take(i + 1));
        }
        i = i + 1;
    }
    proof {
        assert(v@.take(n as int) =~= v@);
    }
    out
}

} // verus!
