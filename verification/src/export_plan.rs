//! What an exporter is told.

use vstd::prelude::*;

use crate::config::{Config, Settings, MAX_TIMEOUT};
use crate::string_map::{keys_differ, map_of, pair_texts};

verus! {

/// How spans travel.
#[derive(Clone, Copy, Debug)]
pub enum Transport {
    /// OTLP over HTTP with protobuf bodies: what survives a reverse proxy, a tunnel and a
    /// TLS terminator.
    HttpProtobuf,
}

/// What an exporter is told. Only a configuration with an endpoint has one.
#[derive(Debug)]
pub struct ExportPlan {
    transport: Transport,
    endpoint: String,
    timeout_secs: u64,
    timeout_nanos: u32,
    headers: Vec<(String, String)>,
}

impl ExportPlan {
    #[verifier::type_invariant]
    spec fn well_formed(self) -> bool {
        &&& self.timeout_nanos < 1_000_000_000
        &&& keys_differ(pair_texts(self.headers@))
    }

    /// The headers by their names.
    pub closed spec fn header_map(self) -> Map<Seq<char>, Seq<char>> {
        map_of(pair_texts(self.headers@))
    }

    /// Where spans are sent.
    pub closed spec fn address(self) -> Seq<char> {
        self.endpoint@
    }

    /// How long one export attempt may take, in nanoseconds.
    pub closed spec fn timeout(self) -> int {
        self.timeout_secs * 1_000_000_000 + self.timeout_nanos
    }

    /// Whether this is the plan for a configuration that exports.
    pub open spec fn is_for(self, settings: Settings) -> bool {
        &&& settings.endpoint == Some(self.address())
        &&& self.timeout() == settings.timeout
        &&& self.header_map() == settings.headers
    }

    /// How spans travel.
    pub fn transport(&self) -> (r: Transport)
        ensures
            r == Transport::HttpProtobuf,
    {
        self.transport
    }

    /// Where spans are sent.
    pub fn endpoint(&self) -> (r: &str)
        ensures
            r@ == self.address(),
    {
        self.endpoint.as_str()
    }

    /// The whole seconds that one export attempt may take.
    pub fn timeout_secs(&self) -> (r: u64)
        ensures
            r == self.timeout() / 1_000_000_000,
    {
        proof {
            use_type_invariant(self);
        }
        self.timeout_secs
    }

    /// The nanoseconds it may take on top of them, less than a second.
    pub fn timeout_nanos(&self) -> (r: u32)
        ensures
            r == self.timeout() % 1_000_000_000,
    {
        proof {
            use_type_invariant(self);
        }
        self.timeout_nanos
    }

    /// Sent with every export request, each name once.
    pub fn headers(&self) -> (r: &Vec<(String, String)>)
        ensures
            keys_differ(pair_texts(r@)),
            map_of(pair_texts(r@)) == self.header_map(),
    {
        proof {
            use_type_invariant(self);
        }
        &self.headers
    }
}

/// What the exporter for this configuration is told; `None` when the configuration
/// has no endpoint: that is a service nobody asked to export.
pub fn plan(config: &Config) -> (r: Option<ExportPlan>)
    requires
        config.timeout <= MAX_TIMEOUT,
    ensures
        match r {
            Some(plan) => plan.is_for(config@),
            None => config@.endpoint is None,
        },
{
    match &config.endpoint {
        None => None,
        Some(endpoint) => Some(
            ExportPlan {
                transport: Transport::HttpProtobuf,
                endpoint: endpoint.clone(),
                timeout_secs: (config.timeout / 1_000_000_000) as u64,
                timeout_nanos: (config.timeout % 1_000_000_000) as u32,
                headers: config.headers.pairs(),
            },
        ),
    }
}

} // verus!
