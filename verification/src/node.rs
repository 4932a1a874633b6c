//! Process identity, the proxy-level error, and the decisions taken before a
//! configuration is activated on a node.

use vstd::prelude::*;
use vstd::string::StringExecFns;
use crate::text::{utf8, str_eq};
use crate::naming::{id_ok, id_bytes_ok};
use crate::error::ConfigError;
use crate::net::SocketAddress;
use crate::web::opt_view;
use crate::schema::{Config, ListenerConfig, ObservabilityConfig, OtlpTraceConfig};

verus! {

/// Failure of the proxy core.
#[derive(Debug)]
pub enum ProxyError {
    /// Invalid startup configuration.
    Config(ConfigError),
    /// Runtime preparation failed.
    Preparation(String),
}

impl ProxyError {
    /// The human-readable text of the error.
    pub fn to_string(&self) -> (r: String)
        ensures
            self matches ProxyError::Preparation(m) ==> r@ =~= "runtime preparation failed: "@
                + m@,
            self matches ProxyError::Config(ConfigError::Invalid(m)) ==> r@
                =~= "configuration failed validation: configuration is invalid: "@ + m@,
    {
        match self {
            ProxyError::Config(e) => {
                let prefix = String::from_str("configuration failed validation: ");
                let inner = e.to_string();
                let r = prefix.concat(inner.as_str());
                proof {
                    let ConfigError::Invalid(m) = *e;
                    assert(r@ =~= "configuration failed validation: "@ + (
                    "configuration is invalid: "@ + m@));
                    assert(r@ =~= "configuration failed validation: configuration is invalid: "@
                        + m@) by {
                        reveal_strlit("configuration failed validation: ");
                        reveal_strlit("configuration is invalid: ");
                        reveal_strlit("configuration failed validation: configuration is invalid: ");
                    }
                }
                r
            },
            ProxyError::Preparation(m) => {
                let prefix = String::from_str("runtime preparation failed: ");
                prefix.concat(m.as_str())
            },
        }
    }
}

/// Stable process identity kept outside declarative configuration hashes.
#[derive(Clone, Debug)]
pub struct NodeIdentity {
    id: String,
    fleet_generation: u64,
}

impl NodeIdentity {
    /// The node identifier's text.
    pub closed spec fn id_view(&self) -> Seq<char> {
        self.id@
    }

    /// The externally assigned rollout generation.
    pub closed spec fn generation(&self) -> u64 {
        self.fleet_generation
    }

    /// Validates a node ID (the identifier rule of the configuration) and
    /// keeps its externally monotonic fleet generation.
    pub fn new(id: String, fleet_generation: u64) -> (r: Result<NodeIdentity, ProxyError>)
        ensures
            r is Ok <==> id_ok(utf8(id@)),
            r matches Ok(n) ==> n.id_view() == id@ && n.generation() == fleet_generation,
            r matches Err(e) ==> e matches ProxyError::Preparation(m) && m@
                == "invalid node identifier"@,
    {
        if !id_bytes_ok(id.as_str().as_bytes()) {
            return Err(ProxyError::Preparation(String::from_str("invalid node identifier")));
        }
        Ok(NodeIdentity { id, fleet_generation })
    }

    /// Single-node bootstrap identity.
    pub fn standalone() -> (r: NodeIdentity)
        ensures
            r.id_view() == "standalone"@,
            r.generation() == 0,
    {
        NodeIdentity { id: String::from_str("standalone"), fleet_generation: 0 }
    }

    /// Stable node identifier.
    pub fn id(&self) -> (r: &str)
        ensures
            r@ == self.id_view(),
    {
        self.id.as_str()
    }

    /// Externally assigned rollout generation.
    pub fn fleet_generation(&self) -> (r: u64)
        ensures
            r == self.generation(),
    {
        self.fleet_generation
    }
}

/// A fleet member (generation above zero) that manages certificates must name
/// the one node that renews them.
pub open spec fn node_policy_ok(config: Config, generation: u64) -> bool {
    !(generation > 0 && config.acme.certificates@.len() > 0 && config.acme.renewal_owner is None)
}

/// Checks the node-level policy of a configuration before activation.
pub fn validate_node_policy(config: &Config, identity: &NodeIdentity) -> (r: Result<(), ProxyError>)
    ensures
        r is Ok <==> node_policy_ok(*config, identity.generation()),
        r matches Err(e) ==> e matches ProxyError::Preparation(m) && m@
            == "fleet ACME configuration requires acme.renewal_owner"@,
{
    if identity.fleet_generation() > 0 && config.acme.certificates.len() > 0
        && config.acme.renewal_owner.is_none() {
        return Err(
            ProxyError::Preparation(
                String::from_str("fleet ACME configuration requires acme.renewal_owner"),
            ),
        );
    }
    Ok(())
}

/// Two telemetry policies are equal field by field.
pub open spec fn same_observability(a: ObservabilityConfig, b: ObservabilityConfig) -> bool {
    &&& a.access_log == b.access_log
    &&& a.access_log_sample_per_million == b.access_log_sample_per_million
    &&& a.metrics == b.metrics
    &&& match (a.otlp_traces, b.otlp_traces) {
        (None, None) => true,
        (Some(x), Some(y)) => same_otlp(x, y),
        _ => false,
    }
}

pub open spec fn same_otlp(x: OtlpTraceConfig, y: OtlpTraceConfig) -> bool {
    &&& x.endpoint@.serialization == y.endpoint@.serialization
    &&& x.sample_per_million == y.sample_per_million
    &&& x.max_queue_size == y.max_queue_size
    &&& x.max_export_batch_size == y.max_export_batch_size
    &&& x.export_timeout_secs == y.export_timeout_secs
}

/// A listener of the running configuration is kept, with the same bind and
/// protocol, by the candidate.
pub open spec fn listener_kept(l: ListenerConfig, candidate: Seq<ListenerConfig>) -> bool {
    exists|j: int|
        0 <= j < candidate.len() && #[trigger] same_socket(l, candidate[j])
}

pub open spec fn same_socket(l: ListenerConfig, c: ListenerConfig) -> bool {
    l.id@ == c.id@ && l.bind == c.bind && l.protocol@ == c.protocol@
}

/// A candidate can replace the running configuration without a restart:
/// the state directory, limits, telemetry, handshake bound, browser
/// administration and listener sockets are unchanged.
pub open spec fn hot_reload_ok(current: Config, candidate: Config) -> bool {
    &&& current.runtime.state_dir@ == candidate.runtime.state_dir@
    &&& current.limits == candidate.limits
    &&& same_observability(current.observability, candidate.observability)
    &&& current.tls.max_handshakes == candidate.tls.max_handshakes
    &&& current.admin.web.enabled == candidate.admin.web.enabled
    &&& current.admin.web.bind == candidate.admin.web.bind
    &&& current.admin.web.origin@ == candidate.admin.web.origin@
    &&& current.listeners@.len() == candidate.listeners@.len()
    &&& forall|i: int|
        0 <= i < current.listeners@.len() ==> #[trigger] listener_kept(
            current.listeners@[i],
            candidate.listeners@,
        )
}

fn same_telemetry(a: &ObservabilityConfig, b: &ObservabilityConfig) -> (r: bool)
    ensures
        r == same_observability(*a, *b),
{
    let traces = match (&a.otlp_traces, &b.otlp_traces) {
        (None, None) => true,
        (Some(x), Some(y)) => str_eq(x.endpoint.as_str(), y.endpoint.as_str())
            && x.sample_per_million == y.sample_per_million && x.max_queue_size
            == y.max_queue_size && x.max_export_batch_size == y.max_export_batch_size
            && x.export_timeout_secs == y.export_timeout_secs,
        _ => false,
    };
    a.access_log == b.access_log && a.access_log_sample_per_million
        == b.access_log_sample_per_million && a.metrics == b.metrics && traces
}

fn listener_is_kept(l: &ListenerConfig, candidate: &Vec<ListenerConfig>) -> (r: bool)
    ensures
        r == listener_kept(*l, candidate@),
{
    let mut j: usize = 0;
    while j < candidate.len()
        invariant
            j <= candidate@.len(),
            forall|k: int| 0 <= k < j ==> !#[trigger] same_socket(*l, candidate@[k]),
        decreases candidate@.len() - j,
    {
        let c = &candidate[j];
        if str_eq(l.id.as_str(), c.id.as_str()) && l.bind == c.bind && str_eq(
            l.protocol.as_str(),
            c.protocol.as_str(),
        ) {
            proof {
                assert(same_socket(*l, candidate@[j as int]));
            }
            return true;
        }
        j += 1;
    }
    false
}

/// Whether a candidate can be activated without restarting the process.
pub fn hot_reload_compatible(current: &Config, candidate: &Config) -> (r: bool)
    ensures
        r == hot_reload_ok(*current, *candidate),
{
    if !(str_eq(current.runtime.state_dir.as_str(), candidate.runtime.state_dir.as_str())
        && current.limits == candidate.limits && same_telemetry(
        &current.observability,
        &candidate.observability,
    ) && current.tls.max_handshakes == candidate.tls.max_handshakes
        && current.admin.web.enabled == candidate.admin.web.enabled && current.admin.web.bind
        == candidate.admin.web.bind && str_eq(
        current.admin.web.origin.as_str(),
        candidate.admin.web.origin.as_str(),
    ) && current.listeners.len() == candidate.listeners.len()) {
        return false;
    }
    let mut i: usize = 0;
    while i < current.listeners.len()
        invariant
            i <= current.listeners@.len(),
            forall|k: int|
                0 <= k < i ==> #[trigger] listener_kept(
                    current.listeners@[k],
                    candidate.listeners@,
                ),
        decreases current.listeners@.len() - i,
    {
        if !listener_is_kept(&current.listeners[i], &candidate.listeners) {
            return false;
        }
        i += 1;
    }
    true
}

} // verus!
