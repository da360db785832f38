//! The adapter that probes TLS servers for the certificate they present.

use vstd::prelude::*;
use vstd::string::*;
use crate::certificate::{certificate_from_der, fingerprints_sized, record_of_der};
use crate::config::{get_property, property, PropertyValue};
use crate::error::DoomsdayError;
use crate::storage::Accessor;
use crate::text::{concat3, decimal, decimal_string, str_eq};
use crate::types::{strings_view, text_view, CertificateData};

verus! {

/// One server to probe.
#[derive(Debug)]
pub struct TlsTarget {
    pub host: String,
    pub port: u16,
    /// The name to ask for in the handshake, where it is not the host.
    pub server_name: Option<String>,
}

/// The settings of a TLS-probe adapter.
#[derive(Debug)]
pub struct TlsClientAccessor {
    pub name: String,
    pub targets: Vec<TlsTarget>,
}

/// The path of a target: its host, a colon, and its port in decimal.
pub open spec fn target_path(host: Seq<char>, port: u16) -> Seq<char> {
    host + ":"@ + decimal(port as nat)
}

/// The paths of a sequence of targets.
pub open spec fn target_paths(targets: Seq<TlsTarget>) -> Seq<Seq<char>> {
    targets.map_values(|t: TlsTarget| target_path(t.host@, t.port))
}

/// The position of the first target among the first `n` whose path is `path`.
pub open spec fn probe_index(targets: Seq<TlsTarget>, path: Seq<char>, n: int) -> Option<int>
    decreases n,
{
    if n <= 0 {
        None
    } else {
        match probe_index(targets, path, n - 1) {
            Some(i) => Some(i),
            None => if target_path(targets[n - 1].host@, targets[n - 1].port) == path {
                Some(n - 1)
            } else {
                None
            },
        }
    }
}

/// Once a target is found among the first `n`, it is the one found among any
/// more.
pub proof fn lemma_probe_index_stays(targets: Seq<TlsTarget>, path: Seq<char>, n: int, more: int)
    requires
        0 <= n <= more,
        probe_index(targets, path, n) is Some,
    ensures
        probe_index(targets, path, more) == probe_index(targets, path, n),
    decreases more - n,
{
    if n < more {
        lemma_probe_index_stays(targets, path, n, more - 1);
    }
}

/// The port that a target's settings give: the number under `port` cut to
/// sixteen bits, or 443 where there is no number.
pub open spec fn configured_port(target: PropertyValue) -> u16 {
    match target.spec_get("port"@) {
        Some(PropertyValue::Integer(n)) => (n % 65536) as u16,
        _ => 443,
    }
}

/// What is wrong with the settings of one target, if anything: it is no
/// table, or it has no text under `host`.
pub open spec fn target_fault(target: PropertyValue) -> Option<Seq<char>> {
    if !(target is Mapping) {
        Some("Each target must be a mapping"@)
    } else if target.spec_get_text("host"@) is None {
        Some("Target host is required"@)
    } else {
        None
    }
}

/// Whether `target` is what the settings `config` describe.
pub open spec fn target_matches(target: TlsTarget, config: PropertyValue) -> bool {
    &&& config.spec_get_text("host"@) == Some(target.host@)
    &&& target.port == configured_port(config)
    &&& text_view(target.server_name) == config.spec_get_text("server_name"@)
}

/// The fault of the first faulty target among the first `n`.
pub open spec fn first_target_fault(targets: Seq<PropertyValue>, n: int) -> Option<Seq<char>>
    decreases n,
{
    if n <= 0 {
        None
    } else {
        match first_target_fault(targets, n - 1) {
            Some(m) => Some(m),
            None => target_fault(targets[n - 1]),
        }
    }
}

/// Once a faulty target is found among the first `n`, its fault is the one
/// found among any more.
pub proof fn lemma_target_fault_stays(targets: Seq<PropertyValue>, n: int, more: int)
    requires
        0 <= n <= more,
        first_target_fault(targets, n) is Some,
    ensures
        first_target_fault(targets, more) == first_target_fault(targets, n),
    decreases more - n,
{
    if n < more {
        lemma_target_fault_stays(targets, n, more - 1);
    }
}

/// The list of targets in the settings of an adapter, where there is one.
pub open spec fn configured_targets(properties: Seq<(String, PropertyValue)>) -> Option<
    Seq<PropertyValue>,
> {
    match property(properties, "targets"@) {
        Some(PropertyValue::Sequence(items)) => Some(items@),
        _ => None,
    }
}

impl TlsTarget {
    /// The path of this target: `host:port`.
    pub fn path(&self) -> (r: String)
        ensures
            r@ == target_path(self.host@, self.port),
    {
        let port = decimal_string(self.port as u64);
        concat3(self.host.as_str(), ":", port.as_str())
    }

    /// The name to ask for in the handshake: the server name where one is
    /// set, the host otherwise.
    pub fn handshake_name(&self) -> (r: &str)
        ensures
            r@ == (match self.server_name {
                Some(n) => n@,
                None => self.host@,
            }),
    {
        match &self.server_name {
            Some(n) => n.as_str(),
            None => self.host.as_str(),
        }
    }

    /// The target that the settings `config` describe.
    pub fn from_config(config: &PropertyValue) -> (r: Result<TlsTarget, DoomsdayError>)
        ensures
            match r {
                Ok(t) => target_fault(*config) is None && target_matches(t, *config),
                Err(e) => e matches DoomsdayError::Config(m) && target_fault(*config) == Some(m@),
            },
    {
        match config {
            PropertyValue::Mapping(_) => {},
            _ => {
                return Err(DoomsdayError::config("Each target must be a mapping"));
            },
        }
        let host = match config.get_text("host") {
            Some(h) => h,
            None => {
                return Err(DoomsdayError::config("Target host is required"));
            },
        };
        let port: u16 = match config.get("port") {
            Some(PropertyValue::Integer(n)) => (*n % 65536) as u16,
            _ => 443,
        };
        let server_name = match config.get_text("server_name") {
            Some(s) => Some(String::from_str(s)),
            None => None,
        };
        Ok(TlsTarget { host: String::from_str(host), port, server_name })
    }
}

impl TlsClientAccessor {
    pub fn new(name: String, targets: Vec<TlsTarget>) -> (r: Self)
        ensures
            r == (TlsClientAccessor { name, targets }),
    {
        TlsClientAccessor { name, targets }
    }

    /// Whether `a` is the adapter named `name` that the settings `properties`
    /// describe.
    pub open spec fn configured(a: Self, name: String, properties: Seq<(String, PropertyValue)>) -> bool {
        configured_targets(properties) matches Some(items) && first_target_fault(
                    items,
                    items.len() as int,
                ) is None && a.name == name && a.targets@.len() == items.len() && forall|i: int|
                    0 <= i < items.len() ==> target_matches(#[trigger] a.targets@[i], items[i])
    }

    /// Whether `e` is the error that says what the settings `properties` lack.
    pub open spec fn refused(e: DoomsdayError, properties: Seq<(String, PropertyValue)>) -> bool {
        e matches DoomsdayError::Config(m) && match configured_targets(
                    properties,
                ) {
                    None => m@ == "TLS client targets are required"@,
                    Some(items) => first_target_fault(items, items.len() as int) == Some(m@),
                }
    }

    /// An adapter named `name` with the targets in `properties`: a list under
    /// `targets`, each a table with `host`, and optionally `port` (443 where
    /// it is not set) and `server_name`.
    pub fn from_config(name: String, properties: &Vec<(String, PropertyValue)>) -> (r: Result<
        Self,
        DoomsdayError,
    >)
        ensures
            match r {
                Ok(a) => TlsClientAccessor::configured(a, name, properties@),
                Err(e) => TlsClientAccessor::refused(e, properties@),
            },
    {
        let items = match get_property(properties, "targets") {
            Some(PropertyValue::Sequence(items)) => items,
            _ => {
                return Err(DoomsdayError::config("TLS client targets are required"));
            },
        };
        let mut targets: Vec<TlsTarget> = Vec::new();
        let mut i: usize = 0;
        while i < items.len()
            invariant
                i <= items.len(),
                configured_targets(properties@) == Some(items@),
                first_target_fault(items@, i as int) is None,
                targets.len() == i,
                forall|j: int| 0 <= j < i ==> target_matches(#[trigger] targets@[j], items@[j]),
            decreases items.len() - i,
        {
            proof {
                assert(first_target_fault(items@, i + 1) == target_fault(items@[i as int]));
                if target_fault(items@[i as int]) is Some {
                    lemma_target_fault_stays(items@, i + 1, items@.len() as int);
                }
            }
            match TlsTarget::from_config(&items[i]) {
                Ok(t) => {
                    targets.push(t);
                },
                Err(e) => {
                    return Err(e);
                },
            }
            i += 1;
        }
        Ok(TlsClientAccessor::new(name, targets))
    }

    /// The paths of all targets, in order. Never fails.
    pub fn list(&self) -> (r: Result<Vec<String>, DoomsdayError>)
        ensures
            r matches Ok(paths) && strings_view(paths@) == target_paths(self.targets@),
    {
        let mut paths: Vec<String> = Vec::new();
        let mut i: usize = 0;
        while i < self.targets.len()
            invariant
                i <= self.targets.len(),
                paths.len() == i,
                forall|j: int|
                    0 <= j < i ==> (#[trigger] paths@[j])@ == target_path(
                        self.targets@[j].host@,
                        self.targets@[j].port,
                    ),
            decreases self.targets.len() - i,
        {
            paths.push(self.targets[i].path());
            i += 1;
        }
        proof {
            assert(strings_view(paths@) =~= target_paths(self.targets@));
        }
        Ok(paths)
    }

    /// The first target whose path is `path`.
    pub fn find_target(&self, path: &str) -> (r: Option<&TlsTarget>)
        ensures
            match r {
                Some(t) => probe_index(self.targets@, path@, self.targets@.len() as int)
                    matches Some(i) && self.targets@[i] == *t,
                None => probe_index(self.targets@, path@, self.targets@.len() as int) is None,
            },
    {
        let mut i: usize = 0;
        while i < self.targets.len()
            invariant
                i <= self.targets.len(),
                probe_index(self.targets@, path@, i as int) is None,
            decreases self.targets.len() - i,
        {
            let candidate = self.targets[i].path();
            if str_eq(candidate.as_str(), path) {
                proof {
                    assert(probe_index(self.targets@, path@, i + 1) == Some(i as int));
                    lemma_probe_index_stays(
                        self.targets@,
                        path@,
                        i + 1,
                        self.targets@.len() as int,
                    );
                }
                return Some(&self.targets[i]);
            }
            i += 1;
        }
        None
    }

    /// What a completed handshake means: no certificate where the server
    /// presented none; the record of the first one otherwise, with the PEM text
    /// made for it, or an X.509 error where it cannot be parsed.
    pub fn get_from_peer(&self, peer_certificates: &Vec<Vec<u8>>) -> (r: Result<
        Option<CertificateData>,
        DoomsdayError,
    >)
        ensures
            match r {
                Ok(None) => peer_certificates@.len() == 0,
                Ok(Some(record)) => peer_certificates@.len() > 0 && record_of_der(
                    peer_certificates@[0]@,
                ) == Some(record@) && fingerprints_sized(record@) && peer_certificates@[0]@.len()
                    <= 0x2000_0000,
                Err(e) => e is X509 && peer_certificates@.len() > 0 && (
                peer_certificates@[0]@.len() > 0x2000_0000 || record_of_der(
                    peer_certificates@[0]@,
                ) is None),
            },
    {
        if peer_certificates.len() == 0 {
            return Ok(None);
        }
        match certificate_from_der(peer_certificates[0].as_slice()) {
            Ok(record) => Ok(Some(record)),
            Err(e) => Err(e),
        }
    }
}

impl Accessor for TlsClientAccessor {
    open spec fn spec_name(&self) -> Seq<char> {
        self.name@
    }

    fn name(&self) -> (r: &str) {
        self.name.as_str()
    }
}

} // verus!
