//! The configuration of the server and of the command-line client, and the
//! rules that a server configuration must meet.

use vstd::prelude::*;
use vstd::string::*;
use crate::error::DoomsdayError;
use crate::text::{concat, str_eq};

verus! {

/// A value of a property table: text, a whole number, a truth value, a list,
/// a table, or something else that no component reads.
#[derive(Debug)]
pub enum PropertyValue {
    Other,
    Bool(bool),
    Integer(u64),
    String(String),
    Sequence(Vec<PropertyValue>),
    Mapping(Vec<(PropertyValue, PropertyValue)>),
}

impl PropertyValue {
    /// The text of a text value.
    pub open spec fn spec_as_str(&self) -> Option<Seq<char>> {
        match self {
            PropertyValue::String(s) => Some(s@),
            _ => None,
        }
    }

    /// The text of a text value.
    pub fn as_str(&self) -> (r: Option<&str>)
        ensures
            match r {
                Some(s) => self.spec_as_str() == Some(s@),
                None => self.spec_as_str() is None,
            },
    {
        match self {
            PropertyValue::String(s) => Some(s.as_str()),
            _ => None,
        }
    }

    /// The number of a whole-number value.
    pub fn as_u64(&self) -> (r: Option<u64>)
        ensures
            r == (match self {
                PropertyValue::Integer(n) => Some(*n),
                _ => None,
            }),
    {
        match self {
            PropertyValue::Integer(n) => Some(*n),
            _ => None,
        }
    }

    /// The truth value of a truth value.
    pub fn as_bool(&self) -> (r: Option<bool>)
        ensures
            r == (match self {
                PropertyValue::Bool(b) => Some(*b),
                _ => None,
            }),
    {
        match self {
            PropertyValue::Bool(b) => Some(*b),
            _ => None,
        }
    }

    /// The items of a list.
    pub fn as_sequence(&self) -> (r: Option<&Vec<PropertyValue>>)
        ensures
            r == (match self {
                PropertyValue::Sequence(items) => Some(items),
                _ => None,
            }),
    {
        match self {
            PropertyValue::Sequence(items) => Some(items),
            _ => None,
        }
    }

    /// The pairs of a table, in the order they were written.
    pub fn as_mapping(&self) -> (r: Option<&Vec<(PropertyValue, PropertyValue)>>)
        ensures
            r == (match self {
                PropertyValue::Mapping(pairs) => Some(pairs),
                _ => None,
            }),
    {
        match self {
            PropertyValue::Mapping(pairs) => Some(pairs),
            _ => None,
        }
    }
}

/// The position of the first property named `key`, if there is one.
pub open spec fn property_index(props: Seq<(String, PropertyValue)>, key: Seq<char>) -> Option<int>
    decreases props.len(),
{
    if props.len() == 0 {
        None
    } else if props[0].0@ == key {
        Some(0)
    } else {
        match property_index(props.drop_first(), key) {
            Some(i) => Some(i + 1),
            None => None,
        }
    }
}

/// The value of the first property named `key`, if there is one.
pub open spec fn property(props: Seq<(String, PropertyValue)>, key: Seq<char>) -> Option<
    PropertyValue,
> {
    match property_index(props, key) {
        Some(i) => Some(props[i].1),
        None => None,
    }
}

/// What `property_index` finds is the first property of that name.
pub proof fn lemma_property_index(props: Seq<(String, PropertyValue)>, key: Seq<char>)
    ensures
        match property_index(props, key) {
            Some(i) => 0 <= i < props.len() && props[i].0@ == key && forall|j: int|
                0 <= j < i ==> (#[trigger] props[j]).0@ != key,
            None => forall|j: int| 0 <= j < props.len() ==> (#[trigger] props[j]).0@ != key,
        },
    decreases props.len(),
{
    if props.len() == 0 {
    } else if props[0].0@ == key {
    } else {
        let rest = props.drop_first();
        lemma_property_index(rest, key);
        match property_index(rest, key) {
            Some(i) => {
                assert(rest[i] == props[i + 1]);
                assert forall|j: int| 0 <= j < i + 1 implies (#[trigger] props[j]).0@ != key by {
                    if j > 0 {
                        assert(rest[j - 1] == props[j]);
                    }
                }
            },
            None => {
                assert forall|j: int| 0 <= j < props.len() implies (#[trigger] props[j]).0@
                    != key by {
                    if j > 0 {
                        assert(rest[j - 1] == props[j]);
                    }
                }
            },
        }
    }
}

/// The value of the first property named `key`.
pub fn get_property<'a>(props: &'a Vec<(String, PropertyValue)>, key: &str) -> (r: Option<
    &'a PropertyValue,
>)
    ensures
        match r {
            Some(v) => property(props@, key@) == Some(*v),
            None => property(props@, key@) is None,
        },
{
    let mut i: usize = 0;
    while i < props.len()
        invariant
            i <= props.len(),
            forall|j: int| 0 <= j < i ==> (#[trigger] props@[j]).0@ != key@,
        decreases props.len() - i,
    {
        if str_eq(props[i].0.as_str(), key) {
            proof {
                lemma_property_index(props@, key@);
            }
            return Some(&props[i].1);
        }
        i += 1;
    }
    proof {
        lemma_property_index(props@, key@);
    }
    None
}

/// The text of the first property named `key`, where that property is text.
pub open spec fn text_property(props: Seq<(String, PropertyValue)>, key: Seq<char>) -> Option<
    Seq<char>,
> {
    match property(props, key) {
        Some(v) => v.spec_as_str(),
        None => None,
    }
}

/// The text of the first property named `key`, where that property is text.
pub fn get_text<'a>(props: &'a Vec<(String, PropertyValue)>, key: &str) -> (r: Option<&'a str>)
    ensures
        match r {
            Some(s) => text_property(props@, key@) == Some(s@),
            None => text_property(props@, key@) is None,
        },
{
    match get_property(props, key) {
        Some(v) => v.as_str(),
        None => None,
    }
}

/// The text of the first property named `key`, or a configuration error with
/// the message `missing` where there is no such property or it is not text.
pub fn require_text<'a>(props: &'a Vec<(String, PropertyValue)>, key: &str, missing: &str) -> (r:
    Result<&'a str, DoomsdayError>)
    ensures
        match r {
            Ok(s) => text_property(props@, key@) == Some(s@),
            Err(e) => e matches DoomsdayError::Config(m) && m@ == missing@ && text_property(
                props@,
                key@,
            ) is None,
        },
{
    match get_text(props, key) {
        Some(s) => Ok(s),
        None => Err(DoomsdayError::config(missing)),
    }
}

/// The position of the first pair among the first `n` whose key is the text
/// `key`.
pub open spec fn entry_index(pairs: Seq<(PropertyValue, PropertyValue)>, key: Seq<char>, n: int) -> Option<
    int,
>
    decreases n,
{
    if n <= 0 {
        None
    } else {
        match entry_index(pairs, key, n - 1) {
            Some(i) => Some(i),
            None => if pairs[n - 1].0.spec_as_str() == Some(key) {
                Some(n - 1)
            } else {
                None
            },
        }
    }
}

/// Once a pair is found among the first `n`, it is the one found among any
/// more.
pub proof fn lemma_entry_index_stays(
    pairs: Seq<(PropertyValue, PropertyValue)>,
    key: Seq<char>,
    n: int,
    more: int,
)
    requires
        0 <= n <= more,
        entry_index(pairs, key, n) is Some,
    ensures
        entry_index(pairs, key, more) == entry_index(pairs, key, n),
    decreases more - n,
{
    if n < more {
        lemma_entry_index_stays(pairs, key, n, more - 1);
    }
}

impl PropertyValue {
    /// In a table, the value of the first pair whose key is the text `key`.
    /// Nothing in a value that is no table.
    pub open spec fn spec_get(&self, key: Seq<char>) -> Option<PropertyValue> {
        match self {
            PropertyValue::Mapping(pairs) => match entry_index(pairs@, key, pairs@.len() as int) {
                Some(i) => Some(pairs@[i].1),
                None => None,
            },
            _ => None,
        }
    }

    /// In a table, the value of the first pair whose key is the text `key`.
    pub fn get(&self, key: &str) -> (r: Option<&PropertyValue>)
        ensures
            match r {
                Some(v) => self.spec_get(key@) == Some(*v),
                None => self.spec_get(key@) is None,
            },
    {
        match self {
            PropertyValue::Mapping(pairs) => {
                let mut i: usize = 0;
                while i < pairs.len()
                    invariant
                        i <= pairs.len(),
                        *self == PropertyValue::Mapping(*pairs),
                        entry_index(pairs@, key@, i as int) is None,
                    decreases pairs.len() - i,
                {
                    let found = match pairs[i].0.as_str() {
                        Some(k) => str_eq(k, key),
                        None => false,
                    };
                    if found {
                        proof {
                            assert(entry_index(pairs@, key@, i + 1) == Some(i as int));
                            lemma_entry_index_stays(pairs@, key@, i + 1, pairs@.len() as int);
                        }
                        return Some(&pairs[i].1);
                    }
                    i += 1;
                }
                None
            },
            _ => None,
        }
    }

    /// The text under `key` in a table, where there is text under it.
    pub open spec fn spec_get_text(&self, key: Seq<char>) -> Option<Seq<char>> {
        match self.spec_get(key) {
            Some(v) => v.spec_as_str(),
            None => None,
        }
    }

    /// The text under `key` in a table, where there is text under it.
    pub fn get_text(&self, key: &str) -> (r: Option<&str>)
        ensures
            match r {
                Some(s) => self.spec_get_text(key@) == Some(s@),
                None => self.spec_get_text(key@) is None,
            },
    {
        match self.get(key) {
            Some(v) => v.as_str(),
            None => None,
        }
    }
}

/// One configured backend.
#[derive(Debug)]
pub struct BackendConfig {
    pub backend_type: String,
    pub name: String,
    /// Minutes between periodic refreshes, where the backend has them.
    pub refresh_interval: Option<u64>,
    pub properties: Vec<(String, PropertyValue)>,
}

/// The certificate and key files of a TLS listener.
#[derive(Debug)]
pub struct TlsConfig {
    pub cert: String,
    pub key: String,
}

/// How clients authenticate.
#[derive(Debug)]
pub struct AuthConfig {
    pub auth_type: String,
    pub properties: Vec<(String, PropertyValue)>,
}

/// The HTTP listener.
#[derive(Debug)]
pub struct ServerConfig {
    pub port: u16,
    pub tls: Option<TlsConfig>,
    pub auth: AuthConfig,
}

/// Where notifications go.
#[derive(Debug)]
pub struct NotificationBackend {
    pub backend_type: String,
    pub properties: Vec<(String, PropertyValue)>,
}

/// When notifications go out.
#[derive(Debug)]
pub struct ScheduleConfig {
    pub schedule_type: String,
    pub properties: Vec<(String, PropertyValue)>,
}

/// How the operators are notified.
#[derive(Debug)]
pub struct NotificationConfig {
    pub doomsday_url: String,
    pub backend: NotificationBackend,
    pub schedule: ScheduleConfig,
}

/// The configuration of the server.
#[derive(Debug)]
pub struct Config {
    pub backends: Vec<BackendConfig>,
    pub server: ServerConfig,
    pub notifications: Option<NotificationConfig>,
}

/// Whether `t` names a kind of backend that exists.
pub open spec fn known_backend_type(t: Seq<char>) -> bool {
    t == "vault"@ || t == "credhub"@ || t == "opsmgr"@ || t == "tlsclient"@
}

/// Whether `t` names a way of authenticating that exists.
pub open spec fn known_auth_type(t: Seq<char>) -> bool {
    t == "none"@ || t == "userpass"@
}

/// What is wrong with one backend, if anything: an empty name or, failing
/// that, an unknown type.
pub open spec fn backend_fault(b: BackendConfig) -> Option<Seq<char>> {
    if b.name@.len() == 0 {
        Some("Backend name cannot be empty"@)
    } else if !known_backend_type(b.backend_type@) {
        Some("Unknown backend type: "@ + b.backend_type@)
    } else {
        None
    }
}

/// The fault of the first faulty backend among the first `n`.
pub open spec fn first_backend_fault(backends: Seq<BackendConfig>, n: int) -> Option<Seq<char>>
    decreases n,
{
    if n <= 0 {
        None
    } else {
        match first_backend_fault(backends, n - 1) {
            Some(m) => Some(m),
            None => backend_fault(backends[n - 1]),
        }
    }
}

/// Whether `t` is one of the four backend types.
pub fn is_known_backend_type(t: &str) -> (r: bool)
    ensures
        r == known_backend_type(t@),
{
    str_eq(t, "vault") || str_eq(t, "credhub") || str_eq(t, "opsmgr") || str_eq(t, "tlsclient")
}

/// Whether `t` is one of the two authentication types.
pub fn is_known_auth_type(t: &str) -> (r: bool)
    ensures
        r == known_auth_type(t@),
{
    str_eq(t, "none") || str_eq(t, "userpass")
}

/// Once a faulty backend is found among the first `n`, its fault is the one
/// found among any more.
pub proof fn lemma_backend_fault_stays(backends: Seq<BackendConfig>, n: int, more: int)
    requires
        0 <= n <= more,
        first_backend_fault(backends, n) is Some,
    ensures
        first_backend_fault(backends, more) == first_backend_fault(backends, n),
    decreases more - n,
{
    if n < more {
        lemma_backend_fault_stays(backends, n, more - 1);
    }
}

impl Config {
    /// The configuration of a server that nobody has configured: no backend, port
    /// 8111, no TLS, no authentication, no notifications.
    pub fn default() -> (r: Self)
        ensures
            r.backends@.len() == 0,
            r.server.port == 8111,
            r.server.tls is None,
            r.server.auth.auth_type@ == "none"@,
            r.server.auth.properties@.len() == 0,
            r.notifications is None,
    {
        Config {
            backends: Vec::new(),
            server: ServerConfig {
                port: 8111,
                tls: None,
                auth: AuthConfig { auth_type: String::from_str("none"), properties: Vec::new() },
            },
            notifications: None,
        }
    }

    /// What is wrong with this configuration, if anything. The first of these
    /// that applies: no backend at all; the first backend with an empty name or
    /// an unknown type; an unknown authentication type.
    pub open spec fn fault(&self) -> Option<Seq<char>> {
        if self.backends@.len() == 0 {
            Some("At least one backend must be configured"@)
        } else {
            match first_backend_fault(self.backends@, self.backends@.len() as int) {
                Some(m) => Some(m),
                None => if !known_auth_type(self.server.auth.auth_type@) {
                    Some("Unknown auth type: "@ + self.server.auth.auth_type@)
                } else {
                    None
                },
            }
        }
    }

    /// Accepts the configuration, or says what is wrong with it.
    pub fn validate(&self) -> (r: Result<(), DoomsdayError>)
        ensures
            match r {
                Ok(_) => self.fault() is None,
                Err(e) => e matches DoomsdayError::Config(m) && self.fault() == Some(m@),
            },
    {
        if self.backends.len() == 0 {
            return Err(DoomsdayError::config("At least one backend must be configured"));
        }
        let mut i: usize = 0;
        while i < self.backends.len()
            invariant
                0 < self.backends.len(),
                i <= self.backends.len(),
                first_backend_fault(self.backends@, i as int) is None,
            decreases self.backends.len() - i,
        {
            let backend = &self.backends[i];
            proof {
                assert(first_backend_fault(self.backends@, i + 1) == backend_fault(
                    self.backends@[i as int],
                ));
                if backend_fault(self.backends@[i as int]) is Some {
                    lemma_backend_fault_stays(
                        self.backends@,
                        i + 1,
                        self.backends@.len() as int,
                    );
                }
            }
            if backend.name.as_str().is_empty() {
                return Err(DoomsdayError::config("Backend name cannot be empty"));
            }
            if !is_known_backend_type(backend.backend_type.as_str()) {
                let msg = concat("Unknown backend type: ", backend.backend_type.as_str());
                return Err(DoomsdayError::config(msg.as_str()));
            }
            i += 1;
        }
        if !is_known_auth_type(self.server.auth.auth_type.as_str()) {
            let msg = concat("Unknown auth type: ", self.server.auth.auth_type.as_str());
            return Err(DoomsdayError::config(msg.as_str()));
        }
        Ok(())
    }

    /// The names of the configured backends, in order.
    pub open spec fn backend_names(&self) -> Seq<Seq<char>> {
        self.backends@.map_values(|b: BackendConfig| b.name@)
    }
}

/// A server that the command-line client knows.
#[derive(Debug)]
pub struct ClientTarget {
    pub name: String,
    pub address: String,
    pub skip_verify: bool,
    pub token: Option<String>,
    pub token_expires: Option<i64>,
}

/// What the command-line client remembers: its targets by name, and which one
/// is current.
#[derive(Debug)]
pub struct ClientConfig {
    pub targets: Vec<(String, ClientTarget)>,
    pub current_target: Option<String>,
}

/// The position of the first target stored under `name`, if there is one.
pub open spec fn target_index(targets: Seq<(String, ClientTarget)>, name: Seq<char>, n: int) -> Option<
    int,
>
    decreases n,
{
    if n <= 0 {
        None
    } else {
        match target_index(targets, name, n - 1) {
            Some(i) => Some(i),
            None => if targets[n - 1].0@ == name {
                Some(n - 1)
            } else {
                None
            },
        }
    }
}

impl ClientConfig {
    /// The target that is current: the first one stored under the current
    /// name. None where no target is current or the name is unknown.
    pub open spec fn spec_current_target(&self) -> Option<ClientTarget> {
        match self.current_target {
            None => None,
            Some(name) => match target_index(self.targets@, name@, self.targets@.len() as int) {
                Some(i) => Some(self.targets@[i].1),
                None => None,
            },
        }
    }

    pub fn current_target(&self) -> (r: Option<&ClientTarget>)
        ensures
            match r {
                Some(t) => self.spec_current_target() == Some(*t),
                None => self.spec_current_target() is None,
            },
    {
        match &self.current_target {
            None => None,
            Some(name) => {
                let mut i: usize = 0;
                while i < self.targets.len()
                    invariant
                        i <= self.targets.len(),
                        self.current_target == Some(*name),
                        target_index(self.targets@, name@, i as int) is None,
                    decreases self.targets.len() - i,
                {
                    if str_eq(self.targets[i].0.as_str(), name.as_str()) {
                        proof {
                            assert(target_index(self.targets@, name@, i + 1) == Some(i as int));
                            lemma_target_index_stays(
                                self.targets@,
                                name@,
                                i as int + 1,
                                self.targets@.len() as int,
                            );
                        }
                        return Some(&self.targets[i].1);
                    }
                    i += 1;
                }
                None
            },
        }
    }
}

/// Once a target is found among the first `n`, it is the one found among any
/// more.
pub proof fn lemma_target_index_stays(
    targets: Seq<(String, ClientTarget)>,
    name: Seq<char>,
    n: int,
    more: int,
)
    requires
        0 <= n <= more,
        target_index(targets, name, n) is Some,
    ensures
        target_index(targets, name, more) == target_index(targets, name, n),
    decreases more - n,
{
    if n < more {
        lemma_target_index_stays(targets, name, n, more - 1);
    }
}

} // verus!
