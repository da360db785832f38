//! The adapter to a Vault key-value store, version 2.

use vstd::prelude::*;
use vstd::string::*;
use crate::config::{get_property, get_text, property, require_text, text_property, PropertyValue};
use crate::error::DoomsdayError;
use crate::storage::{
    answer_means, base_url_of, is_success, normalized_url, read_answer, status_error,
    status_fault, status_is_success, Accessor, NOT_FOUND,
};
use crate::text::{concat3, ends_with, str_eq, trim_end, trim_start, trimmed_end, trimmed_start};
use crate::types::{strings_view, CertificateData};

verus! {

/// The settings of a Vault adapter.
#[derive(Debug)]
pub struct VaultAccessor {
    pub name: String,
    pub base_url: String,
    pub token: String,
    pub mount_path: String,
    pub secret_path: String,
}

/// The text of an optional setting, or `default` where it is not set.
pub open spec fn text_or(value: Option<Seq<char>>, default: Seq<char>) -> Seq<char> {
    match value {
        Some(v) => v,
        None => default,
    }
}

/// The address under `base` of the `kind` document (`metadata` or `data`) at
/// `path` in the mount `mount`.
pub open spec fn vault_url(base: Seq<char>, mount: Seq<char>, kind: Seq<char>, path: Seq<char>) -> Seq<
    char,
> {
    trimmed_end(base, '/') + "/v1/"@ + mount + "/"@ + kind + "/"@ + trimmed_start(path, '/')
}

/// The full path of the entry `key` listed under `current`.
pub open spec fn child_path(current: Seq<char>, key: Seq<char>) -> Seq<char> {
    if current.len() == 0 || current == "/"@ {
        key
    } else {
        trimmed_end(current, '/') + "/"@ + key
    }
}

/// Whether a listed key names a directory: it ends in a slash.
pub open spec fn is_directory(key: Seq<char>) -> bool {
    key.len() > 0 && key.last() == '/'
}

/// The directories among the first `n` keys listed under `current`, each as
/// the path to walk next.
pub open spec fn listed_directories(current: Seq<char>, keys: Seq<Seq<char>>, n: int) -> Seq<
    Seq<char>,
>
    decreases n,
{
    if n <= 0 {
        Seq::empty()
    } else if is_directory(keys[n - 1]) {
        listed_directories(current, keys, n - 1).push(
            trimmed_end(child_path(current, keys[n - 1]), '/'),
        )
    } else {
        listed_directories(current, keys, n - 1)
    }
}

/// The secrets among the first `n` keys listed under `current`, each as its
/// full path.
pub open spec fn listed_secrets(current: Seq<char>, keys: Seq<Seq<char>>, n: int) -> Seq<Seq<char>>
    decreases n,
{
    if n <= 0 {
        Seq::empty()
    } else if is_directory(keys[n - 1]) {
        listed_secrets(current, keys, n - 1)
    } else {
        listed_secrets(current, keys, n - 1).push(child_path(current, keys[n - 1]))
    }
}

/// The field of a secret that holds its certificate: the first of
/// `certificate`, `cert` and `crt` that the secret has, where that field is
/// text.
pub open spec fn certificate_field(data: Seq<(String, PropertyValue)>) -> Option<Seq<char>> {
    if property(data, "certificate"@) is Some {
        text_property(data, "certificate"@)
    } else if property(data, "cert"@) is Some {
        text_property(data, "cert"@)
    } else {
        text_property(data, "crt"@)
    }
}

/// The certificate text in the body of the answer to a request for a
/// secret: none where the answer has no body.
pub open spec fn secret_certificate(data: Option<&Vec<(String, PropertyValue)>>) -> Option<Seq<char>> {
    match data {
        Some(fields) => certificate_field(fields@),
        None => None,
    }
}

/// A walk through the tree of a mount: the directories still to list, the
/// last one first, and the secrets found so far.
#[derive(Debug)]
pub struct VaultWalk {
    pub to_process: Vec<String>,
    pub all_paths: Vec<String>,
}

impl VaultWalk {
    /// The directory to list next, taken off the walk; none when the walk is
    /// over.
    pub fn next_path(&mut self) -> (r: Option<String>)
        ensures
            final(self).all_paths == old(self).all_paths,
            match r {
                Some(path) => old(self).to_process@.len() > 0
                    && path == old(self).to_process@.last()
                    && final(self).to_process@ == old(self).to_process@.drop_last(),
                None => old(self).to_process@.len() == 0
                    && final(self).to_process@ == old(self).to_process@,
            },
    {
        self.to_process.pop()
    }

    /// Takes in the keys that the backend listed under `current`: each
    /// directory is to be listed later, each other key is a secret found.
    pub fn record_keys(&mut self, current: &str, keys: &Vec<String>)
        ensures
            strings_view(final(self).to_process@) == strings_view(old(self).to_process@)
                + listed_directories(current@, strings_view(keys@), keys@.len() as int),
            strings_view(final(self).all_paths@) == strings_view(old(self).all_paths@)
                + listed_secrets(current@, strings_view(keys@), keys@.len() as int),
    {
        let ghost names = strings_view(keys@);
        let ghost stack = strings_view(self.to_process@);
        let ghost found = strings_view(self.all_paths@);
        let at_root = current.is_empty() || str_eq(current, "/");
        let stem = trim_end(current, '/');
        let mut i: usize = 0;
        proof {
            assert(stack + listed_directories(current@, names, 0) =~= stack);
            assert(found + listed_secrets(current@, names, 0) =~= found);
        }
        while i < keys.len()
            invariant
                i <= keys.len(),
                names == strings_view(keys@),
                at_root == (current@.len() == 0 || current@ == "/"@),
                stem@ == trimmed_end(current@, '/'),
                strings_view(self.to_process@) == stack + listed_directories(
                    current@,
                    names,
                    i as int,
                ),
                strings_view(self.all_paths@) == found + listed_secrets(current@, names, i as int),
            decreases keys.len() - i,
        {
            let key = keys[i].as_str();
            let full_path = if at_root {
                String::from_str(key)
            } else {
                concat3(stem.as_str(), "/", key)
            };
            proof {
                assert(names[i as int] == key@);
                assert(full_path@ == child_path(current@, key@));
            }
            if ends_with(key, '/') {
                let next = trim_end(full_path.as_str(), '/');
                proof {
                    assert(strings_view(self.to_process@.push(next)) =~= strings_view(
                        self.to_process@,
                    ).push(next@));
                }
                self.to_process.push(next);
            } else {
                proof {
                    assert(strings_view(self.all_paths@.push(full_path)) =~= strings_view(
                        self.all_paths@,
                    ).push(full_path@));
                }
                self.all_paths.push(full_path);
            }
            i += 1;
        }
    }

    /// Takes in the answer to a request for what stands under `current`,
    /// where the answer has the status `status` and `keys` are the keys it
    /// lists. On success the keys are recorded. Not found changes nothing: what
    /// is not there holds nothing. Any other status is a backend error, and
    /// nothing changes.
    pub fn record_answer(&mut self, current: &str, status: u16, keys: &Vec<String>) -> (r: Result<
        (),
        DoomsdayError,
    >)
        ensures
            match r {
                Ok(_) => if is_success(status) {
                    strings_view(final(self).to_process@) == strings_view(old(self).to_process@)
                        + listed_directories(current@, strings_view(keys@), keys@.len() as int)
                        && strings_view(final(self).all_paths@) == strings_view(
                        old(self).all_paths@,
                    ) + listed_secrets(current@, strings_view(keys@), keys@.len() as int)
                } else {
                    status == 404 && *final(self) == *old(self)
                },
                Err(e) => e matches DoomsdayError::Backend(m) && m@ == status_fault(
                    "Vault"@,
                    status,
                ) && !is_success(status) && status != 404 && *final(self) == *old(self),
            },
    {
        if status_is_success(status) {
            self.record_keys(current, keys);
            Ok(())
        } else if status == NOT_FOUND {
            Ok(())
        } else {
            Err(status_error("Vault", status))
        }
    }

    /// The secrets found.
    pub fn into_paths(self) -> (r: Vec<String>)
        ensures
            r == self.all_paths,
    {
        self.all_paths
    }
}

impl VaultAccessor {
    /// An adapter with these settings. Never fails.
    pub fn new(
        name: String,
        base_url: String,
        token: String,
        mount_path: String,
        secret_path: String,
    ) -> (r: Result<Self, DoomsdayError>)
        ensures
            r matches Ok(a)
                && a == (VaultAccessor { name, base_url, token, mount_path, secret_path }),
    {
        Ok(VaultAccessor { name, base_url, token, mount_path, secret_path })
    }

    /// Whether `a` is the adapter named `name` that the settings `properties`
    /// describe.
    pub open spec fn configured(a: Self, name: String, properties: Seq<(String, PropertyValue)>) -> bool {
        text_property(properties, "url"@) matches Some(url) && normalized_url(url)
                    == Some(a.base_url@) && a.name == name && text_property(properties, "token"@)
                    == Some(a.token@) && a.mount_path@ == text_or(
                    text_property(properties, "mount_path"@),
                    "secret"@,
                ) && a.secret_path@ == text_or(text_property(properties, "secret_path"@), "/"@)
    }

    /// Whether `e` is the error that says what the settings `properties` lack.
    pub open spec fn refused(e: DoomsdayError, properties: Seq<(String, PropertyValue)>) -> bool {
        e matches DoomsdayError::Config(m) && match text_property(
                    properties,
                    "url"@,
                ) {
                    None => m@ == "Vault URL is required"@,
                    Some(url) => if text_property(properties, "token"@) is None {
                        m@ == "Vault token is required"@
                    } else {
                        normalized_url(url) is None && "Invalid Vault URL: "@.is_prefix_of(m@)
                    },
                }
    }

    /// An adapter named `name` with the settings in `properties`: `url` and
    /// `token`, which must be there, `mount_path` (`secret` where it is not
    /// set) and `secret_path` (`/` where it is not set). The URL is kept in its
    /// normal form.
    pub fn from_config(name: String, properties: &Vec<(String, PropertyValue)>) -> (r: Result<
        Self,
        DoomsdayError,
    >)
        ensures
            match r {
                Ok(a) => VaultAccessor::configured(a, name, properties@),
                Err(e) => VaultAccessor::refused(e, properties@),
            },
    {
        let url = match require_text(properties, "url", "Vault URL is required") {
            Ok(v) => v,
            Err(e) => {
                return Err(e);
            },
        };
        let token = match require_text(properties, "token", "Vault token is required") {
            Ok(v) => v,
            Err(e) => {
                return Err(e);
            },
        };
        let mount_path = match get_text(properties, "mount_path") {
            Some(v) => v,
            None => "secret",
        };
        let secret_path = match get_text(properties, "secret_path") {
            Some(v) => v,
            None => "/",
        };
        let base_url = match base_url_of(url, "Invalid Vault URL: ") {
            Ok(v) => v,
            Err(e) => {
                return Err(e);
            },
        };
        VaultAccessor::new(
            name,
            base_url,
            String::from_str(token),
            String::from_str(mount_path),
            String::from_str(secret_path),
        )
    }

    /// A walk that starts at the configured secret path.
    pub fn start_listing(&self) -> (walk: VaultWalk)
        ensures
            strings_view(walk.to_process@) == seq![self.secret_path@],
            walk.all_paths@.len() == 0,
    {
        let mut to_process: Vec<String> = Vec::new();
        to_process.push(self.secret_path.clone());
        assert(strings_view(to_process@) =~= seq![self.secret_path@]);
        VaultWalk { to_process, all_paths: Vec::new() }
    }

    fn document_url(&self, kind: &str, path: &str) -> (r: String)
        ensures
            r@ == vault_url(self.base_url@, self.mount_path@, kind@, path@),
    {
        let base = trim_end(self.base_url.as_str(), '/');
        let tail = trim_start(path, '/');
        let front = concat3(base.as_str(), "/v1/", self.mount_path.as_str());
        let middle = concat3(front.as_str(), "/", kind);
        concat3(middle.as_str(), "/", tail.as_str())
    }

    /// The address that lists what stands under `current_path`.
    pub fn metadata_url(&self, current_path: &str) -> (r: String)
        ensures
            r@ == vault_url(self.base_url@, self.mount_path@, "metadata"@, current_path@),
    {
        self.document_url("metadata", current_path)
    }

    /// The address of the secret at `path`.
    pub fn data_url(&self, path: &str) -> (r: String)
        ensures
            r@ == vault_url(self.base_url@, self.mount_path@, "data"@, path@),
    {
        self.document_url("data", path)
    }

    /// The certificate text in the fields of a secret.
    pub fn certificate_text<'a>(data: &'a Vec<(String, PropertyValue)>) -> (r: Option<&'a str>)
        ensures
            match r {
                Some(s) => certificate_field(data@) == Some(s@),
                None => certificate_field(data@) is None,
            },
    {
        match get_property(data, "certificate") {
            Some(v) => v.as_str(),
            None => match get_property(data, "cert") {
                Some(v) => v.as_str(),
                None => get_text(data, "crt"),
            },
        }
    }

    /// What the answer to a request for a secret means, where the answer has
    /// the status `status` and `data` are the fields in its body, if it has one.
    /// Not found is no certificate. Any other status but success is a backend
    /// error. A secret without certificate field is no certificate. Otherwise
    /// it is the record of the certificate in that field, or an X.509 error
    /// where the field holds none.
    pub fn get_from_response(&self, status: u16, data: Option<&Vec<(String, PropertyValue)>>) -> (r:
        Result<Option<CertificateData>, DoomsdayError>)
        ensures
            answer_means(r, "Vault"@, status, secret_certificate(data)),
    {
        let pem = match data {
            Some(fields) => VaultAccessor::certificate_text(fields),
            None => None,
        };
        read_answer("Vault", status, pem)
    }
}

impl Accessor for VaultAccessor {
    open spec fn spec_name(&self) -> Seq<char> {
        self.name@
    }

    fn name(&self) -> (r: &str) {
        self.name.as_str()
    }
}

} // verus!
