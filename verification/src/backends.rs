//! From the configuration of a backend to its adapter.

use vstd::prelude::*;
use vstd::string::*;
use crate::config::BackendConfig;
use crate::error::DoomsdayError;
use crate::storage::credhub::CredHubAccessor;
use crate::storage::opsmgr::OpsMgrAccessor;
use crate::storage::tlsclient::TlsClientAccessor;
use crate::storage::vault::VaultAccessor;
use crate::storage::Accessor;
use crate::text::{concat, str_eq};

verus! {

/// An adapter of one of the four kinds.
#[derive(Debug)]
pub enum AccessorKind {
    Vault(VaultAccessor),
    CredHub(CredHubAccessor),
    OpsMgr(OpsMgrAccessor),
    TlsClient(TlsClientAccessor),
}

impl Accessor for AccessorKind {
    open spec fn spec_name(&self) -> Seq<char> {
        match self {
            AccessorKind::Vault(a) => a.name@,
            AccessorKind::CredHub(a) => a.name@,
            AccessorKind::OpsMgr(a) => a.name@,
            AccessorKind::TlsClient(a) => a.name@,
        }
    }

    fn name(&self) -> (r: &str) {
        match self {
            AccessorKind::Vault(a) => a.name.as_str(),
            AccessorKind::CredHub(a) => a.name.as_str(),
            AccessorKind::OpsMgr(a) => a.name.as_str(),
            AccessorKind::TlsClient(a) => a.name.as_str(),
        }
    }
}

/// Whether `accessor` is the adapter that the configuration `config`
/// describes: of the kind that its type names, under its name, with the
/// settings in its properties.
pub open spec fn accessor_for(accessor: AccessorKind, config: BackendConfig) -> bool {
    match accessor {
        AccessorKind::Vault(a) => config.backend_type@ == "vault"@ && VaultAccessor::configured(
            a,
            config.name,
            config.properties@,
        ),
        AccessorKind::CredHub(a) => config.backend_type@ == "credhub"@
            && CredHubAccessor::configured(a, config.name, config.properties@),
        AccessorKind::OpsMgr(a) => config.backend_type@ == "opsmgr"@ && OpsMgrAccessor::configured(
            a,
            config.name,
            config.properties@,
        ),
        AccessorKind::TlsClient(a) => config.backend_type@ == "tlsclient"@
            && TlsClientAccessor::configured(a, config.name, config.properties@),
    }
}

/// Whether `e` is the error that says why the configuration `config`
/// describes no adapter: what its properties lack for the kind that its type
/// names, or that its type names no kind.
pub open spec fn no_accessor_for(e: DoomsdayError, config: BackendConfig) -> bool {
    if config.backend_type@ == "vault"@ {
        VaultAccessor::refused(e, config.properties@)
    } else if config.backend_type@ == "credhub"@ {
        CredHubAccessor::refused(e, config.properties@)
    } else if config.backend_type@ == "opsmgr"@ {
        OpsMgrAccessor::refused(e, config.properties@)
    } else if config.backend_type@ == "tlsclient"@ {
        TlsClientAccessor::refused(e, config.properties@)
    } else {
        e matches DoomsdayError::Config(m) && m@ == "Unknown backend type: "@ + config.backend_type@
    }
}

/// The adapter that the configuration `config` describes.
pub fn create_accessor(config: &BackendConfig) -> (r: Result<AccessorKind, DoomsdayError>)
    ensures
        match r {
            Ok(accessor) => accessor_for(accessor, *config) && accessor.spec_name() == config.name@,
            Err(e) => no_accessor_for(e, *config) && e is Config,
        },
{
    let kind = config.backend_type.as_str();
    proof {
        reveal_strlit("vault");
        reveal_strlit("credhub");
        reveal_strlit("opsmgr");
        reveal_strlit("tlsclient");
    }
    if str_eq(kind, "vault") {
        match VaultAccessor::from_config(config.name.clone(), &config.properties) {
            Ok(a) => Ok(AccessorKind::Vault(a)),
            Err(e) => Err(e),
        }
    } else if str_eq(kind, "credhub") {
        match CredHubAccessor::from_config(config.name.clone(), &config.properties) {
            Ok(a) => Ok(AccessorKind::CredHub(a)),
            Err(e) => Err(e),
        }
    } else if str_eq(kind, "opsmgr") {
        match OpsMgrAccessor::from_config(config.name.clone(), &config.properties) {
            Ok(a) => Ok(AccessorKind::OpsMgr(a)),
            Err(e) => Err(e),
        }
    } else if str_eq(kind, "tlsclient") {
        match TlsClientAccessor::from_config(config.name.clone(), &config.properties) {
            Ok(a) => Ok(AccessorKind::TlsClient(a)),
            Err(e) => Err(e),
        }
    } else {
        let msg = concat("Unknown backend type: ", kind);
        Err(DoomsdayError::config(msg.as_str()))
    }
}

} // verus!
