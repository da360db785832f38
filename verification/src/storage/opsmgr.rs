//! The adapter to Ops Manager.

use vstd::prelude::*;
use vstd::string::*;
use crate::config::{require_text, text_property, PropertyValue};
use crate::error::DoomsdayError;
use crate::storage::{
    answer_means, is_success, listing_means, read_answer, status_error, status_is_success,
    base_url_of, bearer_header, instant_after, normalized_url, token_good_at, token_is_good,
    Accessor, BearerToken, NOT_FOUND,
};
use crate::text::{concat, concat3, split_at_first, split_once, str_eq, trim_end, trimmed_end};
use crate::types::{strings_view, CertificateData};

verus! {

/// The settings of an Ops Manager adapter, and the token it holds.
#[derive(Debug)]
pub struct OpsMgrAccessor {
    pub name: String,
    pub base_url: String,
    pub username: String,
    pub password: String,
    pub access_token: Option<BearerToken>,
}

/// What is sent to obtain a token.
#[derive(Debug)]
pub struct OpsMgrTokenRequest {
    pub grant_type: String,
    pub username: String,
    pub password: String,
}

/// One deployment.
#[derive(Debug)]
pub struct OpsMgrDeployment {
    pub name: String,
    pub deployment_guid: String,
}

/// The certificate and key of one property.
#[derive(Debug)]
pub struct OpsMgrCertificateData {
    pub cert_pem: String,
    pub private_key_pem: String,
}

/// One certificate of a deployment.
#[derive(Debug)]
pub struct OpsMgrCertificate {
    pub configurable: bool,
    pub property_reference: String,
    pub property_type: String,
    pub certificate: OpsMgrCertificateData,
}

/// The paths of the certificates of the deployment `deployment`: its name, a
/// slash, and the property that each certificate belongs to.
pub open spec fn deployment_paths(deployment: Seq<char>, certificates: Seq<OpsMgrCertificate>) -> Seq<
    Seq<char>,
> {
    certificates.map_values(|c: OpsMgrCertificate| deployment + "/"@ + c.property_reference@)
}

/// The position of the first deployment among the first `n` that is named
/// `name`.
pub open spec fn deployment_index(deployments: Seq<OpsMgrDeployment>, name: Seq<char>, n: int) -> Option<
    int,
>
    decreases n,
{
    if n <= 0 {
        None
    } else {
        match deployment_index(deployments, name, n - 1) {
            Some(i) => Some(i),
            None => if deployments[n - 1].name@ == name {
                Some(n - 1)
            } else {
                None
            },
        }
    }
}

/// The position of the first certificate among the first `n` that belongs to
/// the property `reference`.
pub open spec fn certificate_index(
    certificates: Seq<OpsMgrCertificate>,
    reference: Seq<char>,
    n: int,
) -> Option<int>
    decreases n,
{
    if n <= 0 {
        None
    } else {
        match certificate_index(certificates, reference, n - 1) {
            Some(i) => Some(i),
            None => if certificates[n - 1].property_reference@ == reference {
                Some(n - 1)
            } else {
                None
            },
        }
    }
}

/// Once a deployment is found among the first `n`, it is the one found among
/// any more.
pub proof fn lemma_deployment_index_stays(
    deployments: Seq<OpsMgrDeployment>,
    name: Seq<char>,
    n: int,
    more: int,
)
    requires
        0 <= n <= more,
        deployment_index(deployments, name, n) is Some,
    ensures
        deployment_index(deployments, name, more) == deployment_index(deployments, name, n),
    decreases more - n,
{
    if n < more {
        lemma_deployment_index_stays(deployments, name, n, more - 1);
    }
}

/// Once a certificate is found among the first `n`, it is the one found among
/// any more.
pub proof fn lemma_certificate_index_stays(
    certificates: Seq<OpsMgrCertificate>,
    reference: Seq<char>,
    n: int,
    more: int,
)
    requires
        0 <= n <= more,
        certificate_index(certificates, reference, n) is Some,
    ensures
        certificate_index(certificates, reference, more) == certificate_index(
            certificates,
            reference,
            n,
        ),
    decreases more - n,
{
    if n < more {
        lemma_certificate_index_stays(certificates, reference, n, more - 1);
    }
}

/// The certificate text of the property `reference` in the body of the
/// answer to a request for the certificates of a deployment: none where the
/// answer has no body or no certificate belongs to that property.
pub open spec fn property_certificate(
    certificates: Option<&Vec<OpsMgrCertificate>>,
    reference: Seq<char>,
) -> Option<Seq<char>> {
    match certificates {
        Some(all) => match certificate_index(all@, reference, all@.len() as int) {
            Some(i) => Some(all@[i].certificate.cert_pem@),
            None => None,
        },
        None => None,
    }
}

impl OpsMgrAccessor {
    /// An adapter with these settings and no token yet. Never fails.
    pub fn new(name: String, base_url: String, username: String, password: String) -> (r: Result<
        Self,
        DoomsdayError,
    >)
        ensures
            r matches Ok(a) && a == (OpsMgrAccessor {
                name,
                base_url,
                username,
                password,
                access_token: None,
            }),
    {
        Ok(OpsMgrAccessor { name, base_url, username, password, access_token: None })
    }

    /// Whether `a` is the adapter named `name` that the settings `properties`
    /// describe.
    pub open spec fn configured(a: Self, name: String, properties: Seq<(String, PropertyValue)>) -> bool {
        text_property(properties, "url"@) matches Some(url) && normalized_url(url)
                    == Some(a.base_url@) && a.name == name && text_property(
                    properties,
                    "username"@,
                ) == Some(a.username@) && text_property(properties, "password"@) == Some(
                    a.password@,
                ) && a.access_token is None
    }

    /// Whether `e` is the error that says what the settings `properties` lack.
    pub open spec fn refused(e: DoomsdayError, properties: Seq<(String, PropertyValue)>) -> bool {
        e matches DoomsdayError::Config(m) && match text_property(
                    properties,
                    "url"@,
                ) {
                    None => m@ == "Ops Manager URL is required"@,
                    Some(url) => if text_property(properties, "username"@) is None {
                        m@ == "Ops Manager username is required"@
                    } else if text_property(properties, "password"@) is None {
                        m@ == "Ops Manager password is required"@
                    } else {
                        normalized_url(url) is None && "Invalid Ops Manager URL: "@.is_prefix_of(m@)
                    },
                }
    }

    /// An adapter named `name` with the settings in `properties`: `url`,
    /// `username` and `password`, all of which must be there. The URL is kept
    /// in its normal form.
    pub fn from_config(name: String, properties: &Vec<(String, PropertyValue)>) -> (r: Result<
        Self,
        DoomsdayError,
    >)
        ensures
            match r {
                Ok(a) => OpsMgrAccessor::configured(a, name, properties@),
                Err(e) => OpsMgrAccessor::refused(e, properties@),
            },
    {
        let url = match require_text(properties, "url", "Ops Manager URL is required") {
            Ok(v) => v,
            Err(e) => {
                return Err(e);
            },
        };
        let username = match require_text(
            properties,
            "username",
            "Ops Manager username is required",
        ) {
            Ok(v) => v,
            Err(e) => {
                return Err(e);
            },
        };
        let password = match require_text(
            properties,
            "password",
            "Ops Manager password is required",
        ) {
            Ok(v) => v,
            Err(e) => {
                return Err(e);
            },
        };
        let base_url = match base_url_of(url, "Invalid Ops Manager URL: ") {
            Ok(v) => v,
            Err(e) => {
                return Err(e);
            },
        };
        OpsMgrAccessor::new(name, base_url, String::from_str(username), String::from_str(password))
    }

    fn endpoint(&self, tail: &str) -> (r: String)
        ensures
            r@ == trimmed_end(self.base_url@, '/') + tail@,
    {
        let base = trim_end(self.base_url.as_str(), '/');
        concat(base.as_str(), tail)
    }

    /// Whether a token must be obtained before a request can be made at the
    /// instant `now`: none is held, or the one held has expired.
    pub fn needs_token_at(&self, now: i64) -> (r: bool)
        ensures
            r == !token_is_good(self.access_token, now),
    {
        !token_good_at(&self.access_token, now)
    }

    /// The address that grants tokens.
    pub fn token_url(&self) -> (r: String)
        ensures
            r@ == trimmed_end(self.base_url@, '/') + "/uaa/oauth/token"@,
    {
        self.endpoint("/uaa/oauth/token")
    }

    /// What to send to obtain a token: the user's name and password.
    pub fn token_request(&self) -> (r: OpsMgrTokenRequest)
        ensures
            r.grant_type@ == "password"@,
            r.username@ == self.username@,
            r.password@ == self.password@,
    {
        OpsMgrTokenRequest {
            grant_type: String::from_str("password"),
            username: self.username.clone(),
            password: self.password.clone(),
        }
    }

    /// Takes in the answer to a request for a token, made at the instant
    /// `now`, where the answer has the status `status` and `granted` is the
    /// token in its body with its lifetime in seconds, if it has one. On
    /// success the token is kept. Any other answer is an authentication error,
    /// and nothing changes.
    pub fn accept_token(&mut self, status: u16, granted: Option<(String, u64)>, now: i64) -> (r:
        Result<(), DoomsdayError>)
        ensures
            match r {
                Ok(_) => granted matches Some(g) && final(self).access_token matches Some(t)
                    && t.access_token == g.0 && t.expires_at == instant_after(now, g.1)
                    && is_success(status) && *final(self) == (OpsMgrAccessor {
                    access_token: final(self).access_token,
                    ..*old(self)
                }),
                Err(e) => e matches DoomsdayError::Auth(m) && m@
                    == "Failed to authenticate with Ops Manager"@ && !(is_success(status) && granted
                    is Some) && *final(self) == *old(self),
            },
    {
        if !status_is_success(status) {
            return Err(DoomsdayError::auth("Failed to authenticate with Ops Manager"));
        }
        match granted {
            Some((access_token, expires_in)) => {
                self.access_token = Some(BearerToken::granted(access_token, expires_in, now));
                Ok(())
            },
            None => Err(DoomsdayError::auth("Failed to authenticate with Ops Manager")),
        }
    }

    /// The value of the `Authorization` header; none where no token is held.
    pub fn auth_header(&self) -> (r: Option<String>)
        ensures
            match r {
                Some(h) => self.access_token matches Some(t) && h@ == bearer_header(
                    t.access_token@,
                ),
                None => self.access_token is None,
            },
    {
        match &self.access_token {
            Some(t) => Some(t.header()),
            None => None,
        }
    }

    /// The address of the list of deployments.
    pub fn deployments_url(&self) -> (r: String)
        ensures
            r@ == trimmed_end(self.base_url@, '/') + "/api/v0/deployments"@,
    {
        self.endpoint("/api/v0/deployments")
    }

    /// The address of the certificates of the deployment `guid`.
    pub fn certificates_url(&self, guid: &str) -> (r: String)
        ensures
            r@ == trimmed_end(self.base_url@, '/') + "/api/v0/deployments/"@ + guid@
                + "/certificates"@,
    {
        let front = self.endpoint("/api/v0/deployments/");
        concat3(front.as_str(), guid, "/certificates")
    }

    /// What the answer to the request for the deployments means, where the
    /// answer has the status `status` and `deployments` is what its body lists,
    /// if it has one: the deployments. Any answer but a successful one with a
    /// body is a backend error.
    pub fn deployments_from_response(&self, status: u16, deployments: Option<Vec<OpsMgrDeployment>>) -> (r:
        Result<Vec<OpsMgrDeployment>, DoomsdayError>)
        ensures
            match r {
                Ok(all) => deployments == Some(all) && is_success(status),
                Err(e) => e matches DoomsdayError::Backend(m) && m@
                    == "Failed to get deployments from Ops Manager"@ && !(is_success(status)
                    && deployments is Some),
            },
    {
        if !status_is_success(status) {
            return Err(DoomsdayError::backend("Failed to get deployments from Ops Manager"));
        }
        match deployments {
            Some(all) => Ok(all),
            None => Err(DoomsdayError::backend("Failed to get deployments from Ops Manager")),
        }
    }

    /// The paths of the certificates of the deployment named `deployment`.
    pub fn paths_of(deployment: &str, certificates: &Vec<OpsMgrCertificate>) -> (r: Vec<String>)
        ensures
            strings_view(r@) == deployment_paths(deployment@, certificates@),
    {
        let mut paths: Vec<String> = Vec::new();
        let mut i: usize = 0;
        while i < certificates.len()
            invariant
                i <= certificates.len(),
                paths.len() == i,
                forall|j: int|
                    0 <= j < i ==> (#[trigger] paths@[j])@ == deployment@ + "/"@
                        + certificates@[j].property_reference@,
            decreases certificates.len() - i,
        {
            paths.push(concat3(deployment, "/", certificates[i].property_reference.as_str()));
            i += 1;
        }
        proof {
            assert(strings_view(paths@) =~= deployment_paths(deployment@, certificates@));
        }
        paths
    }

    /// A path cut into the name of the deployment and the property: what
    /// stands before the first slash and what stands after it. Nothing where
    /// the path has no slash.
    pub fn split_path(path: &str) -> (r: Option<(String, String)>)
        ensures
            match r {
                Some((deployment, reference)) => split_at_first(path@, '/') == Some(
                    (deployment@, reference@),
                ),
                None => split_at_first(path@, '/') is None,
            },
    {
        split_once(path, '/')
    }

    /// The first deployment named `name`.
    pub fn find_deployment<'a>(deployments: &'a Vec<OpsMgrDeployment>, name: &str) -> (r: Option<
        &'a OpsMgrDeployment,
    >)
        ensures
            match r {
                Some(d) => deployment_index(deployments@, name@, deployments@.len() as int)
                    matches Some(i) && deployments@[i] == *d,
                None => deployment_index(deployments@, name@, deployments@.len() as int) is None,
            },
    {
        let mut i: usize = 0;
        while i < deployments.len()
            invariant
                i <= deployments.len(),
                deployment_index(deployments@, name@, i as int) is None,
            decreases deployments.len() - i,
        {
            if str_eq(deployments[i].name.as_str(), name) {
                proof {
                    assert(deployment_index(deployments@, name@, i + 1) == Some(i as int));
                    lemma_deployment_index_stays(
                        deployments@,
                        name@,
                        i + 1,
                        deployments@.len() as int,
                    );
                }
                return Some(&deployments[i]);
            }
            i += 1;
        }
        None
    }

    /// What the answer to a request for the certificates of a deployment
    /// means for the property `reference`, where the answer has the status
    /// `status` and `certificates` is what its body lists, if it has one. Not
    /// found is no certificate. Any other status but success is a backend
    /// error. Where no certificate belongs to the property, there is none.
    /// Otherwise it is the record of the first that does, or an X.509 error
    /// where its text holds no certificate.
    pub fn get_from_response(
        &self,
        status: u16,
        certificates: Option<&Vec<OpsMgrCertificate>>,
        reference: &str,
    ) -> (r: Result<Option<CertificateData>, DoomsdayError>)
        ensures
            answer_means(r, "Ops Manager"@, status, property_certificate(certificates, reference@)),
    {
        let pem = match certificates {
            None => None,
            Some(all) => OpsMgrAccessor::find_certificate(all, reference),
        };
        read_answer("Ops Manager", status, pem)
    }

    /// The certificate text of the first certificate that belongs to the
    /// property `reference`.
    pub fn find_certificate<'a>(certificates: &'a Vec<OpsMgrCertificate>, reference: &str) -> (r:
        Option<&'a str>)
        ensures
            match r {
                Some(pem) => property_certificate(Some(certificates), reference@) == Some(pem@),
                None => property_certificate(Some(certificates), reference@) is None,
            },
    {
        let mut i: usize = 0;
        while i < certificates.len()
            invariant
                i <= certificates.len(),
                certificate_index(certificates@, reference@, i as int) is None,
            decreases certificates.len() - i,
        {
            if str_eq(certificates[i].property_reference.as_str(), reference) {
                proof {
                    assert(certificate_index(certificates@, reference@, i + 1) == Some(i as int));
                    lemma_certificate_index_stays(
                        certificates@,
                        reference@,
                        i + 1,
                        certificates@.len() as int,
                    );
                }
                return Some(certificates[i].certificate.cert_pem.as_str());
            }
            i += 1;
        }
        None
    }

    /// The paths in the answer to a request for the certificates of the
    /// deployment named `deployment`, where the answer has the status `status`
    /// and `certificates` is what its body lists, if it has one. Not found is
    /// no path. Any other status but success is a backend error.
    pub fn paths_from_response(
        deployment: &str,
        status: u16,
        certificates: Option<&Vec<OpsMgrCertificate>>,
    ) -> (r: Result<Vec<String>, DoomsdayError>)
        ensures
            listing_means(
                match r {
                    Ok(paths) => Ok(strings_view(paths@)),
                    Err(e) => Err(e),
                },
                "Ops Manager"@,
                status,
                match certificates {
                    Some(all) => deployment_paths(deployment@, all@),
                    None => Seq::empty(),
                },
            ),
    {
        if status == NOT_FOUND {
            let none: Vec<String> = Vec::new();
            assert(strings_view(none@) =~= Seq::<Seq<char>>::empty());
            return Ok(none);
        }
        if !status_is_success(status) {
            return Err(status_error("Ops Manager", status));
        }
        match certificates {
            Some(all) => Ok(OpsMgrAccessor::paths_of(deployment, all)),
            None => {
                let none: Vec<String> = Vec::new();
                assert(strings_view(none@) =~= Seq::<Seq<char>>::empty());
                Ok(none)
            },
        }
    }
}

impl Accessor for OpsMgrAccessor {
    open spec fn spec_name(&self) -> Seq<char> {
        self.name@
    }

    fn name(&self) -> (r: &str) {
        self.name.as_str()
    }
}

} // verus!
