//! The adapter to CredHub.

use vstd::prelude::*;
use vstd::string::*;
use crate::config::{require_text, text_property, PropertyValue};
use crate::error::DoomsdayError;
use crate::storage::{
    answer_means, is_success, read_answer, status_is_success, base_url_of, bearer_header, instant_after, normalized_url, percent_encode, percent_encoded,
    token_good_at, token_is_good, Accessor, BearerToken,
};
use crate::text::{concat, str_eq, trim_end, trimmed_end};
use crate::types::{strings_view, CertificateData};

verus! {

/// The settings of a CredHub adapter, and the token it holds.
#[derive(Debug)]
pub struct CredHubAccessor {
    pub name: String,
    pub base_url: String,
    pub client_id: String,
    pub client_secret: String,
    pub access_token: Option<BearerToken>,
}

/// One line of the list of credentials.
#[derive(Debug)]
pub struct CredHubCredential {
    pub name: String,
    pub credential_type: String,
}

/// The answer to a request for one credential.
#[derive(Debug)]
pub struct CredHubValueResponse {
    pub credential_type: String,
    pub value: PropertyValue,
}

/// What is sent to obtain a token.
#[derive(Debug)]
pub struct CredHubTokenRequest {
    pub grant_type: String,
    pub client_id: String,
    pub client_secret: String,
}

/// The names of the certificates among the first `n` credentials, in order.
pub open spec fn certificates_among(credentials: Seq<CredHubCredential>, n: int) -> Seq<Seq<char>>
    decreases n,
{
    if n <= 0 {
        Seq::empty()
    } else if credentials[n - 1].credential_type@ == "certificate"@ {
        certificates_among(credentials, n - 1).push(credentials[n - 1].name@)
    } else {
        certificates_among(credentials, n - 1)
    }
}

/// The certificate text in the body of the answer to a request for a
/// credential: none where the answer has no body, where the credential is no
/// certificate, or where its value has no text under `certificate`.
pub open spec fn credential_certificate(response: Option<&CredHubValueResponse>) -> Option<Seq<char>> {
    match response {
        Some(r) => if r.credential_type@ == "certificate"@ {
            r.value.spec_get_text("certificate"@)
        } else {
            None
        },
        None => None,
    }
}

impl CredHubAccessor {
    /// An adapter with these settings and no token yet. Never fails.
    pub fn new(name: String, base_url: String, client_id: String, client_secret: String) -> (r:
        Result<Self, DoomsdayError>)
        ensures
            r matches Ok(a) && a == (CredHubAccessor {
                name,
                base_url,
                client_id,
                client_secret,
                access_token: None,
            }),
    {
        Ok(CredHubAccessor { name, base_url, client_id, client_secret, access_token: None })
    }

    /// Whether `a` is the adapter named `name` that the settings `properties`
    /// describe.
    pub open spec fn configured(a: Self, name: String, properties: Seq<(String, PropertyValue)>) -> bool {
        text_property(properties, "url"@) matches Some(url) && normalized_url(url)
                    == Some(a.base_url@) && a.name == name && text_property(
                    properties,
                    "client_id"@,
                ) == Some(a.client_id@) && text_property(properties, "client_secret"@) == Some(
                    a.client_secret@,
                ) && a.access_token is None
    }

    /// Whether `e` is the error that says what the settings `properties` lack.
    pub open spec fn refused(e: DoomsdayError, properties: Seq<(String, PropertyValue)>) -> bool {
        e matches DoomsdayError::Config(m) && match text_property(
                    properties,
                    "url"@,
                ) {
                    None => m@ == "CredHub URL is required"@,
                    Some(url) => if text_property(properties, "client_id"@) is None {
                        m@ == "CredHub client_id is required"@
                    } else if text_property(properties, "client_secret"@) is None {
                        m@ == "CredHub client_secret is required"@
                    } else {
                        normalized_url(url) is None && "Invalid CredHub URL: "@.is_prefix_of(m@)
                    },
                }
    }

    /// An adapter named `name` with the settings in `properties`: `url`,
    /// `client_id` and `client_secret`, all of which must be there. The URL is
    /// kept in its normal form.
    pub fn from_config(name: String, properties: &Vec<(String, PropertyValue)>) -> (r: Result<
        Self,
        DoomsdayError,
    >)
        ensures
            match r {
                Ok(a) => CredHubAccessor::configured(a, name, properties@),
                Err(e) => CredHubAccessor::refused(e, properties@),
            },
    {
        let url = match require_text(properties, "url", "CredHub URL is required") {
            Ok(v) => v,
            Err(e) => {
                return Err(e);
            },
        };
        let client_id = match require_text(properties, "client_id", "CredHub client_id is required") {
            Ok(v) => v,
            Err(e) => {
                return Err(e);
            },
        };
        let client_secret = match require_text(
            properties,
            "client_secret",
            "CredHub client_secret is required",
        ) {
            Ok(v) => v,
            Err(e) => {
                return Err(e);
            },
        };
        let base_url = match base_url_of(url, "Invalid CredHub URL: ") {
            Ok(v) => v,
            Err(e) => {
                return Err(e);
            },
        };
        CredHubAccessor::new(
            name,
            base_url,
            String::from_str(client_id),
            String::from_str(client_secret),
        )
    }

    fn endpoint(&self, tail: &str) -> (r: String)
        ensures
            r@ == trimmed_end(self.base_url@, '/') + tail@,
    {
        let base = trim_end(self.base_url.as_str(), '/');
        concat(base.as_str(), tail)
    }

    /// Whether a token must be obtained before a request can be made at the
    /// instant `now`: none is held, or the one held has expired.
    pub fn needs_token_at(&self, now: i64) -> (r: bool)
        ensures
            r == !token_is_good(self.access_token, now),
    {
        !token_good_at(&self.access_token, now)
    }

    /// The address that grants tokens.
    pub fn token_url(&self) -> (r: String)
        ensures
            r@ == trimmed_end(self.base_url@, '/') + "/oauth/token"@,
    {
        self.endpoint("/oauth/token")
    }

    /// What to send to obtain a token: the client's credentials.
    pub fn token_request(&self) -> (r: CredHubTokenRequest)
        ensures
            r.grant_type@ == "client_credentials"@,
            r.client_id@ == self.client_id@,
            r.client_secret@ == self.client_secret@,
    {
        CredHubTokenRequest {
            grant_type: String::from_str("client_credentials"),
            client_id: self.client_id.clone(),
            client_secret: self.client_secret.clone(),
        }
    }

    /// Takes in the answer to a request for a token, made at the instant
    /// `now`, where the answer has the status `status` and `granted` is the
    /// token in its body with its lifetime in seconds, if it has one. On
    /// success the token is kept. Any other answer is an authentication error,
    /// and nothing changes.
    pub fn accept_token(&mut self, status: u16, granted: Option<(String, u64)>, now: i64) -> (r:
        Result<(), DoomsdayError>)
        ensures
            match r {
                Ok(_) => granted matches Some(g) && final(self).access_token matches Some(t)
                    && t.access_token == g.0 && t.expires_at == instant_after(now, g.1)
                    && is_success(status) && *final(self) == (CredHubAccessor {
                    access_token: final(self).access_token,
                    ..*old(self)
                }),
                Err(e) => e matches DoomsdayError::Auth(m) && m@
                    == "Failed to authenticate with CredHub"@ && !(is_success(status) && granted
                    is Some) && *final(self) == *old(self),
            },
    {
        if !status_is_success(status) {
            return Err(DoomsdayError::auth("Failed to authenticate with CredHub"));
        }
        match granted {
            Some((access_token, expires_in)) => {
                self.access_token = Some(BearerToken::granted(access_token, expires_in, now));
                Ok(())
            },
            None => Err(DoomsdayError::auth("Failed to authenticate with CredHub")),
        }
    }

    /// The value of the `Authorization` header; none where no token is held.
    pub fn auth_header(&self) -> (r: Option<String>)
        ensures
            match r {
                Some(h) => self.access_token matches Some(t) && h@ == bearer_header(
                    t.access_token@,
                ),
                None => self.access_token is None,
            },
    {
        match &self.access_token {
            Some(t) => Some(t.header()),
            None => None,
        }
    }

    /// The address of the list of credentials.
    pub fn credentials_url(&self) -> (r: String)
        ensures
            r@ == trimmed_end(self.base_url@, '/') + "/api/v1/credentials"@,
    {
        self.endpoint("/api/v1/credentials")
    }

    /// The address of the credential named `path`.
    pub fn credential_url(&self, path: &str) -> (r: String)
        ensures
            r@ == trimmed_end(self.base_url@, '/') + "/api/v1/credentials?name="@ + percent_encoded(
                path@,
            ),
    {
        let front = self.endpoint("/api/v1/credentials?name=");
        let name = percent_encode(path);
        concat(front.as_str(), name.as_str())
    }

    /// The paths in the answer to a request for the list of credentials,
    /// where the answer has the status `status` and `credentials` is what its
    /// body lists, if it has one: the names of those that are certificates. Any
    /// answer but a successful one with a body is a backend error.
    pub fn list_from_response(&self, status: u16, credentials: Option<&Vec<CredHubCredential>>) -> (r:
        Result<Vec<String>, DoomsdayError>)
        ensures
            match r {
                Ok(paths) => credentials matches Some(all) && strings_view(paths@)
                    == certificates_among(all@, all@.len() as int) && is_success(status),
                Err(e) => e matches DoomsdayError::Backend(m) && m@
                    == "Failed to list credentials from CredHub"@ && !(is_success(status)
                    && credentials is Some),
            },
    {
        if !status_is_success(status) {
            return Err(DoomsdayError::backend("Failed to list credentials from CredHub"));
        }
        match credentials {
            None => Err(DoomsdayError::backend("Failed to list credentials from CredHub")),
            Some(all) => {
                let mut paths: Vec<String> = Vec::new();
                let mut i: usize = 0;
                proof {
                    assert(strings_view(paths@) =~= certificates_among(all@, 0));
                }
                while i < all.len()
                    invariant
                        i <= all.len(),
                        strings_view(paths@) == certificates_among(all@, i as int),
                    decreases all.len() - i,
                {
                    if str_eq(all[i].credential_type.as_str(), "certificate") {
                        let name = all[i].name.clone();
                        proof {
                            assert(strings_view(paths@.push(name)) =~= strings_view(paths@).push(
                                name@,
                            ));
                        }
                        paths.push(name);
                    }
                    i += 1;
                }
                Ok(paths)
            },
        }
    }

    /// What the answer to a request for a credential means, where the answer
    /// has the status `status` and `response` is its body, if it has one. Not
    /// found is no certificate. Any other status but success is a backend
    /// error. A body without certificate text is no certificate. Otherwise it
    /// is the record of the certificate, or an X.509 error where the text
    /// holds none.
    pub fn get_from_response(&self, status: u16, response: Option<&CredHubValueResponse>) -> (r:
        Result<Option<CertificateData>, DoomsdayError>)
        ensures
            answer_means(r, "CredHub"@, status, credential_certificate(response)),
    {
        let pem = match response {
            None => None,
            Some(answer) => {
                if str_eq(answer.credential_type.as_str(), "certificate") {
                    answer.value.get_text("certificate")
                } else {
                    None
                }
            },
        };
        read_answer("CredHub", status, pem)
    }
}

impl Accessor for CredHubAccessor {
    open spec fn spec_name(&self) -> Seq<char> {
        self.name@
    }

    fn name(&self) -> (r: &str) {
        self.name.as_str()
    }
}

} // verus!
