//! The adapters to certificate sources. Each adapter here holds its settings
//! and decides what to ask of its backend and what an answer means; sending
//! the requests is left to whoever drives it.

use vstd::prelude::*;
use vstd::string::*;
use crate::certificate::{fingerprints_sized, parse_pem_certificate, record_from_pem};
use crate::error::DoomsdayError;
use crate::text::{concat, concat3, decimal, decimal_string};
use crate::types::CertificateData;

pub mod credhub;
pub mod opsmgr;
pub mod tlsclient;
pub mod vault;

verus! {

#[verifier::external_type_specification]
#[verifier::external_body]
pub struct ExUrlParseError(url::ParseError);

/// The normal form in which an absolute URL is written; none where the text
/// is no absolute URL.
pub uninterp spec fn normalized_url(text: Seq<char>) -> Option<Seq<char>>;

/// Whether a byte stands for itself in percent-encoded text: it is an ASCII
/// letter or digit or one of `-`, `.`, `_`, `~`.
pub open spec fn is_unreserved(b: u8) -> bool {
    (0x30 <= b <= 0x39) || (0x41 <= b <= 0x5a) || (0x61 <= b <= 0x7a) || b == 0x2d || b == 0x2e
        || b == 0x5f || b == 0x7e
}

/// The character that writes `n`, below sixteen, in uppercase hexadecimal.
pub open spec fn upper_hex_digit(n: int) -> char {
    "0123456789ABCDEF"@[n]
}

/// The bytes percent-encoded: a byte that stands for itself as the
/// character it is, any other as `%` and its two uppercase hexadecimal digits.
pub open spec fn percent_encoded_bytes(bytes: Seq<u8>) -> Seq<char>
    decreases bytes.len(),
{
    if bytes.len() == 0 {
        Seq::empty()
    } else if is_unreserved(bytes.last()) {
        percent_encoded_bytes(bytes.drop_last()).push(bytes.last() as char)
    } else {
        percent_encoded_bytes(bytes.drop_last()).push('%').push(
            upper_hex_digit(bytes.last() as int / 16),
        ).push(upper_hex_digit(bytes.last() as int % 16))
    }
}

/// The text percent-encoded: the bytes of its UTF-8 form, percent-encoded.
pub open spec fn percent_encoded(text: Seq<char>) -> Seq<char> {
    percent_encoded_bytes(vstd::utf8::encode_utf8(text))
}

/// Trusted: `url::Url::parse` reads an absolute URL, and `String::from` gives
/// its serialization. The result depends on the text alone.
#[verifier::external_body]
fn parse_url(text: &str) -> (r: Result<String, url::ParseError>)
    ensures
        match r {
            Ok(u) => normalized_url(text@) == Some(u@),
            Err(_) => normalized_url(text@) is None,
        },
{
    url::Url::parse(text).map(String::from)
}

/// Trusted: the text that `url::ParseError` displays. Nothing is claimed of
/// it.
#[verifier::external_body]
fn url_error_text(e: &url::ParseError) -> (r: String) {
    e.to_string()
}

/// Trusted: `urlencoding::encode`, which percent-encodes every byte of the
/// text except ASCII letters and digits and `-`, `.`, `_`, `~`, with uppercase
/// hexadecimal digits.
#[verifier::external_body]
pub(crate) fn percent_encode(text: &str) -> (r: String)
    ensures
        r@ == percent_encoded(text@),
{
    urlencoding::encode(text).into_owned()
}

/// The normal form of the URL `text`, or a configuration error whose message
/// starts with `complaint` where the text is no absolute URL.
pub fn base_url_of(text: &str, complaint: &str) -> (r: Result<String, DoomsdayError>)
    ensures
        match r {
            Ok(u) => normalized_url(text@) == Some(u@),
            Err(e) => e matches DoomsdayError::Config(m) && complaint@.is_prefix_of(m@)
                && normalized_url(text@) is None,
        },
{
    match parse_url(text) {
        Ok(u) => Ok(u),
        Err(e) => {
            let detail = url_error_text(&e);
            let msg = concat(complaint, detail.as_str());
            Err(DoomsdayError::config(msg.as_str()))
        },
    }
}

/// Whether an HTTP status says that the request succeeded: it is one of the
/// two hundreds.
pub open spec fn is_success(status: u16) -> bool {
    200 <= status < 300
}

/// The HTTP status that says that what was asked for is not there.
pub const NOT_FOUND: u16 = 404;

/// The message of the error for an answer of `backend` with a status that is
/// neither success nor not found.
pub open spec fn status_fault(backend: Seq<char>, status: u16) -> Seq<char> {
    backend + " answered with status "@ + decimal(status as nat)
}

/// Whether an HTTP status says that the request succeeded.
pub fn status_is_success(status: u16) -> (r: bool)
    ensures
        r == is_success(status),
{
    200 <= status && status < 300
}

/// The backend error for an answer of `backend` with the status `status`.
pub fn status_error(backend: &str, status: u16) -> (e: DoomsdayError)
    ensures
        e matches DoomsdayError::Backend(m) && m@ == status_fault(backend@, status),
{
    let number = decimal_string(status as u64);
    let msg = concat3(backend, " answered with status ", number.as_str());
    DoomsdayError::backend(msg.as_str())
}

/// Whether `r` is what the answer of `backend` to a request for a
/// certificate means, where the answer has the status `status` and, in its
/// body, the certificate text `pem` or none: not found is no certificate; any
/// other status but success is a backend error; success without certificate
/// text is no certificate; and success with certificate text is the record of
/// the certificate in it, or an X.509 error where it holds none.
pub open spec fn answer_means(
    r: Result<Option<CertificateData>, DoomsdayError>,
    backend: Seq<char>,
    status: u16,
    pem: Option<Seq<char>>,
) -> bool {
    if status == 404 {
        r matches Ok(None)
    } else if !is_success(status) {
        r matches Err(DoomsdayError::Backend(m)) && m@ == status_fault(backend, status)
    } else {
        match pem {
            None => r matches Ok(None),
            Some(text) => match record_from_pem(text) {
                Some(record) => r matches Ok(Some(c)) && c@ == record && fingerprints_sized(c@),
                None => r matches Err(e) && e is X509,
            },
        }
    }
}

/// The characters of an optional text.
pub open spec fn pem_view(pem: Option<&str>) -> Option<Seq<char>> {
    match pem {
        Some(text) => Some(text@),
        None => None,
    }
}

/// What the answer of `backend` to a request for a certificate means, where
/// the answer has the status `status` and, in its body, the certificate text
/// `pem` or none.
pub fn read_answer(backend: &str, status: u16, pem: Option<&str>) -> (r: Result<
    Option<CertificateData>,
    DoomsdayError,
>)
    ensures
        answer_means(r, backend@, status, pem_view(pem)),
{
    if status == NOT_FOUND {
        return Ok(None);
    }
    if !status_is_success(status) {
        return Err(status_error(backend, status));
    }
    match pem {
        None => Ok(None),
        Some(text) => match parse_pem_certificate(text) {
            Ok(record) => Ok(Some(record)),
            Err(e) => Err(e),
        },
    }
}

/// Whether `r` is what the answer of `backend` to a request for a listing
/// means, where the answer has the status `status` and `listed` is what a
/// successful answer lists: not found is an empty listing, and any other
/// status but success is a backend error.
pub open spec fn listing_means(
    r: Result<Seq<Seq<char>>, DoomsdayError>,
    backend: Seq<char>,
    status: u16,
    listed: Seq<Seq<char>>,
) -> bool {
    if status == 404 {
        r matches Ok(paths) && paths.len() == 0
    } else if !is_success(status) {
        r matches Err(DoomsdayError::Backend(m)) && m@ == status_fault(backend, status)
    } else {
        r matches Ok(paths) && paths == listed
    }
}

/// A bearer token and the instant from which it is no longer good.
#[derive(Debug)]
pub struct BearerToken {
    pub access_token: String,
    pub expires_at: i64,
}

/// The instant `lifetime` seconds after `now`, or the last instant there is
/// where that would be beyond it.
pub open spec fn instant_after(now: i64, lifetime: u64) -> i64 {
    if now + lifetime > i64::MAX {
        i64::MAX
    } else {
        (now + lifetime) as i64
    }
}

/// Whether a cached token can still be used at the instant `now`.
pub open spec fn token_is_good(token: Option<BearerToken>, now: i64) -> bool {
    match token {
        Some(t) => now < t.expires_at,
        None => false,
    }
}

/// The value of the `Authorization` header that presents a token.
pub open spec fn bearer_header(token: Seq<char>) -> Seq<char> {
    "Bearer "@ + token
}

impl BearerToken {
    /// The token `access_token`, granted at the instant `now` for
    /// `expires_in` seconds.
    pub fn granted(access_token: String, expires_in: u64, now: i64) -> (r: Self)
        ensures
            r.access_token == access_token,
            r.expires_at == instant_after(now, expires_in),
    {
        let end: i128 = now as i128 + expires_in as i128;
        let expires_at: i64 = if end > i64::MAX as i128 {
            i64::MAX
        } else {
            end as i64
        };
        BearerToken { access_token, expires_at }
    }

    /// The value of the `Authorization` header that presents this token.
    pub fn header(&self) -> (r: String)
        ensures
            r@ == bearer_header(self.access_token@),
    {
        concat("Bearer ", self.access_token.as_str())
    }
}

/// Whether a cached token can still be used at the instant `now`.
pub fn token_good_at(token: &Option<BearerToken>, now: i64) -> (r: bool)
    ensures
        r == token_is_good(*token, now),
{
    match token {
        Some(t) => now < t.expires_at,
        None => false,
    }
}

/// What every adapter has: the name it was configured under, which marks
/// where its certificates were found.
pub trait Accessor {
    spec fn spec_name(&self) -> Seq<char>;

    fn name(&self) -> (r: &str)
        ensures
            r@ == self.spec_name(),
    ;
}

} // verus!
