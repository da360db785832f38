//! From certificate bytes to the normalized record: what the X.509 decoder
//! reads out of a certificate, and how the record is made from it.

use vstd::prelude::*;
use vstd::string::*;
use crate::error::DoomsdayError;
use crate::text::{concat, concat3, str_eq};
use crate::types::{strings_view, CertificateData, CertificateDataView};

verus! {

#[verifier::external_type_specification]
#[verifier::external_body]
#[verifier::reject_recursive_types(E)]
pub struct ExNomErr<E>(x509_parser::nom::Err<E>);

#[verifier::external_type_specification]
#[verifier::external_body]
pub struct ExX509Error(x509_parser::error::X509Error);

#[verifier::external_type_specification]
#[verifier::external_body]
pub struct ExPemError(x509_parser::error::PEMError);

#[verifier::external_type_specification]
#[verifier::external_body]
pub struct ExX509Extension<'a>(x509_parser::extensions::X509Extension<'a>);

#[verifier::external_type_specification]
#[verifier::external_body]
pub struct ExGeneralName<'a>(x509_parser::extensions::GeneralName<'a>);

/// One name of a subject-alternative-name extension: a DNS name, or a name
/// of another kind.
#[derive(Debug)]
pub enum AlternativeName {
    Dns(String),
    Other,
}

pub enum AlternativeNameView {
    Dns(Seq<char>),
    Other,
}

impl View for AlternativeName {
    type V = AlternativeNameView;

    open spec fn view(&self) -> AlternativeNameView {
        match self {
            AlternativeName::Dns(name) => AlternativeNameView::Dns(name@),
            AlternativeName::Other => AlternativeNameView::Other,
        }
    }
}

/// The views of a sequence of alternative names.
pub open spec fn names_view(s: Seq<AlternativeName>) -> Seq<AlternativeNameView> {
    s.map_values(|n: AlternativeName| n@)
}

/// One extension of a certificate, as far as the record depends on it.
#[derive(Debug)]
pub enum CertificateExtension {
    SubjectAlternativeName(Vec<AlternativeName>),
    BasicConstraints { ca: bool },
    Other,
}

pub enum CertificateExtensionView {
    SubjectAlternativeName(Seq<AlternativeNameView>),
    BasicConstraints { ca: bool },
    Other,
}

impl View for CertificateExtension {
    type V = CertificateExtensionView;

    open spec fn view(&self) -> CertificateExtensionView {
        match self {
            CertificateExtension::SubjectAlternativeName(names) => {
                CertificateExtensionView::SubjectAlternativeName(names_view(names@))
            },
            CertificateExtension::BasicConstraints { ca } => {
                CertificateExtensionView::BasicConstraints { ca: *ca }
            },
            CertificateExtension::Other => CertificateExtensionView::Other,
        }
    }
}

/// The views of a sequence of extensions.
pub open spec fn extensions_view(s: Seq<CertificateExtension>) -> Seq<CertificateExtensionView> {
    s.map_values(|e: CertificateExtension| e@)
}

/// What is read out of a decoded certificate: the names in their canonical
/// text form, the validity in whole seconds since the epoch, the serial number
/// as big-endian bytes, the extensions, and the DER bytes it was decoded from.
#[derive(Debug)]
pub struct CertificateFields {
    pub subject: String,
    pub issuer: String,
    pub not_before: i64,
    pub not_after: i64,
    pub serial: Vec<u8>,
    pub extensions: Vec<CertificateExtension>,
    pub der: Vec<u8>,
}

pub struct CertificateFieldsView {
    pub subject: Seq<char>,
    pub issuer: Seq<char>,
    pub not_before: int,
    pub not_after: int,
    pub serial: Seq<u8>,
    pub extensions: Seq<CertificateExtensionView>,
    pub der: Seq<u8>,
}

impl View for CertificateFields {
    type V = CertificateFieldsView;

    open spec fn view(&self) -> CertificateFieldsView {
        CertificateFieldsView {
            subject: self.subject@,
            issuer: self.issuer@,
            not_before: self.not_before as int,
            not_after: self.not_after as int,
            serial: self.serial@,
            extensions: extensions_view(self.extensions@),
            der: self.der@,
        }
    }
}

/// The DER bytes inside the first PEM block of a text given as bytes; none
/// where the text holds no well-formed block.
pub uninterp spec fn pem_contents(text: Seq<u8>) -> Option<Seq<u8>>;

/// What the decoder reads out of bytes that start with the DER encoding of a
/// certificate, together with the bytes after the certificate, which it
/// leaves unread; none where the bytes start with no certificate. The field
/// `der` of what it reads out holds all the bytes given.
pub uninterp spec fn x509_decoded(der: Seq<u8>) -> Option<(CertificateFieldsView, Seq<u8>)>;

/// The bytes of the certificate at the start of `der`, where `unread` is
/// what follows it.
pub open spec fn certificate_bytes(der: Seq<u8>, unread: Seq<u8>) -> Seq<u8> {
    der.subrange(0, der.len() - unread.len())
}

/// The fields of the certificate that `der` starts with, with the
/// certificate's own bytes as its DER encoding; none where it starts with no
/// certificate.
pub open spec fn decoded_fields(der: Seq<u8>) -> Option<CertificateFieldsView> {
    match x509_decoded(der) {
        Some((fields, unread)) => Some(
            CertificateFieldsView { der: certificate_bytes(der, unread), ..fields },
        ),
        None => None,
    }
}

/// Whether the fingerprints of a record have the lengths of a SHA-1 and a
/// SHA-256 digest in hexadecimal: forty and sixty-four characters.
pub open spec fn fingerprints_sized(record: CertificateDataView) -> bool {
    record.fingerprint_sha1.len() == 40 && record.fingerprint_sha256.len() == 64
}

/// The SHA-1 digest of a byte string.
pub uninterp spec fn sha1_of(data: Seq<u8>) -> Seq<u8>;

/// The SHA-256 digest of a byte string.
pub uninterp spec fn sha256_of(data: Seq<u8>) -> Seq<u8>;

/// The base64 text of a byte string, standard alphabet, padded.
pub uninterp spec fn base64_standard(data: Seq<u8>) -> Seq<char>;

/// The character that writes `n`, below sixteen, in lowercase hexadecimal.
pub open spec fn hex_digit(n: int) -> char {
    "0123456789abcdef"@[n]
}

/// The lowercase hexadecimal text of a byte string: two digits per byte, high
/// half first, no separators.
pub open spec fn hex_lower(bytes: Seq<u8>) -> Seq<char>
    decreases bytes.len(),
{
    if bytes.len() == 0 {
        Seq::empty()
    } else {
        hex_lower(bytes.drop_last()).push(hex_digit(bytes.last() as int / 16)).push(
            hex_digit(bytes.last() as int % 16),
        )
    }
}

/// Hexadecimal text is twice as long as the bytes it writes.
pub proof fn lemma_hex_length(bytes: Seq<u8>)
    ensures
        hex_lower(bytes).len() == 2 * bytes.len(),
    decreases bytes.len(),
{
    if bytes.len() > 0 {
        lemma_hex_length(bytes.drop_last());
    }
}

/// Trusted: `x509_parser::pem::parse_x509_pem` decodes the first PEM block of
/// the text; the wrapper hands out the block's decoded contents. The result
/// depends on the text alone.
#[verifier::external_body]
fn decode_pem(text: &[u8]) -> (r: Result<
    Vec<u8>,
    x509_parser::nom::Err<x509_parser::error::PEMError>,
>)
    ensures
        match r {
            Ok(der) => pem_contents(text@) == Some(der@),
            Err(_) => pem_contents(text@) is None,
        },
{
    x509_parser::pem::parse_x509_pem(text).map(|(_, pem)| pem.contents)
}

/// Trusted: the text that `nom::Err` displays for a PEM error. Nothing is
/// claimed of it.
#[verifier::external_body]
fn pem_error_text(e: &x509_parser::nom::Err<x509_parser::error::PEMError>) -> (r: String) {
    e.to_string()
}

/// Trusted: tells the variants of `GeneralName` apart: a DNS name keeps its
/// text, any other name becomes `Other`.
#[verifier::external_body]
fn read_general_name(name: &x509_parser::extensions::GeneralName<'_>) -> (r: AlternativeName) {
    match name {
        x509_parser::extensions::GeneralName::DNSName(dns) => AlternativeName::Dns(dns.to_string()),
        _ => AlternativeName::Other,
    }
}

/// Trusted: tells the variants of what `X509Extension::parsed_extension` gives
/// apart: a subject alternative name keeps its names, basic constraints keep
/// the CA flag, any other extension becomes `Other`.
#[verifier::external_body]
fn read_extension(ext: &x509_parser::extensions::X509Extension<'_>) -> (r: CertificateExtension) {
    match ext.parsed_extension() {
        x509_parser::extensions::ParsedExtension::SubjectAlternativeName(san) => {
            CertificateExtension::SubjectAlternativeName(
                san.general_names.iter().map(read_general_name).collect(),
            )
        },
        x509_parser::extensions::ParsedExtension::BasicConstraints(bc) => {
            CertificateExtension::BasicConstraints { ca: bc.ca }
        },
        _ => CertificateExtension::Other,
    }
}

/// Trusted: `x509_parser::parse_x509_certificate` decodes the certificate
/// that the bytes start with and hands back the bytes after it. The wrapper
/// reads out subject and issuer as displayed, the validity bounds as
/// timestamps, the serial number as big-endian bytes and the extensions, and
/// keeps the bytes it was given. The result depends on the bytes alone, and
/// what is left unread is no longer than what was given.
#[verifier::external_body]
fn decode_certificate(der: &[u8]) -> (r: Result<
    (CertificateFields, Vec<u8>),
    x509_parser::nom::Err<x509_parser::error::X509Error>,
>)
    ensures
        match r {
            Ok(read) => x509_decoded(der@) == Some((read.0@, read.1@)) && read.0.der@ == der@
                && read.1@.len() <= der@.len(),
            Err(_) => x509_decoded(der@) is None,
        },
{
    let (rest, cert) = x509_parser::parse_x509_certificate(der)?;
    let fields = CertificateFields {
        subject: cert.subject().to_string(),
        issuer: cert.issuer().to_string(),
        not_before: cert.validity().not_before.timestamp(),
        not_after: cert.validity().not_after.timestamp(),
        serial: cert.serial.to_bytes_be(),
        extensions: cert.extensions().iter().map(read_extension).collect(),
        der: der.to_vec(),
    };
    Ok((fields, rest.to_vec()))
}

/// Trusted: the text that `nom::Err` displays for a certificate error.
/// Nothing is claimed of it.
#[verifier::external_body]
fn x509_error_text(e: &x509_parser::nom::Err<x509_parser::error::X509Error>) -> (r: String) {
    e.to_string()
}

/// Trusted: `sha1::Sha1::digest`, the SHA-1 digest of the data, which is
/// twenty bytes long.
#[verifier::external_body]
fn sha1_digest(data: &[u8]) -> (r: Vec<u8>)
    ensures
        r@ == sha1_of(data@),
        r@.len() == 20,
{
    <sha1::Sha1 as sha1::Digest>::digest(data).to_vec()
}

/// Trusted: `sha2::Sha256::digest`, the SHA-256 digest of the data, which
/// is thirty-two bytes long.
#[verifier::external_body]
fn sha256_digest(data: &[u8]) -> (r: Vec<u8>)
    ensures
        r@ == sha256_of(data@),
        r@.len() == 32,
{
    <sha2::Sha256 as sha2::Digest>::digest(data).to_vec()
}

/// Trusted: `hex::encode` writes each byte as two lowercase hexadecimal
/// digits, high half first.
#[verifier::external_body]
fn hex_encode(bytes: &[u8]) -> (r: String)
    ensures
        r@ == hex_lower(bytes@),
{
    hex::encode(bytes)
}

/// Trusted: `Engine::encode` of `base64::engine::general_purpose::STANDARD`.
/// It fails where the length of the text would not fit in a `usize`, so such
/// data is left out.
#[verifier::external_body]
fn base64_encode(data: &[u8]) -> (r: String)
    requires
        data@.len() <= 0x2000_0000,
    ensures
        r@ == base64_standard(data@),
{
    base64::Engine::encode(&base64::engine::general_purpose::STANDARD, data)
}

/// The DNS names among `names`, in order.
pub open spec fn dns_among(names: Seq<AlternativeNameView>) -> Seq<Seq<char>>
    decreases names.len(),
{
    if names.len() == 0 {
        Seq::empty()
    } else {
        match names.last() {
            AlternativeNameView::Dns(name) => dns_among(names.drop_last()).push(name),
            AlternativeNameView::Other => dns_among(names.drop_last()),
        }
    }
}

/// The DNS names of all subject-alternative-name extensions, in order.
pub open spec fn dns_names(extensions: Seq<CertificateExtensionView>) -> Seq<Seq<char>>
    decreases extensions.len(),
{
    if extensions.len() == 0 {
        Seq::empty()
    } else {
        match extensions.last() {
            CertificateExtensionView::SubjectAlternativeName(names) => dns_names(
                extensions.drop_last(),
            ) + dns_among(names),
            _ => dns_names(extensions.drop_last()),
        }
    }
}

/// `names` without repetitions: each name where it first occurs.
pub open spec fn without_repeats(names: Seq<Seq<char>>) -> Seq<Seq<char>>
    decreases names.len(),
{
    if names.len() == 0 {
        Seq::empty()
    } else {
        let before = without_repeats(names.drop_last());
        if before.contains(names.last()) {
            before
        } else {
            before.push(names.last())
        }
    }
}

/// Whether some basic-constraints extension marks a certificate authority.
pub open spec fn marks_ca(extensions: Seq<CertificateExtensionView>) -> bool {
    exists|i: int|
        0 <= i < extensions.len() && #[trigger] extensions[i]
            == (CertificateExtensionView::BasicConstraints { ca: true })
}

/// The record of a certificate with these fields that came as the text `pem`.
pub open spec fn record_of(fields: CertificateFieldsView, pem: Seq<char>) -> CertificateDataView {
    CertificateDataView {
        subject: fields.subject,
        not_before: fields.not_before,
        not_after: fields.not_after,
        serial_number: hex_lower(fields.serial),
        issuer: fields.issuer,
        subject_alt_names: without_repeats(dns_names(fields.extensions)),
        key_usage: Seq::empty(),
        ext_key_usage: Seq::empty(),
        is_ca: marks_ca(fields.extensions),
        fingerprint_sha1: hex_lower(sha1_of(fields.der)),
        fingerprint_sha256: hex_lower(sha256_of(fields.der)),
        pem_data: pem,
    }
}

/// The text that wraps base64 in the armor of a PEM certificate.
pub open spec fn pem_armor(base64: Seq<char>) -> Seq<char> {
    "-----BEGIN CERTIFICATE-----\n"@ + base64 + "\n-----END CERTIFICATE-----"@
}

fn contains_name(names: &Vec<String>, name: &str) -> (r: bool)
    ensures
        r == strings_view(names@).contains(name@),
{
    let mut i: usize = 0;
    while i < names.len()
        invariant
            i <= names.len(),
            forall|j: int| 0 <= j < i ==> strings_view(names@)[j] != name@,
        decreases names.len() - i,
    {
        if str_eq(names[i].as_str(), name) {
            assert(strings_view(names@)[i as int] == name@);
            return true;
        }
        i += 1;
    }
    false
}

/// The DNS names of all subject-alternative-name extensions, each once, in
/// the order they first occur.
pub fn collect_dns_names(extensions: &Vec<CertificateExtension>) -> (out: Vec<String>)
    ensures
        strings_view(out@) == without_repeats(dns_names(extensions_view(extensions@))),
{
    let ghost exts = extensions_view(extensions@);
    let mut out: Vec<String> = Vec::new();
    let mut i: usize = 0;
    proof {
        assert(exts.take(0) =~= Seq::<CertificateExtensionView>::empty());
        assert(strings_view(out@) =~= Seq::<Seq<char>>::empty());
    }
    while i < extensions.len()
        invariant
            i <= extensions.len(),
            exts == extensions_view(extensions@),
            strings_view(out@) == without_repeats(dns_names(exts.take(i as int))),
        decreases extensions.len() - i,
    {
        let ghost done = dns_names(exts.take(i as int));
        proof {
            assert(exts.take(i + 1).drop_last() =~= exts.take(i as int));
            assert(exts.take(i + 1).last() == extensions@[i as int]@);
        }
        match &extensions[i] {
            CertificateExtension::SubjectAlternativeName(names) => {
                let ghost all = names_view(names@);
                let mut j: usize = 0;
                proof {
                    assert(all.take(0) =~= Seq::<AlternativeNameView>::empty());
                    assert(done + dns_among(all.take(0)) =~= done);
                }
                while j < names.len()
                    invariant
                        j <= names.len(),
                        all == names_view(names@),
                        strings_view(out@) == without_repeats(done + dns_among(all.take(j as int))),
                    decreases names.len() - j,
                {
                    proof {
                        assert(all.take(j + 1).drop_last() =~= all.take(j as int));
                        assert(all.take(j + 1).last() == names@[j as int]@);
                    }
                    match &names[j] {
                        AlternativeName::Dns(name) => {
                            let ghost so_far = done + dns_among(all.take(j as int));
                            proof {
                                assert(done + dns_among(all.take(j + 1)) =~= so_far.push(name@));
                                assert(so_far.push(name@).drop_last() =~= so_far);
                            }
                            if !contains_name(&out, name.as_str()) {
                                out.push(name.clone());
                                proof {
                                    assert(strings_view(out@) =~= without_repeats(so_far).push(
                                        name@,
                                    ));
                                }
                            }
                        },
                        AlternativeName::Other => {},
                    }
                    j += 1;
                }
                proof {
                    assert(all.take(j as int) =~= all);
                }
            },
            _ => {},
        }
        i += 1;
    }
    proof {
        assert(exts.take(i as int) =~= exts);
    }
    out
}

/// Whether some basic-constraints extension marks a certificate authority.
pub fn is_authority(extensions: &Vec<CertificateExtension>) -> (r: bool)
    ensures
        r == marks_ca(extensions_view(extensions@)),
{
    let mut i: usize = 0;
    while i < extensions.len()
        invariant
            i <= extensions.len(),
            forall|j: int|
                0 <= j < i ==> extensions_view(extensions@)[j]
                    != (CertificateExtensionView::BasicConstraints { ca: true }),
        decreases extensions.len() - i,
    {
        match &extensions[i] {
            CertificateExtension::BasicConstraints { ca } => {
                if *ca {
                    assert(extensions_view(extensions@)[i as int]
                        == (CertificateExtensionView::BasicConstraints { ca: true }));
                    return true;
                }
            },
            _ => {},
        }
        i += 1;
    }
    false
}

impl CertificateData {
    /// The record of the certificate with the fields `cert` that came as the
    /// text `pem_data`. Never fails.
    pub fn from_x509(cert: &CertificateFields, pem_data: &str) -> (r: Result<Self, DoomsdayError>)
        ensures
            r matches Ok(record) && record@ == record_of(cert@, pem_data@) && fingerprints_sized(
                record@,
            ),
    {
        let sha1 = sha1_digest(cert.der.as_slice());
        let sha256 = sha256_digest(cert.der.as_slice());
        proof {
            lemma_hex_length(sha1@);
            lemma_hex_length(sha256@);
        }
        let record = CertificateData {
            subject: cert.subject.clone(),
            not_before: cert.not_before,
            not_after: cert.not_after,
            serial_number: hex_encode(cert.serial.as_slice()),
            issuer: cert.issuer.clone(),
            subject_alt_names: collect_dns_names(&cert.extensions),
            key_usage: Vec::new(),
            ext_key_usage: Vec::new(),
            is_ca: is_authority(&cert.extensions),
            fingerprint_sha1: hex_encode(sha1.as_slice()),
            fingerprint_sha256: hex_encode(sha256.as_slice()),
            pem_data: String::from_str(pem_data),
        };
        proof {
            assert(strings_view(record.key_usage@) =~= Seq::<Seq<char>>::empty());
            assert(strings_view(record.ext_key_usage@) =~= Seq::<Seq<char>>::empty());
        }
        Ok(record)
    }
}

/// What parsing certificate bytes that came as the text `pem` gives: the
/// record of the certificate that the bytes start with, nothing where they
/// start with none.
pub open spec fn record_from_der(der: Seq<u8>, pem: Seq<char>) -> Option<CertificateDataView> {
    match decoded_fields(der) {
        Some(fields) => Some(record_of(fields, pem)),
        None => None,
    }
}

/// What parsing certificate bytes that came without text gives: the record
/// of the certificate that the bytes start with, with the PEM text made of
/// the certificate's bytes; nothing where they start with none.
pub open spec fn record_of_der(der: Seq<u8>) -> Option<CertificateDataView> {
    match decoded_fields(der) {
        Some(fields) => Some(record_of(fields, pem_armor(base64_standard(fields.der)))),
        None => None,
    }
}

/// What parsing a PEM text gives: the record of the certificate in its first
/// block, or nothing where there is no block or the block holds no
/// certificate.
pub open spec fn record_from_pem(pem: Seq<char>) -> Option<CertificateDataView> {
    match pem_contents(vstd::utf8::encode_utf8(pem)) {
        Some(der) => record_from_der(der, pem),
        None => None,
    }
}

/// The fields of the certificate that the bytes `der` start with. Bytes
/// after the certificate are left out of its DER encoding, so that they do
/// not count for its fingerprints. An X.509 error where the bytes start with
/// no certificate.
pub fn decode_der(der: &[u8]) -> (r: Result<CertificateFields, DoomsdayError>)
    ensures
        match r {
            Ok(fields) => decoded_fields(der@) == Some(fields@) && fields.der@.is_prefix_of(der@),
            Err(e) => e matches DoomsdayError::X509(m)
                && "Failed to parse certificate: "@.is_prefix_of(m@) && decoded_fields(der@)
                is None,
        },
{
    match decode_certificate(der) {
        Ok((fields, unread)) => {
            let mut fields = fields;
            let used: usize = der.len() - unread.len();
            fields.der.truncate(used);
            Ok(fields)
        },
        Err(e) => {
            let detail = x509_error_text(&e);
            let msg = concat("Failed to parse certificate: ", detail.as_str());
            Err(DoomsdayError::x509(msg.as_str()))
        },
    }
}

/// The record of the certificate that the DER bytes `der` start with, where
/// `pem_data` is the text it came as; an X.509 error where the bytes start
/// with no certificate.
pub fn parse_der_certificate(der: &[u8], pem_data: &str) -> (r: Result<
    CertificateData,
    DoomsdayError,
>)
    ensures
        match r {
            Ok(record) => record_from_der(der@, pem_data@) == Some(record@) && fingerprints_sized(
                record@,
            ),
            Err(e) => e matches DoomsdayError::X509(m)
                && "Failed to parse certificate: "@.is_prefix_of(m@) && record_from_der(
                der@,
                pem_data@,
            ) is None,
        },
{
    match decode_der(der) {
        Ok(fields) => CertificateData::from_x509(&fields, pem_data),
        Err(e) => Err(e),
    }
}

/// The record of the certificate in the first block of the PEM text
/// `pem_data`; an X.509 error where there is none.
pub fn parse_pem_certificate(pem_data: &str) -> (r: Result<CertificateData, DoomsdayError>)
    ensures
        match r {
            Ok(record) => record_from_pem(pem_data@) == Some(record@) && fingerprints_sized(
                record@,
            ),
            Err(e) => e matches DoomsdayError::X509(m)
                && (if pem_contents(vstd::utf8::encode_utf8(pem_data@)) is None {
                "Failed to parse PEM: "@.is_prefix_of(m@)
            } else {
                "Failed to parse certificate: "@.is_prefix_of(m@)
            }) && record_from_pem(pem_data@) is None,
        },
{
    match decode_pem(pem_data.as_bytes()) {
        Ok(der) => parse_der_certificate(der.as_slice(), pem_data),
        Err(e) => {
            let detail = pem_error_text(&e);
            let msg = concat("Failed to parse PEM: ", detail.as_str());
            Err(DoomsdayError::x509(msg.as_str()))
        },
    }
}

/// The PEM text of a certificate given as DER bytes; nothing where the bytes
/// are too many to encode.
pub fn pem_of_der(der: &[u8]) -> (r: Option<String>)
    ensures
        match r {
            Some(pem) => der@.len() <= 0x2000_0000 && pem@ == pem_armor(base64_standard(der@)),
            None => der@.len() > 0x2000_0000,
        },
{
    if der.len() > 0x2000_0000 {
        return None;
    }
    let body = base64_encode(der);
    Some(concat3("-----BEGIN CERTIFICATE-----\n", body.as_str(), "\n-----END CERTIFICATE-----"))
}

/// The record of the certificate that the DER bytes `der` start with, with
/// the PEM text made for it; an X.509 error where the bytes start with no
/// certificate or are too many.
pub fn certificate_from_der(der: &[u8]) -> (r: Result<CertificateData, DoomsdayError>)
    ensures
        match r {
            Ok(record) => der@.len() <= 0x2000_0000 && record_of_der(der@) == Some(record@)
                && fingerprints_sized(record@),
            Err(e) => e is X509 && (der@.len() > 0x2000_0000 || record_of_der(der@) is None),
        },
{
    if der.len() > 0x2000_0000 {
        return Err(DoomsdayError::x509("Failed to parse certificate: too large"));
    }
    let fields = match decode_der(der) {
        Ok(fields) => fields,
        Err(e) => {
            return Err(e);
        },
    };
    match pem_of_der(fields.der.as_slice()) {
        Some(pem) => CertificateData::from_x509(&fields, pem.as_str()),
        None => Err(DoomsdayError::x509("Failed to parse certificate: too large")),
    }
}

} // verus!
