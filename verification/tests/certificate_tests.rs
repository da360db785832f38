use base64::Engine;
use doomsday_rs::certificate::{
    certificate_from_der, decode_der, collect_dns_names, is_authority, parse_der_certificate,
    parse_pem_certificate, pem_of_der, AlternativeName, CertificateExtension, CertificateFields,
};
use doomsday_rs::types::CertificateData;
use doomsday_rs::DoomsdayError;

const EXAMPLE_PEM: &str = "-----BEGIN CERTIFICATE-----
MIIBaDCCAQ6gAwIBAgIFAQIDBAUwCgYIKoZIzj0EAwIwFjEUMBIGA1UEAwwLZXhh
bXBsZS5jb20wHhcNMjAwMTAxMDAwMDAwWhcNMzAwMTAxMDAwMDAwWjAWMRQwEgYD
VQQDDAtleGFtcGxlLmNvbTBZMBMGByqGSM49AgEGCCqGSM49AwEHA0IABNzlYuHT
BPB32iYg2QH+sHhFKSqZ8Jqn4zG23KGSkR1n2wtd1zE27Onvz1CXoa0JKamHGmmV
NFQHH3ZVYt/IGeqjSTBHMDQGA1UdEQQtMCuCC2V4YW1wbGUuY29tgg93d3cuZXhh
bXBsZS5jb22CC2V4YW1wbGUuY29tMA8GA1UdEwEB/wQFMAMBAf8wCgYIKoZIzj0E
AwIDSAAwRQIgWE4hMI24Fr+YxzoEuCIGRw3/XRjnvKqfMew+zQm/XGoCIQD31PCe
rlP5Lt5st0m4EoWOKssiLb3xUpl016cGD/C2vw==
-----END CERTIFICATE-----
";

const EXAMPLE_BASE64: &str = "MIIBaDCCAQ6gAwIBAgIFAQIDBAUwCgYIKoZIzj0EAwIwFjEUMBIGA1UEAwwLZXhhbXBsZS5jb20wHhcNMjAwMTAxMDAwMDAwWhcNMzAwMTAxMDAwMDAwWjAWMRQwEgYDVQQDDAtleGFtcGxlLmNvbTBZMBMGByqGSM49AgEGCCqGSM49AwEHA0IABNzlYuHTBPB32iYg2QH+sHhFKSqZ8Jqn4zG23KGSkR1n2wtd1zE27Onvz1CXoa0JKamHGmmVNFQHH3ZVYt/IGeqjSTBHMDQGA1UdEQQtMCuCC2V4YW1wbGUuY29tgg93d3cuZXhhbXBsZS5jb22CC2V4YW1wbGUuY29tMA8GA1UdEwEB/wQFMAMBAf8wCgYIKoZIzj0EAwIDSAAwRQIgWE4hMI24Fr+YxzoEuCIGRw3/XRjnvKqfMew+zQm/XGoCIQD31PCerlP5Lt5st0m4EoWOKssiLb3xUpl016cGD/C2vw==";

const LEAF_PEM: &str = "-----BEGIN CERTIFICATE-----
MIIBHzCBxaADAgECAgIA/zAKBggqhkjOPQQDAjAWMRQwEgYDVQQDDAtleGFtcGxl
LmNvbTAeFw0yMTA2MDEwMDAwMDBaFw0zMTA2MDExMjMwMTVaMBsxGTAXBgNVBAMM
EGxlYWYuZXhhbXBsZS5vcmcwWTATBgcqhkjOPQIBBggqhkjOPQMBBwNCAATc5WLh
0wTwd9omINkB/rB4RSkqmfCap+MxttyhkpEdZ9sLXdcxNuzp789Ql6GtCSmphxpp
lTRUBx92VWLfyBnqMAoGCCqGSM49BAMCA0kAMEYCIQD8oeL9W0G/S7hVKZHxab7i
+mnXzz7phIxQQdyeThOOiwIhAOyA4Y4OdB99/IIbPGD6Js52RDQ5TxEhgKgpx579
nnP8
-----END CERTIFICATE-----
";

fn example_der() -> Vec<u8> {
    base64::engine::general_purpose::STANDARD.decode(EXAMPLE_BASE64).unwrap()
}

fn fields(der: &[u8], serial: &[u8], extensions: Vec<CertificateExtension>) -> CertificateFields {
    CertificateFields {
        subject: "CN=subject".to_string(),
        issuer: "CN=issuer".to_string(),
        not_before: 10,
        not_after: 20,
        serial: serial.to_vec(),
        extensions,
        der: der.to_vec(),
    }
}

fn dns(name: &str) -> AlternativeName {
    AlternativeName::Dns(name.to_string())
}

#[test]
fn record_of_a_pem_certificate() {
    let record = parse_pem_certificate(EXAMPLE_PEM).unwrap();
    assert_eq!(record.subject, "CN=example.com");
    assert_eq!(record.issuer, "CN=example.com");
    assert_eq!(record.not_after, 1893456000);
    assert_eq!(record.not_before, 1577836800);
    assert_eq!(record.serial_number, "0102030405");
    assert_eq!(record.subject_alt_names, vec!["example.com", "www.example.com"]);
    assert!(record.is_ca);
    assert_eq!(record.fingerprint_sha1, "b237f770a6ad2052c3f27b2199b342820ae85911");
    assert_eq!(
        record.fingerprint_sha256,
        "56e491c02dc758d0049c54b3382a9dfe1485716676b8003f78bd18fcba68753c"
    );
    assert_eq!(record.pem_data, EXAMPLE_PEM);
    assert!(record.key_usage.is_empty());
    assert!(record.ext_key_usage.is_empty());
}

#[test]
fn record_of_a_leaf_certificate() {
    let record = parse_pem_certificate(LEAF_PEM).unwrap();
    assert_eq!(record.subject, "CN=leaf.example.org");
    assert_eq!(record.issuer, "CN=example.com");
    assert_eq!(record.not_after, 1938083415);
    assert_eq!(record.serial_number, "ff");
    assert!(record.subject_alt_names.is_empty());
    assert!(!record.is_ca);
    assert_eq!(record.fingerprint_sha1, "ef2ab58f453b34ee12db4458f76a707a3bcae985");
}

#[test]
fn record_of_a_der_certificate_has_pem_made_for_it() {
    let der = example_der();
    let record = certificate_from_der(&der).unwrap();
    assert_eq!(record.subject, "CN=example.com");
    assert_eq!(record.fingerprint_sha1, "b237f770a6ad2052c3f27b2199b342820ae85911");
    assert_eq!(
        record.pem_data,
        format!("-----BEGIN CERTIFICATE-----\n{}\n-----END CERTIFICATE-----", EXAMPLE_BASE64)
    );
    let same = parse_der_certificate(&der, "as given").unwrap();
    assert_eq!(same.pem_data, "as given");
    assert_eq!(same.fingerprint_sha256, record.fingerprint_sha256);
}

#[test]
fn pem_and_der_give_the_same_fingerprints() {
    let from_pem = parse_pem_certificate(EXAMPLE_PEM).unwrap();
    let from_der = certificate_from_der(&example_der()).unwrap();
    assert_eq!(from_pem.fingerprint_sha1, from_der.fingerprint_sha1);
    assert_eq!(from_pem.fingerprint_sha256, from_der.fingerprint_sha256);
    assert_eq!(from_pem.not_after, from_der.not_after);
}

#[test]
fn text_that_is_no_pem_is_an_x509_error() {
    for text in ["", "hello", "-----BEGIN CERTIFICATE-----\n!!!\n-----END CERTIFICATE-----\n"] {
        match parse_pem_certificate(text) {
            Err(DoomsdayError::X509(m)) => {
                assert!(m.starts_with("Failed to parse PEM: "), "{}", m)
            }
            other => panic!("unexpected {:?}", other),
        }
    }
}

#[test]
fn pem_that_holds_no_certificate_is_an_x509_error() {
    let text = "-----BEGIN CERTIFICATE-----\naGVsbG8gd29ybGQ=\n-----END CERTIFICATE-----\n";
    match parse_pem_certificate(text) {
        Err(DoomsdayError::X509(m)) => {
            assert!(m.starts_with("Failed to parse certificate: "), "{}", m)
        }
        other => panic!("unexpected {:?}", other),
    }
    assert!(matches!(certificate_from_der(b"hello world"), Err(DoomsdayError::X509(_))));
    assert!(matches!(certificate_from_der(b""), Err(DoomsdayError::X509(_))));
    let mut cut = example_der();
    cut.truncate(100);
    assert!(matches!(certificate_from_der(&cut), Err(DoomsdayError::X509(_))));
}

#[test]
fn pem_armor_around_base64() {
    assert_eq!(
        pem_of_der(b"hello").unwrap(),
        "-----BEGIN CERTIFICATE-----\naGVsbG8=\n-----END CERTIFICATE-----"
    );
    assert_eq!(
        pem_of_der(b"").unwrap(),
        "-----BEGIN CERTIFICATE-----\n\n-----END CERTIFICATE-----"
    );
    assert_eq!(
        pem_of_der(&[0xfb, 0xff, 0xfe]).unwrap(),
        "-----BEGIN CERTIFICATE-----\n+//+\n-----END CERTIFICATE-----"
    );
}

#[test]
fn record_from_fields() {
    let cert = fields(
        b"abc",
        &[0x00, 0x0f, 0xa0, 0xff],
        vec![
            CertificateExtension::Other,
            CertificateExtension::SubjectAlternativeName(vec![
                dns("a.example"),
                AlternativeName::Other,
                dns("b.example"),
            ]),
            CertificateExtension::BasicConstraints { ca: false },
            CertificateExtension::SubjectAlternativeName(vec![dns("b.example"), dns("c.example")]),
        ],
    );
    let record: CertificateData = CertificateData::from_x509(&cert, "the pem").unwrap();
    assert_eq!(record.subject, "CN=subject");
    assert_eq!(record.issuer, "CN=issuer");
    assert_eq!(record.not_before, 10);
    assert_eq!(record.not_after, 20);
    assert_eq!(record.serial_number, "000fa0ff");
    assert_eq!(record.subject_alt_names, vec!["a.example", "b.example", "c.example"]);
    assert!(!record.is_ca);
    assert_eq!(record.fingerprint_sha1, "a9993e364706816aba3e25717850c26c9cd0d89d");
    assert_eq!(
        record.fingerprint_sha256,
        "ba7816bf8f01cfea414140de5dae2223b00361a396177a9cb410ff61f20015ad"
    );
    assert_eq!(record.pem_data, "the pem");
    let copy = record.clone();
    assert_eq!(copy.fingerprint_sha1, record.fingerprint_sha1);
    assert_eq!(copy.subject_alt_names, record.subject_alt_names);
}

#[test]
fn fingerprints_of_no_bytes() {
    let record = CertificateData::from_x509(&fields(b"", &[], vec![]), "").unwrap();
    assert_eq!(record.serial_number, "");
    assert_eq!(record.fingerprint_sha1, "da39a3ee5e6b4b0d3255bfef95601890afd80709");
    assert_eq!(
        record.fingerprint_sha256,
        "e3b0c44298fc1c149afbf4c8996fb92427ae41e4649b934ca495991b7852b855"
    );
    assert!(record.subject_alt_names.is_empty());
}

#[test]
fn authority_needs_basic_constraints_that_say_so() {
    assert!(!is_authority(&vec![]));
    assert!(!is_authority(&vec![CertificateExtension::Other]));
    assert!(!is_authority(&vec![CertificateExtension::BasicConstraints { ca: false }]));
    assert!(is_authority(&vec![
        CertificateExtension::BasicConstraints { ca: false },
        CertificateExtension::Other,
        CertificateExtension::BasicConstraints { ca: true },
    ]));
}

#[test]
fn dns_names_come_once_in_first_order() {
    assert!(collect_dns_names(&vec![]).is_empty());
    let extensions = vec![
        CertificateExtension::SubjectAlternativeName(vec![dns("x"), dns("y"), dns("x")]),
        CertificateExtension::SubjectAlternativeName(vec![]),
        CertificateExtension::SubjectAlternativeName(vec![dns("z"), dns("y"), dns("X")]),
    ];
    assert_eq!(collect_dns_names(&extensions), vec!["x", "y", "z", "X"]);
}

#[test]
fn bytes_after_the_certificate_do_not_count() {
    let der = example_der();
    let mut longer = der.clone();
    longer.extend_from_slice(&[0, 1, 2, 3, 0xff]);
    let fields = decode_der(&longer).unwrap();
    assert_eq!(fields.der, der);
    assert_eq!(fields.subject, "CN=example.com");
    assert_eq!(decode_der(&der).unwrap().der, der);
    let record = parse_der_certificate(&longer, "pem").unwrap();
    assert_eq!(record.fingerprint_sha1, "b237f770a6ad2052c3f27b2199b342820ae85911");
    assert_eq!(
        record.fingerprint_sha256,
        "56e491c02dc758d0049c54b3382a9dfe1485716676b8003f78bd18fcba68753c"
    );
    let made = certificate_from_der(&longer).unwrap();
    assert_eq!(
        made.pem_data,
        format!("-----BEGIN CERTIFICATE-----\n{}\n-----END CERTIFICATE-----", EXAMPLE_BASE64)
    );
    assert!(matches!(decode_der(b"junk"), Err(DoomsdayError::X509(_))));
}

#[test]
fn fingerprints_have_the_length_of_their_digests() {
    for record in [
        parse_pem_certificate(EXAMPLE_PEM).unwrap(),
        parse_pem_certificate(LEAF_PEM).unwrap(),
        CertificateData::from_x509(&fields(b"", &[], vec![]), "").unwrap(),
        CertificateData::from_x509(&fields(&[0u8; 1000], &[1], vec![]), "").unwrap(),
    ] {
        assert_eq!(record.fingerprint_sha1.len(), 40);
        assert_eq!(record.fingerprint_sha256.len(), 64);
        assert!(record.fingerprint_sha1.chars().all(|c| c.is_ascii_digit() || ('a'..='f').contains(&c)));
    }
}
