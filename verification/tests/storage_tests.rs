use base64::Engine;
use doomsday_rs::backends::{create_accessor, AccessorKind};
use doomsday_rs::config::{BackendConfig, PropertyValue};
use doomsday_rs::storage::credhub::{CredHubAccessor, CredHubCredential, CredHubValueResponse};
use doomsday_rs::storage::opsmgr::{
    OpsMgrAccessor, OpsMgrCertificate, OpsMgrCertificateData, OpsMgrDeployment,
};
use doomsday_rs::storage::tlsclient::{TlsClientAccessor, TlsTarget};
use doomsday_rs::storage::vault::{VaultAccessor, VaultWalk};
use doomsday_rs::storage::{
    base_url_of, read_answer, status_error, status_is_success, token_good_at, Accessor,
    BearerToken, NOT_FOUND,
};
use doomsday_rs::DoomsdayError;

const LEAF_PEM: &str = "-----BEGIN CERTIFICATE-----
MIIBHzCBxaADAgECAgIA/zAKBggqhkjOPQQDAjAWMRQwEgYDVQQDDAtleGFtcGxl
LmNvbTAeFw0yMTA2MDEwMDAwMDBaFw0zMTA2MDExMjMwMTVaMBsxGTAXBgNVBAMM
EGxlYWYuZXhhbXBsZS5vcmcwWTATBgcqhkjOPQIBBggqhkjOPQMBBwNCAATc5WLh
0wTwd9omINkB/rB4RSkqmfCap+MxttyhkpEdZ9sLXdcxNuzp789Ql6GtCSmphxpp
lTRUBx92VWLfyBnqMAoGCCqGSM49BAMCA0kAMEYCIQD8oeL9W0G/S7hVKZHxab7i
+mnXzz7phIxQQdyeThOOiwIhAOyA4Y4OdB99/IIbPGD6Js52RDQ5TxEhgKgpx579
nnP8
-----END CERTIFICATE-----
";

fn text(value: &str) -> PropertyValue {
    PropertyValue::String(value.to_string())
}

fn props(pairs: &[(&str, PropertyValue)]) -> Vec<(String, PropertyValue)> {
    let mut out = Vec::new();
    for (k, v) in pairs {
        out.push((k.to_string(), copy_value(v)));
    }
    out
}

fn copy_value(v: &PropertyValue) -> PropertyValue {
    match v {
        PropertyValue::Other => PropertyValue::Other,
        PropertyValue::Bool(b) => PropertyValue::Bool(*b),
        PropertyValue::Integer(n) => PropertyValue::Integer(*n),
        PropertyValue::String(s) => PropertyValue::String(s.clone()),
        PropertyValue::Sequence(items) => {
            PropertyValue::Sequence(items.iter().map(copy_value).collect())
        }
        PropertyValue::Mapping(pairs) => PropertyValue::Mapping(
            pairs.iter().map(|(k, v)| (copy_value(k), copy_value(v))).collect(),
        ),
    }
}

fn table(pairs: &[(&str, PropertyValue)]) -> PropertyValue {
    PropertyValue::Mapping(pairs.iter().map(|(k, v)| (text(k), copy_value(v))).collect())
}

fn config_error<T: std::fmt::Debug>(r: Result<T, DoomsdayError>) -> String {
    match r {
        Err(DoomsdayError::Config(m)) => m,
        other => panic!("expected a configuration error, got {:?}", other),
    }
}

fn vault() -> VaultAccessor {
    VaultAccessor::from_config(
        "v".to_string(),
        &props(&[("url", text("https://vault.example.com:8200/")), ("token", text("s.tok"))]),
    )
    .unwrap()
}

#[test]
fn url_is_kept_in_normal_form() {
    assert_eq!(base_url_of("https://Example.COM", "bad: ").unwrap(), "https://example.com/");
    assert_eq!(
        base_url_of("http://host:80/a/../b", "bad: ").unwrap(),
        "http://host/b"
    );
    let complaint = config_error(base_url_of("not a url", "Invalid URL: "));
    assert!(complaint.starts_with("Invalid URL: "));
    assert!(complaint.len() > "Invalid URL: ".len());
    assert!(base_url_of("", "x").is_err());
}

#[test]
fn vault_settings() {
    let a = vault();
    assert_eq!(a.name(), "v");
    assert_eq!(a.base_url, "https://vault.example.com:8200/");
    assert_eq!(a.token, "s.tok");
    assert_eq!(a.mount_path, "secret");
    assert_eq!(a.secret_path, "/");
    let b = VaultAccessor::from_config(
        "w".to_string(),
        &props(&[
            ("token", text("t")),
            ("secret_path", text("certs/")),
            ("url", text("http://localhost:8200")),
            ("mount_path", text("kv")),
        ]),
    )
    .unwrap();
    assert_eq!(b.base_url, "http://localhost:8200/");
    assert_eq!(b.mount_path, "kv");
    assert_eq!(b.secret_path, "certs/");
    let c = VaultAccessor::new(
        "n".to_string(),
        "u".to_string(),
        "t".to_string(),
        "m".to_string(),
        "s".to_string(),
    )
    .unwrap();
    assert_eq!(c.name, "n");
    assert_eq!(c.secret_path, "s");
}

#[test]
fn vault_settings_that_are_missing() {
    assert_eq!(
        config_error(VaultAccessor::from_config("v".to_string(), &props(&[]))),
        "Vault URL is required"
    );
    assert_eq!(
        config_error(VaultAccessor::from_config(
            "v".to_string(),
            &props(&[("url", PropertyValue::Integer(5)), ("token", text("t"))])
        )),
        "Vault URL is required"
    );
    assert_eq!(
        config_error(VaultAccessor::from_config(
            "v".to_string(),
            &props(&[("url", text("::nonsense::"))])
        )),
        "Vault token is required"
    );
    assert!(config_error(VaultAccessor::from_config(
        "v".to_string(),
        &props(&[("url", text("::nonsense::")), ("token", text("t"))])
    ))
    .starts_with("Invalid Vault URL: "));
}

#[test]
fn vault_addresses() {
    let a = vault();
    assert_eq!(a.metadata_url("/"), "https://vault.example.com:8200/v1/secret/metadata/");
    assert_eq!(
        a.metadata_url("//certs/web"),
        "https://vault.example.com:8200/v1/secret/metadata/certs/web"
    );
    assert_eq!(a.data_url("certs/web"), "https://vault.example.com:8200/v1/secret/data/certs/web");
    assert_eq!(a.data_url(""), "https://vault.example.com:8200/v1/secret/data/");
}

#[test]
fn vault_walk_sorts_keys_into_directories_and_secrets() {
    let a = vault();
    let mut walk = a.start_listing();
    assert_eq!(walk.to_process, vec!["/"]);
    let root = walk.next_path().unwrap();
    assert_eq!(root, "/");
    walk.record_keys(&root, &vec!["web".to_string(), "apps/".to_string(), "db/".to_string()]);
    assert_eq!(walk.all_paths, vec!["web"]);
    assert_eq!(walk.to_process, vec!["apps", "db"]);
    let next = walk.next_path().unwrap();
    assert_eq!(next, "db");
    walk.record_keys(&next, &vec!["primary".to_string(), "replicas/".to_string()]);
    assert_eq!(walk.all_paths, vec!["web", "db/primary"]);
    assert_eq!(walk.to_process, vec!["apps", "db/replicas"]);
    let next = walk.next_path().unwrap();
    walk.record_keys(&next, &vec![]);
    let next = walk.next_path().unwrap();
    assert_eq!(next, "apps");
    walk.record_keys("apps//", &vec!["one".to_string(), "/".to_string()]);
    assert_eq!(walk.to_process, vec!["apps"]);
    let mut empty = VaultWalk { to_process: vec![], all_paths: vec!["x".to_string()] };
    assert!(empty.next_path().is_none());
    empty.record_keys("", &vec!["top".to_string()]);
    assert_eq!(empty.into_paths(), vec!["x", "top"]);
    assert_eq!(walk.into_paths(), vec!["web", "db/primary", "apps/one"]);
}

#[test]
fn vault_reads_the_first_certificate_field() {
    let a = vault();
    assert!(a.get_from_response(404, None).unwrap().is_none());
    assert!(a.get_from_response(200, Some(&props(&[("key", text("k"))]))).unwrap().is_none());
    let record = a
        .get_from_response(200, Some(&props(&[("crt", text("ignored")), ("cert", text(LEAF_PEM))])))
        .unwrap()
        .unwrap();
    assert_eq!(record.subject, "CN=leaf.example.org");
    let record = a
        .get_from_response(200, Some(&props(&[
            ("crt", text(LEAF_PEM)),
            ("unrelated", PropertyValue::Bool(true)),
        ])))
        .unwrap()
        .unwrap();
    assert_eq!(record.not_after, 1938083415);
    assert!(a
        .get_from_response(200, Some(&props(&[
            ("certificate", PropertyValue::Integer(1)),
            ("cert", text(LEAF_PEM))
        ])))
        .unwrap()
        .is_none());
    assert!(matches!(
        a.get_from_response(200, Some(&props(&[("certificate", text("garbage"))]))),
        Err(DoomsdayError::X509(_))
    ));
    assert_eq!(
        VaultAccessor::certificate_text(&props(&[("cert", text("b")), ("certificate", text("a"))])),
        Some("a")
    );
}

fn credhub() -> CredHubAccessor {
    CredHubAccessor::from_config(
        "ch".to_string(),
        &props(&[
            ("url", text("https://credhub.example.com:8844")),
            ("client_id", text("id")),
            ("client_secret", text("secret")),
        ]),
    )
    .unwrap()
}

#[test]
fn credhub_settings() {
    let a = credhub();
    assert_eq!(a.name(), "ch");
    assert_eq!(a.base_url, "https://credhub.example.com:8844/");
    assert_eq!(a.client_id, "id");
    assert_eq!(a.client_secret, "secret");
    assert!(a.access_token.is_none());
    assert_eq!(
        config_error(CredHubAccessor::from_config("ch".to_string(), &props(&[]))),
        "CredHub URL is required"
    );
    assert_eq!(
        config_error(CredHubAccessor::from_config(
            "ch".to_string(),
            &props(&[("url", text("https://x"))])
        )),
        "CredHub client_id is required"
    );
    assert_eq!(
        config_error(CredHubAccessor::from_config(
            "ch".to_string(),
            &props(&[("url", text("https://x")), ("client_id", text("i"))])
        )),
        "CredHub client_secret is required"
    );
    assert!(config_error(CredHubAccessor::from_config(
        "ch".to_string(),
        &props(&[("url", text("x")), ("client_id", text("i")), ("client_secret", text("s"))])
    ))
    .starts_with("Invalid CredHub URL: "));
}

#[test]
fn credhub_addresses() {
    let a = credhub();
    assert_eq!(a.token_url(), "https://credhub.example.com:8844/oauth/token");
    assert_eq!(a.credentials_url(), "https://credhub.example.com:8844/api/v1/credentials");
    assert_eq!(
        a.credential_url("/my cert/ä"),
        "https://credhub.example.com:8844/api/v1/credentials?name=%2Fmy%20cert%2F%C3%A4"
    );
    assert_eq!(
        a.credential_url("plain-Name_1.~"),
        "https://credhub.example.com:8844/api/v1/credentials?name=plain-Name_1.~"
    );
    let request = a.token_request();
    assert_eq!(request.grant_type, "client_credentials");
    assert_eq!(request.client_id, "id");
    assert_eq!(request.client_secret, "secret");
}

#[test]
fn credhub_token_is_kept_until_it_expires() {
    let mut a = credhub();
    assert!(a.needs_token_at(0));
    assert!(a.auth_header().is_none());
    match a.accept_token(401, None, 100) {
        Err(DoomsdayError::Auth(m)) => assert_eq!(m, "Failed to authenticate with CredHub"),
        other => panic!("unexpected {:?}", other),
    }
    assert!(a.needs_token_at(100));
    a.accept_token(200, Some(("abc".to_string(), 3600)), 100).unwrap();
    assert_eq!(a.auth_header().unwrap(), "Bearer abc");
    assert!(!a.needs_token_at(100));
    assert!(!a.needs_token_at(3699));
    assert!(a.needs_token_at(3700));
    a.accept_token(200, Some(("forever".to_string(), u64::MAX)), i64::MAX - 5).unwrap();
    assert_eq!(a.access_token.as_ref().unwrap().expires_at, i64::MAX);
    assert!(!a.needs_token_at(i64::MAX - 1));
}

#[test]
fn bearer_tokens() {
    let token = BearerToken::granted("t".to_string(), 10, -5);
    assert_eq!(token.expires_at, 5);
    assert_eq!(token.header(), "Bearer t");
    let held = Some(token);
    assert!(token_good_at(&held, 4));
    assert!(!token_good_at(&held, 5));
    assert!(!token_good_at(&None, 0));
}

#[test]
fn credhub_lists_certificates_only() {
    let a = credhub();
    let credentials = vec![
        CredHubCredential { name: "/a".to_string(), credential_type: "certificate".to_string() },
        CredHubCredential { name: "/b".to_string(), credential_type: "password".to_string() },
        CredHubCredential { name: "/c".to_string(), credential_type: "Certificate".to_string() },
        CredHubCredential { name: "/d".to_string(), credential_type: "certificate".to_string() },
    ];
    assert_eq!(a.list_from_response(200, Some(&credentials)).unwrap(), vec!["/a", "/d"]);
    assert!(a.list_from_response(200, Some(&vec![])).unwrap().is_empty());
    match a.list_from_response(500, None) {
        Err(DoomsdayError::Backend(m)) => assert_eq!(m, "Failed to list credentials from CredHub"),
        other => panic!("unexpected {:?}", other),
    }
}

#[test]
fn credhub_reads_the_certificate_of_a_credential() {
    let a = credhub();
    assert!(a.get_from_response(404, None).unwrap().is_none());
    let password = CredHubValueResponse {
        credential_type: "password".to_string(),
        value: table(&[("certificate", text(LEAF_PEM))]),
    };
    assert!(a.get_from_response(200, Some(&password)).unwrap().is_none());
    let no_field = CredHubValueResponse {
        credential_type: "certificate".to_string(),
        value: table(&[("ca", text(LEAF_PEM))]),
    };
    assert!(a.get_from_response(200, Some(&no_field)).unwrap().is_none());
    let no_table = CredHubValueResponse {
        credential_type: "certificate".to_string(),
        value: text(LEAF_PEM),
    };
    assert!(a.get_from_response(200, Some(&no_table)).unwrap().is_none());
    let good = CredHubValueResponse {
        credential_type: "certificate".to_string(),
        value: table(&[("ca", text("x")), ("certificate", text(LEAF_PEM))]),
    };
    assert_eq!(a.get_from_response(200, Some(&good)).unwrap().unwrap().subject, "CN=leaf.example.org");
    let bad = CredHubValueResponse {
        credential_type: "certificate".to_string(),
        value: table(&[("certificate", text("no pem"))]),
    };
    assert!(matches!(a.get_from_response(200, Some(&bad)), Err(DoomsdayError::X509(_))));
}

fn opsmgr() -> OpsMgrAccessor {
    OpsMgrAccessor::from_config(
        "om".to_string(),
        &props(&[
            ("url", text("https://opsman.example.com")),
            ("username", text("admin")),
            ("password", text("pw")),
        ]),
    )
    .unwrap()
}

fn ops_certificate(reference: &str, pem: &str) -> OpsMgrCertificate {
    OpsMgrCertificate {
        configurable: true,
        property_reference: reference.to_string(),
        property_type: "rsa_cert_credentials".to_string(),
        certificate: OpsMgrCertificateData {
            cert_pem: pem.to_string(),
            private_key_pem: String::new(),
        },
    }
}

#[test]
fn opsmgr_settings_and_addresses() {
    let a = opsmgr();
    assert_eq!(a.name(), "om");
    assert_eq!(a.base_url, "https://opsman.example.com/");
    assert_eq!(a.token_url(), "https://opsman.example.com/uaa/oauth/token");
    assert_eq!(a.deployments_url(), "https://opsman.example.com/api/v0/deployments");
    assert_eq!(
        a.certificates_url("cf-123"),
        "https://opsman.example.com/api/v0/deployments/cf-123/certificates"
    );
    let request = a.token_request();
    assert_eq!(request.grant_type, "password");
    assert_eq!(request.username, "admin");
    assert_eq!(request.password, "pw");
    assert_eq!(
        config_error(OpsMgrAccessor::from_config("om".to_string(), &props(&[]))),
        "Ops Manager URL is required"
    );
    assert_eq!(
        config_error(OpsMgrAccessor::from_config(
            "om".to_string(),
            &props(&[("url", text("https://x"))])
        )),
        "Ops Manager username is required"
    );
    assert_eq!(
        config_error(OpsMgrAccessor::from_config(
            "om".to_string(),
            &props(&[("url", text("https://x")), ("username", text("u"))])
        )),
        "Ops Manager password is required"
    );
    assert!(config_error(OpsMgrAccessor::from_config(
        "om".to_string(),
        &props(&[("url", text("/")), ("username", text("u")), ("password", text("p"))])
    ))
    .starts_with("Invalid Ops Manager URL: "));
}

#[test]
fn opsmgr_token_and_deployments() {
    let mut a = opsmgr();
    assert!(a.needs_token_at(5));
    match a.accept_token(500, None, 5) {
        Err(DoomsdayError::Auth(m)) => assert_eq!(m, "Failed to authenticate with Ops Manager"),
        other => panic!("unexpected {:?}", other),
    }
    a.accept_token(200, Some(("tok".to_string(), 60)), 5).unwrap();
    assert_eq!(a.auth_header().unwrap(), "Bearer tok");
    assert!(!a.needs_token_at(64));
    assert!(a.needs_token_at(65));
    match a.deployments_from_response(503, None) {
        Err(DoomsdayError::Backend(m)) => {
            assert_eq!(m, "Failed to get deployments from Ops Manager")
        }
        other => panic!("unexpected {:?}", other),
    }
    let deployments = a
        .deployments_from_response(200, Some(vec![
            OpsMgrDeployment { name: "cf".to_string(), deployment_guid: "cf-1".to_string() },
            OpsMgrDeployment { name: "mysql".to_string(), deployment_guid: "my-2".to_string() },
            OpsMgrDeployment { name: "cf".to_string(), deployment_guid: "cf-3".to_string() },
        ]))
        .unwrap();
    assert_eq!(OpsMgrAccessor::find_deployment(&deployments, "cf").unwrap().deployment_guid, "cf-1");
    assert_eq!(
        OpsMgrAccessor::find_deployment(&deployments, "mysql").unwrap().deployment_guid,
        "my-2"
    );
    assert!(OpsMgrAccessor::find_deployment(&deployments, "redis").is_none());
}

#[test]
fn opsmgr_paths() {
    let certificates = vec![ops_certificate(".router.cert", "a"), ops_certificate(".uaa/ssl", "b")];
    assert_eq!(
        OpsMgrAccessor::paths_of("cf", &certificates),
        vec!["cf/.router.cert", "cf/.uaa/ssl"]
    );
    assert!(OpsMgrAccessor::paths_of("cf", &vec![]).is_empty());
    assert_eq!(
        OpsMgrAccessor::split_path("cf/.uaa/ssl"),
        Some(("cf".to_string(), ".uaa/ssl".to_string()))
    );
    assert_eq!(OpsMgrAccessor::split_path("/x"), Some((String::new(), "x".to_string())));
    assert_eq!(OpsMgrAccessor::split_path("x/"), Some(("x".to_string(), String::new())));
    assert_eq!(OpsMgrAccessor::split_path("nothing"), None);
    assert_eq!(OpsMgrAccessor::split_path(""), None);
}

#[test]
fn opsmgr_reads_the_certificate_of_a_property() {
    let a = opsmgr();
    let certificates = vec![
        ops_certificate(".a", "garbage"),
        ops_certificate(".b", LEAF_PEM),
        ops_certificate(".b", "later ones are not looked at"),
    ];
    assert!(a.get_from_response(404, None, ".b").unwrap().is_none());
    assert!(a.get_from_response(200, Some(&certificates), ".c").unwrap().is_none());
    assert_eq!(
        a.get_from_response(200, Some(&certificates), ".b").unwrap().unwrap().subject,
        "CN=leaf.example.org"
    );
    assert!(matches!(
        a.get_from_response(200, Some(&certificates), ".a"),
        Err(DoomsdayError::X509(_))
    ));
}

fn probe() -> TlsClientAccessor {
    TlsClientAccessor::from_config(
        "tls".to_string(),
        &props(&[(
            "targets",
            PropertyValue::Sequence(vec![
                table(&[("host", text("example.com"))]),
                table(&[
                    ("host", text("10.0.0.1")),
                    ("port", PropertyValue::Integer(8443)),
                    ("server_name", text("internal.example.com")),
                ]),
                table(&[("host", text("wrap")), ("port", PropertyValue::Integer(65536 + 25))]),
                table(&[("host", text("odd")), ("port", text("443x"))]),
            ]),
        )]),
    )
    .unwrap()
}

#[test]
fn probe_settings() {
    let a = probe();
    assert_eq!(a.name(), "tls");
    assert_eq!(a.targets.len(), 4);
    assert_eq!(a.targets[0].host, "example.com");
    assert_eq!(a.targets[0].port, 443);
    assert!(a.targets[0].server_name.is_none());
    assert_eq!(a.targets[0].handshake_name(), "example.com");
    assert_eq!(a.targets[1].port, 8443);
    assert_eq!(a.targets[1].handshake_name(), "internal.example.com");
    assert_eq!(a.targets[2].port, 25);
    assert_eq!(a.targets[3].port, 443);
    assert_eq!(
        a.list().unwrap(),
        vec!["example.com:443", "10.0.0.1:8443", "wrap:25", "odd:443"]
    );
    assert_eq!(a.find_target("10.0.0.1:8443").unwrap().host, "10.0.0.1");
    assert!(a.find_target("10.0.0.1").is_none());
    assert!(a.find_target("example.com:0443").is_none());
    let plain = TlsClientAccessor::new(
        "p".to_string(),
        vec![TlsTarget { host: "h".to_string(), port: 0, server_name: None }],
    );
    assert_eq!(plain.list().unwrap(), vec!["h:0"]);
    assert_eq!(plain.targets[0].path(), "h:0");
}

#[test]
fn probe_settings_that_are_wrong() {
    assert_eq!(
        config_error(TlsClientAccessor::from_config("t".to_string(), &props(&[]))),
        "TLS client targets are required"
    );
    assert_eq!(
        config_error(TlsClientAccessor::from_config(
            "t".to_string(),
            &props(&[("targets", text("example.com"))])
        )),
        "TLS client targets are required"
    );
    assert_eq!(
        config_error(TlsClientAccessor::from_config(
            "t".to_string(),
            &props(&[(
                "targets",
                PropertyValue::Sequence(vec![table(&[("host", text("ok"))]), text("bare")])
            )])
        )),
        "Each target must be a mapping"
    );
    assert_eq!(
        config_error(TlsClientAccessor::from_config(
            "t".to_string(),
            &props(&[(
                "targets",
                PropertyValue::Sequence(vec![
                    table(&[("port", PropertyValue::Integer(1))]),
                    text("bare")
                ])
            )])
        )),
        "Target host is required"
    );
    assert!(TlsClientAccessor::from_config(
        "t".to_string(),
        &props(&[("targets", PropertyValue::Sequence(vec![]))])
    )
    .unwrap()
    .list()
    .unwrap()
    .is_empty());
}

#[test]
fn probe_reads_the_first_certificate_presented() {
    let a = probe();
    assert!(a.get_from_peer(&vec![]).unwrap().is_none());
    let body: String = LEAF_PEM.lines().filter(|l| !l.starts_with("-----")).collect();
    let der = base64::engine::general_purpose::STANDARD.decode(body.clone()).unwrap();
    let record = a.get_from_peer(&vec![der, b"not looked at".to_vec()]).unwrap().unwrap();
    assert_eq!(record.subject, "CN=leaf.example.org");
    assert_eq!(
        record.pem_data,
        format!("-----BEGIN CERTIFICATE-----\n{}\n-----END CERTIFICATE-----", body)
    );
    assert!(matches!(a.get_from_peer(&vec![b"junk".to_vec()]), Err(DoomsdayError::X509(_))));
}

fn backend(kind: &str, properties: Vec<(String, PropertyValue)>) -> BackendConfig {
    BackendConfig {
        backend_type: kind.to_string(),
        name: "the name".to_string(),
        refresh_interval: None,
        properties,
    }
}

#[test]
fn accessor_of_each_kind() {
    let v = create_accessor(&backend(
        "vault",
        props(&[("url", text("https://v")), ("token", text("t"))]),
    ))
    .unwrap();
    assert!(matches!(&v, AccessorKind::Vault(a) if a.base_url == "https://v/"));
    assert_eq!(v.name(), "the name");
    let c = create_accessor(&backend(
        "credhub",
        props(&[("url", text("https://c")), ("client_id", text("i")), ("client_secret", text("s"))]),
    ))
    .unwrap();
    assert!(matches!(&c, AccessorKind::CredHub(a) if a.client_id == "i"));
    assert_eq!(c.name(), "the name");
    let o = create_accessor(&backend(
        "opsmgr",
        props(&[("url", text("https://o")), ("username", text("u")), ("password", text("p"))]),
    ))
    .unwrap();
    assert!(matches!(&o, AccessorKind::OpsMgr(a) if a.username == "u"));
    assert_eq!(o.name(), "the name");
    let t = create_accessor(&backend(
        "tlsclient",
        props(&[("targets", PropertyValue::Sequence(vec![table(&[("host", text("h"))])]))]),
    ))
    .unwrap();
    assert!(matches!(&t, AccessorKind::TlsClient(a) if a.targets.len() == 1));
    assert_eq!(t.name(), "the name");
}

#[test]
fn accessor_of_no_kind() {
    assert_eq!(config_error(create_accessor(&backend("Vault", vec![]))), "Unknown backend type: Vault");
    assert_eq!(config_error(create_accessor(&backend("", vec![]))), "Unknown backend type: ");
    assert_eq!(config_error(create_accessor(&backend("vault", vec![]))), "Vault URL is required");
    assert_eq!(
        config_error(create_accessor(&backend("credhub", vec![]))),
        "CredHub URL is required"
    );
    assert_eq!(
        config_error(create_accessor(&backend("opsmgr", vec![]))),
        "Ops Manager URL is required"
    );
    assert_eq!(
        config_error(create_accessor(&backend("tlsclient", vec![]))),
        "TLS client targets are required"
    );
}

fn backend_error<T: std::fmt::Debug>(r: Result<T, DoomsdayError>) -> String {
    match r {
        Err(DoomsdayError::Backend(m)) => m,
        other => panic!("expected a backend error, got {:?}", other),
    }
}

#[test]
fn statuses() {
    assert_eq!(NOT_FOUND, 404);
    for status in [200u16, 201, 204, 299] {
        assert!(status_is_success(status));
    }
    for status in [0u16, 100, 199, 300, 301, 400, 401, 403, 404, 500, 503, u16::MAX] {
        assert!(!status_is_success(status));
    }
    assert_eq!(backend_error::<()>(Err(status_error("Vault", 503))), "Vault answered with status 503");
    assert_eq!(backend_error::<()>(Err(status_error("X", 0))), "X answered with status 0");
}

#[test]
fn answer_by_status() {
    assert!(read_answer("B", 404, None).unwrap().is_none());
    assert!(read_answer("B", 404, Some(LEAF_PEM)).unwrap().is_none());
    assert!(read_answer("B", 200, None).unwrap().is_none());
    assert_eq!(read_answer("B", 200, Some(LEAF_PEM)).unwrap().unwrap().subject, "CN=leaf.example.org");
    assert_eq!(read_answer("B", 204, Some(LEAF_PEM)).unwrap().unwrap().not_after, 1938083415);
    assert!(matches!(read_answer("B", 200, Some("junk")), Err(DoomsdayError::X509(_))));
    for status in [500u16, 502, 503, 401, 403, 400, 302, 199, 300] {
        assert_eq!(
            backend_error(read_answer("B", status, Some(LEAF_PEM))),
            format!("B answered with status {}", status)
        );
        assert_eq!(
            backend_error(read_answer("B", status, None)),
            format!("B answered with status {}", status)
        );
    }
}

#[test]
fn vault_answer_with_a_server_fault_is_an_error() {
    let a = vault();
    assert_eq!(backend_error(a.get_from_response(500, None)), "Vault answered with status 500");
    assert_eq!(backend_error(a.get_from_response(503, None)), "Vault answered with status 503");
    assert_eq!(backend_error(a.get_from_response(403, None)), "Vault answered with status 403");
    let fields = props(&[("certificate", text(LEAF_PEM))]);
    assert_eq!(
        backend_error(a.get_from_response(500, Some(&fields))),
        "Vault answered with status 500"
    );
    assert!(a.get_from_response(404, Some(&fields)).unwrap().is_none());
    assert!(a.get_from_response(200, None).unwrap().is_none());
    assert!(a.get_from_response(200, Some(&fields)).unwrap().is_some());
}

#[test]
fn vault_walk_takes_answers_by_status() {
    let a = vault();
    let mut walk = a.start_listing();
    let root = walk.next_path().unwrap();
    walk.record_answer(&root, 200, &vec!["web".to_string(), "apps/".to_string()]).unwrap();
    assert_eq!(walk.all_paths, vec!["web"]);
    assert_eq!(walk.to_process, vec!["apps"]);
    walk.record_answer("apps", 404, &vec!["ignored".to_string()]).unwrap();
    assert_eq!(walk.all_paths, vec!["web"]);
    assert_eq!(walk.to_process, vec!["apps"]);
    assert_eq!(
        backend_error(walk.record_answer("apps", 500, &vec!["ignored".to_string()])),
        "Vault answered with status 500"
    );
    assert_eq!(walk.all_paths, vec!["web"]);
    assert_eq!(walk.to_process, vec!["apps"]);
}

#[test]
fn credhub_answer_by_status() {
    let a = credhub();
    let good = CredHubValueResponse {
        credential_type: "certificate".to_string(),
        value: table(&[("certificate", text(LEAF_PEM))]),
    };
    assert!(a.get_from_response(200, Some(&good)).unwrap().is_some());
    assert!(a.get_from_response(404, Some(&good)).unwrap().is_none());
    assert_eq!(
        backend_error(a.get_from_response(401, Some(&good))),
        "CredHub answered with status 401"
    );
    assert_eq!(backend_error(a.get_from_response(500, None)), "CredHub answered with status 500");
}

#[test]
fn opsmgr_answer_by_status() {
    let a = opsmgr();
    let certificates = vec![ops_certificate(".b", LEAF_PEM)];
    assert!(a.get_from_response(200, Some(&certificates), ".b").unwrap().is_some());
    assert!(a.get_from_response(404, Some(&certificates), ".b").unwrap().is_none());
    assert!(a.get_from_response(200, None, ".b").unwrap().is_none());
    assert_eq!(
        backend_error(a.get_from_response(403, Some(&certificates), ".b")),
        "Ops Manager answered with status 403"
    );
    assert_eq!(
        backend_error(a.get_from_response(502, None, ".b")),
        "Ops Manager answered with status 502"
    );
    assert_eq!(OpsMgrAccessor::find_certificate(&certificates, ".b"), Some(LEAF_PEM));
    assert_eq!(OpsMgrAccessor::find_certificate(&certificates, ".c"), None);
    assert_eq!(
        OpsMgrAccessor::paths_from_response("cf", 200, Some(&certificates)).unwrap(),
        vec!["cf/.b"]
    );
    assert!(OpsMgrAccessor::paths_from_response("cf", 200, None).unwrap().is_empty());
    assert!(OpsMgrAccessor::paths_from_response("cf", 404, Some(&certificates)).unwrap().is_empty());
    assert_eq!(
        backend_error(OpsMgrAccessor::paths_from_response("cf", 500, Some(&certificates))),
        "Ops Manager answered with status 500"
    );
}

#[test]
fn probe_leaves_out_bytes_after_the_certificate() {
    let a = probe();
    let body: String = LEAF_PEM.lines().filter(|l| !l.starts_with("-----")).collect();
    let der = base64::engine::general_purpose::STANDARD.decode(body.clone()).unwrap();
    let mut longer = der.clone();
    longer.extend_from_slice(b"trailing bytes");
    let plain = a.get_from_peer(&vec![der]).unwrap().unwrap();
    let record = a.get_from_peer(&vec![longer]).unwrap().unwrap();
    assert_eq!(record.fingerprint_sha1, "ef2ab58f453b34ee12db4458f76a707a3bcae985");
    assert_eq!(record.fingerprint_sha256, plain.fingerprint_sha256);
    assert_eq!(record.pem_data, plain.pem_data);
}

#[test]
fn answers_without_success_are_errors() {
    let mut c = credhub();
    assert!(matches!(
        c.accept_token(401, Some(("t".to_string(), 60)), 0),
        Err(DoomsdayError::Auth(_))
    ));
    assert!(c.access_token.is_none());
    assert!(matches!(c.accept_token(200, None, 0), Err(DoomsdayError::Auth(_))));
    assert!(c.accept_token(201, Some(("t".to_string(), 60)), 0).is_ok());
    assert_eq!(
        backend_error(c.list_from_response(404, Some(&vec![]))),
        "Failed to list credentials from CredHub"
    );
    assert_eq!(
        backend_error(c.list_from_response(200, None)),
        "Failed to list credentials from CredHub"
    );
    let mut o = opsmgr();
    assert!(matches!(
        o.accept_token(403, Some(("t".to_string(), 60)), 0),
        Err(DoomsdayError::Auth(_))
    ));
    assert!(o.access_token.is_none());
    assert!(o.accept_token(200, Some(("t".to_string(), 60)), 0).is_ok());
    assert_eq!(
        backend_error(o.deployments_from_response(500, Some(vec![]))),
        "Failed to get deployments from Ops Manager"
    );
    assert!(o.deployments_from_response(200, Some(vec![])).unwrap().is_empty());
}
