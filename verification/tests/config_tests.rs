use doomsday_rs::config::{
    get_property, get_text, is_known_auth_type, is_known_backend_type, require_text, AuthConfig,
    BackendConfig, ClientConfig, ClientTarget, Config, PropertyValue, ServerConfig,
};
use doomsday_rs::DoomsdayError;

fn backend(kind: &str, name: &str) -> BackendConfig {
    BackendConfig {
        backend_type: kind.to_string(),
        name: name.to_string(),
        refresh_interval: None,
        properties: vec![],
    }
}

fn config(backends: Vec<BackendConfig>, auth: &str) -> Config {
    Config {
        backends,
        server: ServerConfig {
            port: 1,
            tls: None,
            auth: AuthConfig { auth_type: auth.to_string(), properties: vec![] },
        },
        notifications: None,
    }
}

fn fault(c: &Config) -> String {
    match c.validate() {
        Err(DoomsdayError::Config(m)) => m,
        other => panic!("expected a configuration error, got {:?}", other),
    }
}

#[test]
fn default_configuration() {
    let c = Config::default();
    assert!(c.backends.is_empty());
    assert_eq!(c.server.port, 8111);
    assert!(c.server.tls.is_none());
    assert_eq!(c.server.auth.auth_type, "none");
    assert!(c.server.auth.properties.is_empty());
    assert!(c.notifications.is_none());
    assert_eq!(fault(&c), "At least one backend must be configured");
}

#[test]
fn valid_configurations() {
    for kind in ["vault", "credhub", "opsmgr", "tlsclient"] {
        for auth in ["none", "userpass"] {
            assert!(config(vec![backend(kind, "b")], auth).validate().is_ok());
        }
    }
    assert!(config(
        vec![backend("vault", "one"), backend("credhub", "two"), backend("vault", "one")],
        "none"
    )
    .validate()
    .is_ok());
}

#[test]
fn invalid_configurations() {
    assert_eq!(fault(&config(vec![], "none")), "At least one backend must be configured");
    assert_eq!(fault(&config(vec![], "bogus")), "At least one backend must be configured");
    assert_eq!(fault(&config(vec![backend("vault", "")], "none")), "Backend name cannot be empty");
    assert_eq!(fault(&config(vec![backend("bogus", "")], "none")), "Backend name cannot be empty");
    assert_eq!(
        fault(&config(vec![backend("consul", "c")], "none")),
        "Unknown backend type: consul"
    );
    assert_eq!(fault(&config(vec![backend("", "c")], "none")), "Unknown backend type: ");
    assert_eq!(fault(&config(vec![backend("Vault", "c")], "none")), "Unknown backend type: Vault");
    assert_eq!(
        fault(&config(vec![backend("vault", "ok"), backend("x", "first"), backend("vault", "")], "none")),
        "Unknown backend type: x"
    );
    assert_eq!(
        fault(&config(vec![backend("vault", "ok"), backend("vault", ""), backend("x", "later")], "z")),
        "Backend name cannot be empty"
    );
    assert_eq!(fault(&config(vec![backend("vault", "ok")], "ldap")), "Unknown auth type: ldap");
    assert_eq!(fault(&config(vec![backend("vault", "ok")], "")), "Unknown auth type: ");
}

#[test]
fn known_types() {
    assert!(is_known_backend_type("vault"));
    assert!(is_known_backend_type("tlsclient"));
    assert!(!is_known_backend_type("vault "));
    assert!(!is_known_backend_type("none"));
    assert!(is_known_auth_type("none"));
    assert!(is_known_auth_type("userpass"));
    assert!(!is_known_auth_type("vault"));
}

#[test]
fn property_values() {
    let s = PropertyValue::String("x".to_string());
    assert_eq!(s.as_str(), Some("x"));
    assert_eq!(s.as_u64(), None);
    assert_eq!(s.as_bool(), None);
    assert!(s.as_sequence().is_none());
    assert!(s.as_mapping().is_none());
    assert!(s.get("x").is_none());
    assert_eq!(PropertyValue::Integer(7).as_u64(), Some(7));
    assert_eq!(PropertyValue::Integer(7).as_str(), None);
    assert_eq!(PropertyValue::Bool(true).as_bool(), Some(true));
    assert_eq!(PropertyValue::Other.as_bool(), None);
    let list = PropertyValue::Sequence(vec![PropertyValue::Integer(1), PropertyValue::Other]);
    assert_eq!(list.as_sequence().unwrap().len(), 2);
    assert!(list.get("0").is_none());
    let table = PropertyValue::Mapping(vec![
        (PropertyValue::Integer(1), PropertyValue::String("number key".to_string())),
        (PropertyValue::String("a".to_string()), PropertyValue::Integer(1)),
        (PropertyValue::String("b".to_string()), PropertyValue::String("text".to_string())),
        (PropertyValue::String("a".to_string()), PropertyValue::Integer(2)),
    ]);
    assert_eq!(table.as_mapping().unwrap().len(), 4);
    assert_eq!(table.get("a").unwrap().as_u64(), Some(1));
    assert_eq!(table.get_text("b"), Some("text"));
    assert_eq!(table.get_text("a"), None);
    assert!(table.get("1").is_none());
    assert!(table.get("c").is_none());
}

#[test]
fn property_lookup() {
    let props = vec![
        ("a".to_string(), PropertyValue::Integer(1)),
        ("b".to_string(), PropertyValue::String("first".to_string())),
        ("b".to_string(), PropertyValue::String("second".to_string())),
    ];
    assert_eq!(get_property(&props, "a").unwrap().as_u64(), Some(1));
    assert_eq!(get_text(&props, "b"), Some("first"));
    assert_eq!(get_text(&props, "a"), None);
    assert!(get_property(&props, "c").is_none());
    assert!(get_property(&props, "").is_none());
    assert_eq!(require_text(&props, "b", "b is missing").unwrap(), "first");
    match require_text(&props, "a", "a is missing") {
        Err(DoomsdayError::Config(m)) => assert_eq!(m, "a is missing"),
        other => panic!("unexpected {:?}", other),
    }
    assert!(require_text(&vec![], "b", "none").is_err());
}

fn target(name: &str, address: &str) -> (String, ClientTarget) {
    (
        name.to_string(),
        ClientTarget {
            name: name.to_string(),
            address: address.to_string(),
            skip_verify: false,
            token: None,
            token_expires: None,
        },
    )
}

#[test]
fn current_target_of_the_client() {
    let mut c = ClientConfig {
        targets: vec![target("dev", "http://dev"), target("prod", "https://prod"), target("dev", "x")],
        current_target: None,
    };
    assert!(c.current_target().is_none());
    c.current_target = Some("prod".to_string());
    assert_eq!(c.current_target().unwrap().address, "https://prod");
    c.current_target = Some("dev".to_string());
    assert_eq!(c.current_target().unwrap().address, "http://dev");
    c.current_target = Some("staging".to_string());
    assert!(c.current_target().is_none());
    let empty = ClientConfig { targets: vec![], current_target: Some("dev".to_string()) };
    assert!(empty.current_target().is_none());
}
