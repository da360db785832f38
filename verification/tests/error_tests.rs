use doomsday_rs::text;
use doomsday_rs::text::{
    chars_of, decimal_chars, decimal_string, ends_with, split_once, str_eq, string_of,
    string_of_range, trim_end, trim_start,
};
use doomsday_rs::types::{
    clone_paths, clone_strings, clone_text, PathObject, Task, TaskInfo, TaskStatus,
};
use doomsday_rs::version::{version, version_of, VERSION};
use doomsday_rs::DoomsdayError;

#[test]
fn error_of_each_kind() {
    assert!(matches!(DoomsdayError::x509("m"), DoomsdayError::X509(m) if m == "m"));
    assert!(matches!(DoomsdayError::auth("m"), DoomsdayError::Auth(m) if m == "m"));
    assert!(matches!(DoomsdayError::backend("m"), DoomsdayError::Backend(m) if m == "m"));
    assert!(matches!(DoomsdayError::config("m"), DoomsdayError::Config(m) if m == "m"));
    assert!(matches!(DoomsdayError::cache("m"), DoomsdayError::Cache(m) if m == "m"));
    assert!(matches!(DoomsdayError::scheduler("m"), DoomsdayError::Scheduler(m) if m == "m"));
    assert!(matches!(DoomsdayError::not_found("m"), DoomsdayError::NotFound(m) if m == "m"));
    assert!(matches!(
        DoomsdayError::permission_denied("m"),
        DoomsdayError::PermissionDenied(m) if m == "m"
    ));
    assert!(matches!(DoomsdayError::invalid_input("m"), DoomsdayError::InvalidInput(m) if m == "m"));
    assert!(matches!(DoomsdayError::internal(""), DoomsdayError::Internal(m) if m.is_empty()));
}

#[test]
fn error_messages() {
    let cases = [
        (DoomsdayError::Io("x".to_string()), "IO error: x"),
        (DoomsdayError::SerdeJson("x".to_string()), "Serialization error: x"),
        (DoomsdayError::SerdeYaml("x".to_string()), "YAML error: x"),
        (DoomsdayError::Reqwest("x".to_string()), "HTTP error: x"),
        (DoomsdayError::Rustls("x".to_string()), "TLS error: x"),
        (DoomsdayError::x509("x"), "X509 parsing error: x"),
        (DoomsdayError::auth("x"), "Authentication error: x"),
        (DoomsdayError::backend("x"), "Backend error: x"),
        (DoomsdayError::config("x"), "Configuration error: x"),
        (DoomsdayError::cache("x"), "Cache error: x"),
        (DoomsdayError::scheduler("x"), "Scheduler error: x"),
        (DoomsdayError::not_found("x"), "Not found: x"),
        (DoomsdayError::permission_denied("x"), "Permission denied: x"),
        (DoomsdayError::invalid_input("x"), "Invalid input: x"),
        (DoomsdayError::internal("x"), "Internal error: x"),
    ];
    for (error, expected) in cases {
        assert_eq!(error.message(), expected);
    }
    assert_eq!(DoomsdayError::internal("").message(), "Internal error: ");
}

#[test]
fn error_statuses() {
    assert_eq!(DoomsdayError::auth("x").http_status(), 401);
    assert_eq!(DoomsdayError::not_found("x").http_status(), 404);
    assert_eq!(DoomsdayError::config("x").http_status(), 400);
    assert_eq!(DoomsdayError::invalid_input("x").http_status(), 400);
    for other in [
        DoomsdayError::Io(String::new()),
        DoomsdayError::SerdeJson(String::new()),
        DoomsdayError::SerdeYaml(String::new()),
        DoomsdayError::Reqwest(String::new()),
        DoomsdayError::Rustls(String::new()),
        DoomsdayError::x509("x"),
        DoomsdayError::backend("x"),
        DoomsdayError::cache("x"),
        DoomsdayError::scheduler("x"),
        DoomsdayError::permission_denied("x"),
        DoomsdayError::internal("x"),
    ] {
        assert_eq!(other.http_status(), 500);
    }
}

#[test]
fn versions() {
    assert_eq!(VERSION, "0.1.0");
    assert_eq!(version(), "0.1.0-unknown");
    assert_eq!(version_of("abc1234", false), "0.1.0-abc1234");
    assert_eq!(version_of("abc1234", true), "0.1.0-abc1234+");
    assert_eq!(version_of("", true), "0.1.0-+");
}

#[test]
fn decimal_numerals() {
    assert_eq!(decimal_string(0), "0");
    assert_eq!(decimal_string(7), "7");
    assert_eq!(decimal_string(10), "10");
    assert_eq!(decimal_string(1234567890), "1234567890");
    assert_eq!(decimal_string(u64::MAX), "18446744073709551615");
    assert_eq!(decimal_chars(405), vec!['4', '0', '5']);
}

#[test]
fn strings_and_characters() {
    assert_eq!(chars_of("aä€"), vec!['a', 'ä', '€']);
    assert!(chars_of("").is_empty());
    assert_eq!(string_of(&vec!['x', 'ÿ']), "xÿ");
    assert_eq!(string_of_range(&vec!['a', 'b', 'c', 'd'], 1, 3), "bc");
    assert_eq!(string_of_range(&vec!['a'], 1, 1), "");
    assert_eq!(text::concat("ab", "cd"), "abcd");
    assert_eq!(text::concat("", ""), "");
    assert_eq!(text::concat3("a", "", "c"), "ac");
    assert!(str_eq("same", "same"));
    assert!(!str_eq("same", "Same"));
    assert!(!str_eq("a", "ab"));
    assert!(str_eq("", ""));
}

#[test]
fn trimming_and_splitting() {
    assert_eq!(trim_end("a/b///", '/'), "a/b");
    assert_eq!(trim_end("///", '/'), "");
    assert_eq!(trim_end("", '/'), "");
    assert_eq!(trim_end("/a", '/'), "/a");
    assert_eq!(trim_start("///a/b/", '/'), "a/b/");
    assert_eq!(trim_start("a/", '/'), "a/");
    assert_eq!(trim_start("//", '/'), "");
    assert!(ends_with("dir/", '/'));
    assert!(!ends_with("file", '/'));
    assert!(!ends_with("", '/'));
    assert!(ends_with("é", 'é'));
    assert_eq!(split_once("a:b:c", ':'), Some(("a".to_string(), "b:c".to_string())));
    assert_eq!(split_once(":", ':'), Some((String::new(), String::new())));
    assert_eq!(split_once("abc", ':'), None);
    assert_eq!(split_once("ä/ö", '/'), Some(("ä".to_string(), "ö".to_string())));
}

#[test]
fn copies_are_equal() {
    let paths = vec![
        PathObject { backend: "a".to_string(), path: "/1".to_string() },
        PathObject { backend: "b".to_string(), path: "/2".to_string() },
    ];
    let copy = clone_paths(&paths);
    assert_eq!(copy.len(), 2);
    assert_eq!(copy[1].backend, "b");
    assert_eq!(copy[1].path, "/2");
    assert_eq!(paths[0].clone().path, "/1");
    assert_eq!(clone_strings(&vec!["x".to_string(), "y".to_string()]), vec!["x", "y"]);
    assert_eq!(clone_text(&Some("t".to_string())), Some("t".to_string()));
    assert_eq!(clone_text(&None), None);
    let info = TaskInfo {
        id: "id".to_string(),
        task: Task::RenewAuthToken { backend_name: "b".to_string() },
        created_at: 1,
        started_at: Some(2),
        completed_at: None,
        status: TaskStatus::Running,
        error: Some("e".to_string()),
    };
    let copy = info.clone();
    assert_eq!(copy.id, "id");
    assert!(matches!(copy.task, Task::RenewAuthToken { backend_name } if backend_name == "b"));
    assert_eq!(copy.started_at, Some(2));
    assert_eq!(copy.status, TaskStatus::Running);
    assert_eq!(copy.error.as_deref(), Some("e"));
}
