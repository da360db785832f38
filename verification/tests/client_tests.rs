use doomsday_rs::cache::CacheStats;
use doomsday_rs::client::{
    backend_names, cache_url, dashboard_counts, endpoint, refresh_request, set_target, split,
    store_token, target_rows,
};
use doomsday_rs::config::ClientConfig;
use doomsday_rs::text::{is_space, trim};
use doomsday_rs::types::CacheItem;

const DAY: i64 = 86400;

fn item(not_after: i64) -> CacheItem {
    CacheItem { subject: "s".to_string(), not_after, paths: vec![] }
}

#[test]
fn addresses_of_the_server() {
    assert_eq!(endpoint("https://d", "/v1/info"), "https://d/v1/info");
    assert_eq!(cache_url("https://d", None, None), "https://d/v1/cache");
    assert_eq!(cache_url("https://d", Some("1d"), None), "https://d/v1/cache?beyond=1d");
    assert_eq!(cache_url("https://d", None, Some("2w")), "https://d/v1/cache?within=2w");
    assert_eq!(
        cache_url("https://d", Some("1d"), Some("2w")),
        "https://d/v1/cache?beyond=1d&within=2w"
    );
    assert_eq!(cache_url("", Some(""), Some("")), "/v1/cache?beyond=&within=");
}

#[test]
fn pieces_between_separators() {
    assert_eq!(split("a,b,c", ','), vec!["a", "b", "c"]);
    assert_eq!(split("", ','), vec![""]);
    assert_eq!(split(",", ','), vec!["", ""]);
    assert_eq!(split("a,,b,", ','), vec!["a", "", "b", ""]);
    assert_eq!(split("no separator", ','), vec!["no separator"]);
    assert_eq!(split("ä;ö", ';'), vec!["ä", "ö"]);
}

#[test]
fn names_in_a_list_of_backends() {
    assert_eq!(backend_names("vault,credhub"), vec!["vault", "credhub"]);
    assert_eq!(backend_names(" vault ,\tcredhub\n, ops mgr "), vec!["vault", "credhub", "ops mgr"]);
    assert_eq!(backend_names(""), vec![""]);
    assert_eq!(backend_names(" , "), vec!["", ""]);
    assert!(refresh_request(None).backends.is_none());
    assert_eq!(refresh_request(Some("a, b")).backends, Some(vec!["a".to_string(), "b".to_string()]));
}

#[test]
fn counts_on_the_dashboard() {
    let now = 1_000_000i64;
    let items = vec![
        item(now - DAY - 1),
        item(now - DAY),
        item(now - DAY + 1),
        item(now),
        item(now + 31 * DAY - 1),
        item(now + 31 * DAY),
        item(i64::MAX),
        item(i64::MIN),
    ];
    assert_eq!(
        dashboard_counts(&items, now),
        CacheStats { total: 8, ok: 2, expiring_soon: 3, expired: 3 }
    );
    assert_eq!(dashboard_counts(&vec![], now), CacheStats::new());
    let extreme = dashboard_counts(&vec![item(i64::MIN), item(i64::MAX)], i64::MAX);
    assert_eq!(extreme, CacheStats { total: 2, ok: 0, expiring_soon: 1, expired: 1 });
}

#[test]
fn targets_of_the_client() {
    let mut config = ClientConfig { targets: vec![], current_target: None };
    assert!(target_rows(&config).is_empty());
    set_target(&mut config, "dev", "http://dev", true);
    set_target(&mut config, "prod", "https://prod", false);
    assert_eq!(config.current_target.as_deref(), Some("prod"));
    assert_eq!(config.targets.len(), 2);
    let rows = target_rows(&config);
    assert_eq!(rows.len(), 2);
    assert_eq!(rows[0].name, "dev");
    assert_eq!(rows[0].address, "http://dev");
    assert_eq!(rows[0].current, "");
    assert_eq!(rows[0].skip_verify, "✓");
    assert_eq!(rows[1].name, "prod");
    assert_eq!(rows[1].current, "✓");
    assert_eq!(rows[1].skip_verify, "");
    store_token(&mut config, "dev", "tok".to_string(), 99);
    assert_eq!(config.targets[0].1.token.as_deref(), Some("tok"));
    assert_eq!(config.targets[0].1.token_expires, Some(99));
    assert!(config.targets[1].1.token.is_none());
    store_token(&mut config, "unknown", "x".to_string(), 1);
    assert!(config.targets[1].1.token.is_none());
    assert_eq!(config.current_target.as_deref(), Some("prod"));
    set_target(&mut config, "dev", "http://dev2", false);
    assert_eq!(config.targets.len(), 2);
    assert_eq!(config.targets[0].1.address, "http://dev2");
    assert!(config.targets[0].1.token.is_none());
    assert!(!config.targets[0].1.skip_verify);
    assert_eq!(config.current_target().unwrap().address, "http://dev2");
}

#[test]
fn white_space_is_what_the_standard_library_says() {
    let mut code: u32 = 0;
    while code <= 0x10FFFF {
        if let Some(c) = char::from_u32(code) {
            assert_eq!(is_space(c), c.is_whitespace(), "U+{:04X}", code);
        }
        code += 1;
    }
}

#[test]
fn trimming_takes_white_space_off_both_ends() {
    let samples = [
        "",
        " ",
        "a",
        "  a  ",
        "\t\n a b \r\n",
        "\u{00A0}x\u{3000}",
        "\u{2003}\u{2028}inner \u{0085} space\u{205F}\u{1680}",
        "a\u{200B}",
        "\u{FEFF}a ",
        " \u{180E} ",
        "no space",
        "   ",
    ];
    for sample in samples {
        assert_eq!(trim(sample), sample.trim(), "{:?}", sample);
    }
    assert_eq!(trim("  a b  "), "a b");
    assert_eq!(trim("\u{3000}"), "");
}
