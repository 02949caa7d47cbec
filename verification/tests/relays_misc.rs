use nau::image_cache::url_to_key;
use nau::migration::{classify_cache_file, CacheFileKind};
use nau::relays::{
    all_relays, discover_relay_urls, editable_from_policy, parsed_relay_urls, policy_of, relay_list_entries, relay_list_tags,
    relays_to_connect, startup_relays, write_relays,
    trim_whitespace, EditableRelay, RelayPolicy,
};
use nau::text::{split_chars, to_hex_lower, trim_matches, u64_to_decimal};
use nau::types::{AppTab, AppTheme, Cache, CacheError, ImageKind, RelayConfig, Rgba, CACHE_TTL_SECONDS};

const PK: &str = "b889ff5b1513b641e2a139f661a661364979c5beee91842f8f0ef42ab558e9d4";

fn strings(v: &[&str]) -> Vec<String> {
    v.iter().map(|s| s.to_string()).collect()
}

fn chars(s: &str) -> Vec<char> {
    s.chars().collect()
}

#[test]
fn markers_become_flags_and_back() {
    let r = editable_from_policy("wss://a".to_string(), Some("read"));
    assert!(r.read && !r.write);
    assert_eq!(policy_of(&r), Some(RelayPolicy::Read));
    let w = editable_from_policy("wss://a".to_string(), Some("write"));
    assert!(!w.read && w.write);
    assert_eq!(policy_of(&w), Some(RelayPolicy::Write));
    let both = editable_from_policy("wss://a".to_string(), None);
    assert!(both.read && both.write);
    assert_eq!(policy_of(&both), None);
    let odd = editable_from_policy("wss://a".to_string(), Some("READ"));
    assert!(odd.read && odd.write);
    let neither = EditableRelay { url: "wss://a".to_string(), read: false, write: false };
    assert_eq!(policy_of(&neither), None);
}

#[test]
fn relay_list_skips_blank_and_invalid_rows() {
    let rows = vec![
        EditableRelay { url: "wss://relay.damus.io".to_string(), read: true, write: true },
        EditableRelay { url: "   ".to_string(), read: true, write: true },
        EditableRelay { url: "wss://yabu.me".to_string(), read: true, write: false },
        EditableRelay { url: "https://not-a-relay".to_string(), read: true, write: true },
        EditableRelay { url: "wss://w.example/".to_string(), read: false, write: true },
    ];
    let tags = relay_list_tags(&rows);
    assert_eq!(
        tags,
        vec![
            strings(&["r", "wss://relay.damus.io"]),
            strings(&["r", "wss://yabu.me", "read"]),
            strings(&["r", "wss://w.example/", "write"]),
        ]
    );
}

#[test]
fn discovery_relays_one_per_line() {
    let urls = discover_relay_urls("  wss://a.example \n\n\twss://b.example\n   \nwss://c");
    assert_eq!(urls, strings(&["wss://a.example", "wss://b.example", "wss://c"]));
    assert!(discover_relay_urls("").is_empty());
}

#[test]
fn every_relay_once() {
    let config = RelayConfig {
        aggregator: strings(&["wss://a", "wss://b"]),
        self_hosted: strings(&["wss://b", "wss://c"]),
        search: strings(&["wss://a", "wss://d"]),
    };
    let mut all = all_relays(&config);
    all.sort();
    assert_eq!(all, strings(&["wss://a", "wss://b", "wss://c", "wss://d"]));
}

#[test]
fn startup_configuration() {
    let stored = RelayConfig { aggregator: vec![], self_hosted: strings(&["wss://mine"]), search: vec![] };
    let c = startup_relays(&stored);
    assert_eq!(c.aggregator, strings(&["wss://yabu.me"]));
    assert_eq!(c.search, strings(&["wss://search.nos.today"]));
    assert_eq!(c.self_hosted, strings(&["wss://mine"]));
}

#[test]
fn trims_unicode_whitespace() {
    assert_eq!(trim_whitespace(&chars("\u{3000} abc \t")), chars("abc"));
    assert_eq!(trim_whitespace(&chars("   ")), Vec::<char>::new());
}

#[test]
fn old_cache_files_are_recognised() {
    let followed = format!("{}_followed.json", PK);
    assert_eq!(classify_cache_file(&followed), Some((PK.to_string(), CacheFileKind::Followed)));
    let profile = format!("{}_profile.json", PK);
    assert_eq!(classify_cache_file(&profile), Some((PK.to_string(), CacheFileKind::Profile)));
    let other = format!("{}_timeline.json", PK);
    assert_eq!(classify_cache_file(&other), Some((PK.to_string(), CacheFileKind::Other)));
    let prefixed = format!("x{}_profile.json", PK);
    assert_eq!(classify_cache_file(&prefixed), Some((PK.to_string(), CacheFileKind::Profile)));
    assert_eq!(classify_cache_file("short_profile.json"), None);
    assert_eq!(classify_cache_file(&format!("{}_profile.txt", PK)), None);
    assert_eq!(classify_cache_file(&format!("{}_profile.json", PK.to_uppercase())), None);
}

#[test]
fn image_keys_are_sha256_hex() {
    assert_eq!(url_to_key("abc"), "ba7816bf8f01cfea414140de5dae2223b00361a396177a9cb410ff61f20015ad");
    assert_eq!(url_to_key(""), "e3b0c44298fc1c149afbf4c8996fb92427ae41e4649b934ca495991b7852b855");
    assert_eq!(url_to_key("https://example.com/a.png").len(), 64);
}

#[test]
fn tabs_and_theme() {
    assert!(AppTab::Home.is_available(false));
    assert!(!AppTab::Wallet.is_available(false));
    assert!(AppTab::Profile.is_available(true));
    assert!(AppTab::Relays.is_available(true));
    assert!(!AppTab::Relays.is_available(false));
    assert_eq!(AppTheme::Light.toggled(), AppTheme::Dark);
    assert_eq!(AppTheme::Dark.toggled(), AppTheme::Light);
    assert_eq!(AppTheme::Light.text_color(), Rgba { r: 0, g: 0, b: 0, a: 255 });
    assert_eq!(AppTheme::Dark.card_background_color(), Rgba { r: 44, g: 44, b: 46, a: 255 });
    assert_eq!(AppTheme::Light.card_background_color(), Rgba { r: 250, g: 250, b: 250, a: 250 });
    assert_eq!(AppTheme::Dark.danger_zone_stroke_color(), Rgba { r: 120, g: 60, b: 60, a: 255 });
    assert_eq!(AppTheme::Light.danger_zone_background_color(), Rgba { r: 255, g: 235, b: 238, a: 255 });
    assert_eq!(
        AppTheme::Dark.quote_colors(),
        (Rgba { r: 30, g: 30, b: 32, a: 255 }, Rgba { r: 60, g: 60, b: 62, a: 255 })
    );
    assert_eq!(ImageKind::Avatar.thumbnail_size(), (32, 32));
    assert_eq!(ImageKind::Emoji.thumbnail_size(), (20, 20));
    assert_eq!(ImageKind::ProfilePicture.thumbnail_size(), (100, 100));
}

#[test]
fn cache_entries_expire_after_a_day() {
    let c = Cache::new_at(7u32, 1_000);
    assert!(!c.is_expired_at(1_000));
    assert!(!c.is_expired_at(1_000 + CACHE_TTL_SECONDS));
    assert!(c.is_expired_at(1_000 + CACHE_TTL_SECONDS + 1));
    assert_eq!(Cache::new_at(1u8, 0).fresh_at(CACHE_TTL_SECONDS + 1).err(), Some(CacheError::Expired));
    let fresh = Cache::new_at(3u8, 10).fresh_at(20).ok().unwrap();
    assert_eq!((fresh.timestamp, fresh.data), (10, 3));
    assert!(!Cache::new(0u8).is_expired());
    assert!(Cache::new_at(0u8, i64::MIN).is_expired_at(i64::MAX));
}

#[test]
fn text_helpers() {
    assert_eq!(to_hex_lower(&[0x00, 0xab, 0xff]), "00abff");
    assert_eq!(u64_to_decimal(0), "0");
    assert_eq!(u64_to_decimal(u64::MAX), "18446744073709551615");
    assert_eq!(split_chars(&chars("a@b@"), '@'), vec![chars("a"), chars("b"), chars("")]);
    assert_eq!(trim_matches(&chars("\"quoted\""), '"'), chars("quoted"));
}

#[test]
fn relays_that_parse_are_kept_in_order() {
    let urls = strings(&["wss://yabu.me", "https://x.example", "wss://a.example/", "not a url"]);
    assert_eq!(parsed_relay_urls(&urls), strings(&["wss://yabu.me", "wss://a.example/"]));
}

#[test]
fn theme_toggles_back() {
    assert_eq!(AppTheme::Light.toggled().toggled(), AppTheme::Light);
}

#[test]
fn published_relay_list_reads_back() {
    let rows = vec![
        EditableRelay { url: "wss://relay.damus.io".to_string(), read: true, write: true },
        EditableRelay { url: "wss://yabu.me".to_string(), read: true, write: false },
        EditableRelay { url: "".to_string(), read: true, write: false },
        EditableRelay { url: "wss://w.example".to_string(), read: false, write: true },
    ];
    let entries = relay_list_entries(&relay_list_tags(&rows));
    assert_eq!(
        entries,
        vec![
            ("wss://relay.damus.io".to_string(), None),
            ("wss://yabu.me".to_string(), Some("read".to_string())),
            ("wss://w.example".to_string(), Some("write".to_string())),
        ]
    );
    let back: Vec<(bool, bool)> = entries
        .iter()
        .map(|(u, m)| editable_from_policy(u.clone(), m.as_deref()))
        .map(|r| (r.read, r.write))
        .collect();
    assert_eq!(back, vec![(true, true), (true, false), (false, true)]);
    let other = vec![strings(&["p", PK]), strings(&["r"]), strings(&["r", "wss://x", "read", "extra"])];
    assert_eq!(relay_list_entries(&other), vec![("wss://x".to_string(), Some("read".to_string()))]);
}

#[test]
fn login_relays_fall_back_to_defaults() {
    let defaults = strings(&["wss://yabu.me"]);
    assert_eq!(relays_to_connect(&vec![], &defaults), defaults);
    let listed = vec![("wss://a".to_string(), None), ("wss://b".to_string(), Some("write".to_string()))];
    assert_eq!(relays_to_connect(&listed, &defaults), strings(&["wss://a", "wss://b"]));
}

#[test]
fn statuses_are_looked_up_where_authors_write() {
    let entries = vec![
        ("wss://a".to_string(), None),
        ("wss://r".to_string(), Some("read".to_string())),
        ("wss://w".to_string(), Some("write".to_string())),
        ("wss://a".to_string(), Some("write".to_string())),
        ("wss://odd".to_string(), Some("other".to_string())),
    ];
    let mut urls = write_relays(&entries);
    urls.sort();
    assert_eq!(urls, strings(&["wss://a", "wss://odd", "wss://w"]));
    assert!(write_relays(&vec![]).is_empty());
}
