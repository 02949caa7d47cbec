use nau::emoji_loader::{
    handle_relay_message, new_subscription_id, pointer_filter_lists, process_event, subscription_id_for,
    EmojiDiscovery, EmojiFetch, EventPointer, FetchStep, RawNostrEvent, RelayMessage,
};
use nau::emoji_map::EmojiMap;
use nau::timeline::{
    build_timeline, followed_pubkeys, missing_authors, profile_for, quoted_posts, sort_newest_first, AuthorProfile,
    NoteEvent,
};
use nau::types::{ProfileMetadata, ZapReceipt};

const PK: &str = "b889ff5b1513b641e2a139f661a661364979c5beee91842f8f0ef42ab558e9d4";
const PK2: &str = "32e1827635450ebb3c5a7d12c1f8e7b2b514439ac10a67eef3d9fd9c5c68e245";

fn tag(parts: &[&str]) -> Vec<String> {
    parts.iter().map(|s| s.to_string()).collect()
}

fn profile(name: &str) -> ProfileMetadata {
    let mut p = ProfileMetadata::empty();
    p.name = name.to_string();
    p
}

#[test]
fn emoji_map_insert_and_get() {
    let mut m = EmojiMap::new();
    assert!(m.is_empty());
    m.insert("smile".to_string(), "https://a/1.png".to_string());
    m.insert("wave".to_string(), "https://a/2.png".to_string());
    m.insert("smile".to_string(), "https://a/3.png".to_string());
    assert_eq!(m.len(), 2);
    assert_eq!(m.get("smile").as_deref(), Some("https://a/3.png"));
    assert_eq!(m.get("wave").as_deref(), Some("https://a/2.png"));
    assert_eq!(m.get("nope"), None);
    assert!(m.contains_key("wave"));
}

#[test]
fn emoji_map_from_pairs_later_wins_and_extend() {
    let pairs = vec![
        ("a".to_string(), "1".to_string()),
        ("b".to_string(), "2".to_string()),
        ("a".to_string(), "3".to_string()),
    ];
    let mut m = EmojiMap::from_pairs(&pairs);
    assert_eq!(m.get("a").as_deref(), Some("3"));
    assert_eq!(m.len(), 2);
    let other = EmojiMap::from_pairs(&vec![("b".to_string(), "9".to_string()), ("c".to_string(), "4".to_string())]);
    m.extend(&other);
    assert_eq!(m.get("b").as_deref(), Some("9"));
    assert_eq!(m.get("c").as_deref(), Some("4"));
    assert_eq!(m.to_pairs().len(), 3);
}

#[test]
fn emoji_set_event_contributes_its_emojis() {
    let event = RawNostrEvent {
        kind: 30030,
        tags: vec![
            tag(&["d", "my set"]),
            tag(&["emoji", ":smile:", "https://e/smile.png"]),
            tag(&["emoji", "::", "https://e/empty.png"]),
            tag(&["emoji", "wave"]),
            tag(&["emoji", "wave", "https://e/wave.png"]),
        ],
    };
    let mut acc = EmojiFetch::new();
    process_event(&event, &mut acc);
    assert_eq!(acc.emojis.len(), 2);
    assert_eq!(acc.emojis.get("smile").as_deref(), Some("https://e/smile.png"));
    assert_eq!(acc.emojis.get("wave").as_deref(), Some("https://e/wave.png"));
    assert!(acc.pointers.is_empty());
}

#[test]
fn emoji_list_with_d_tag_is_read_as_emojis() {
    let event = RawNostrEvent {
        kind: 10030,
        tags: vec![tag(&["emoji", "cat", "https://e/cat.png"]), tag(&["d", "emojis"]), tag(&["a", "30030:x:y"])],
    };
    let mut acc = EmojiFetch::new();
    process_event(&event, &mut acc);
    assert_eq!(acc.emojis.get("cat").as_deref(), Some("https://e/cat.png"));
    assert!(acc.pointers.is_empty());
}

#[test]
fn pointer_list_yields_pointers() {
    let event = RawNostrEvent {
        kind: 10030,
        tags: vec![
            tag(&["a", &format!("30030:{}:blobs", PK)]),
            tag(&["a", &format!("30030:{}:a:b", PK)]),
            tag(&["a", "30030:nothex:x"]),
            tag(&["a", &format!("1:{}:x", PK)]),
            tag(&["emoji", "ignored", "https://e/i.png"]),
        ],
    };
    let mut acc = EmojiFetch::new();
    process_event(&event, &mut acc);
    assert!(acc.emojis.is_empty());
    assert_eq!(acc.pointers.len(), 1);
    assert_eq!(acc.pointers[0].pubkey, PK);
    assert_eq!(acc.pointers[0].d_identifier, "blobs");
}

#[test]
fn other_kinds_are_ignored() {
    let event = RawNostrEvent { kind: 1, tags: vec![tag(&["emoji", "x", "https://e/x.png"])] };
    let mut acc = EmojiFetch::new();
    process_event(&event, &mut acc);
    assert!(acc.emojis.is_empty());
}

#[test]
fn relay_messages_of_the_subscription() {
    let mut acc = EmojiFetch::new();
    let other = RelayMessage::Event {
        subscription_id: "someone-else".to_string(),
        event: RawNostrEvent { kind: 30030, tags: vec![tag(&["emoji", "x", "https://e/x.png"])] },
    };
    assert_eq!(handle_relay_message("emoji-fetch-7", &other, &mut acc), FetchStep::Continue);
    assert!(acc.emojis.is_empty());
    let mine = RelayMessage::Event {
        subscription_id: "emoji-fetch-7".to_string(),
        event: RawNostrEvent { kind: 30030, tags: vec![tag(&["emoji", "x", "https://e/x.png"])] },
    };
    assert_eq!(handle_relay_message("emoji-fetch-7", &mine, &mut acc), FetchStep::Continue);
    assert_eq!(acc.emojis.get("x").as_deref(), Some("https://e/x.png"));
    let eose_other = RelayMessage::EndOfStoredEvents { subscription_id: "zzz".to_string() };
    assert_eq!(handle_relay_message("emoji-fetch-7", &eose_other, &mut acc), FetchStep::Continue);
    let eose = RelayMessage::EndOfStoredEvents { subscription_id: "emoji-fetch-7".to_string() };
    assert_eq!(handle_relay_message("emoji-fetch-7", &eose, &mut acc), FetchStep::Stop);
    assert_eq!(handle_relay_message("emoji-fetch-7", &RelayMessage::Other, &mut acc), FetchStep::Continue);
}

#[test]
fn subscription_ids() {
    assert_eq!(subscription_id_for(0), "emoji-fetch-0");
    assert_eq!(subscription_id_for(4294967295), "emoji-fetch-4294967295");
    assert!(new_subscription_id().starts_with("emoji-fetch-"));
}

#[test]
fn discovery_merges_relays() {
    let mut d = EmojiDiscovery::new();
    let mut a = EmojiFetch::new();
    a.emojis.insert("x".to_string(), "1".to_string());
    a.pointers.push(EventPointer { pubkey: PK.to_string(), d_identifier: "s".to_string() });
    a.pointers.push(EventPointer { pubkey: PK.to_string(), d_identifier: "s".to_string() });
    let mut b = EmojiFetch::new();
    b.emojis.insert("x".to_string(), "2".to_string());
    b.pointers.push(EventPointer { pubkey: PK.to_string(), d_identifier: "s".to_string() });
    b.pointers.push(EventPointer { pubkey: PK2.to_string(), d_identifier: "t".to_string() });
    d.absorb(a);
    d.absorb(b);
    assert_eq!(d.emojis.get("x").as_deref(), Some("2"));
    assert_eq!(d.pointers.len(), 2);
    let (authors, ids) = pointer_filter_lists(&d.pointers);
    assert_eq!(authors, vec![PK.to_string(), PK2.to_string()]);
    assert_eq!(ids, vec!["s".to_string(), "t".to_string()]);
}

fn note(id: &str, pubkey: &str, created_at: u64, tags: Vec<Vec<String>>) -> NoteEvent {
    NoteEvent {
        id: id.to_string(),
        kind: 1,
        pubkey: pubkey.to_string(),
        content: format!("note {}", id),
        created_at,
        tags,
    }
}

#[test]
fn sort_is_newest_first_and_stable() {
    let events = vec![note("a", PK, 5, vec![]), note("b", PK, 9, vec![]), note("c", PK, 5, vec![]), note("d", PK, 7, vec![])];
    let sorted = sort_newest_first(events);
    let ids: Vec<&str> = sorted.iter().map(|e| e.id.as_str()).collect();
    assert_eq!(ids, vec!["b", "d", "a", "c"]);
}

#[test]
fn zap_history_is_sorted_newest_first() {
    let z = |id: &str, t: u64| ZapReceipt {
        id: id.to_string(),
        zapper_pubkey: None,
        recipient_pubkey: PK.to_string(),
        recipient_metadata: ProfileMetadata::empty(),
        amount_msats: 1000,
        created_at: t,
        note: String::new(),
        zapped_event_id: None,
    };
    let sorted = sort_newest_first(vec![z("a", 1), z("b", 3), z("c", 2)]);
    let ids: Vec<&str> = sorted.iter().map(|e| e.id.as_str()).collect();
    assert_eq!(ids, vec!["b", "c", "a"]);
}

#[test]
fn profiles_later_replace_earlier() {
    let profiles = vec![
        AuthorProfile { pubkey: PK.to_string(), metadata: profile("old") },
        AuthorProfile { pubkey: PK2.to_string(), metadata: profile("other") },
        AuthorProfile { pubkey: PK.to_string(), metadata: profile("new") },
    ];
    assert_eq!(profile_for(&profiles, PK).name, "new");
    assert_eq!(profile_for(&profiles, PK2).name, "other");
    assert_eq!(profile_for(&profiles, "unknown").name, "");
}

#[test]
fn timeline_is_built_with_profiles_and_emojis() {
    let profiles = vec![AuthorProfile { pubkey: PK.to_string(), metadata: profile("alice") }];
    let events = vec![
        note("a", PK, 1, vec![tag(&["emoji", "blob", "https://e.example/blob.png"]), tag(&["emoji", "bad", "not a url"])]),
        note("b", PK2, 2, vec![]),
    ];
    let posts = build_timeline(events, &profiles, true);
    assert_eq!(posts.len(), 2);
    assert_eq!(posts[0].id, "b");
    assert_eq!(posts[0].author_metadata.name, "");
    assert_eq!(posts[1].id, "a");
    assert_eq!(posts[1].author_metadata.name, "alice");
    assert_eq!(posts[1].emojis.get("blob").as_deref(), Some("https://e.example/blob.png"));
    assert_eq!(posts[1].emojis.get("bad"), None);
    assert_eq!(posts[1].content, "note a");
}

#[test]
fn search_results_have_no_emojis() {
    let events = vec![note("a", PK, 1, vec![tag(&["emoji", "blob", "https://e.example/blob.png"])])];
    let posts = build_timeline(events, &vec![], false);
    assert!(posts[0].emojis.is_empty());
}

#[test]
fn contact_list_follows_distinct_keys() {
    let tags = vec![tag(&["p", PK]), tag(&["p", PK2, "wss://r.example"]), tag(&["p", PK]), tag(&["p", "zz"]), tag(&["e", PK])];
    let keys = followed_pubkeys(&tags);
    assert_eq!(keys, vec![PK.to_string(), PK2.to_string()]);
}

#[test]
fn missing_authors_are_distinct_and_unknown() {
    let events = vec![note("a", PK, 1, vec![]), note("b", PK2, 2, vec![]), note("c", PK, 3, vec![])];
    assert_eq!(missing_authors(&events, &vec![PK2.to_string()]), vec![PK.to_string()]);
    assert_eq!(missing_authors(&events, &vec![]), vec![PK.to_string(), PK2.to_string()]);
}

#[test]
fn quoted_posts_keep_text_notes() {
    let mut reaction = note("r", PK, 1, vec![]);
    reaction.kind = 7;
    let events = vec![note("a", PK, 1, vec![]), reaction, note("b", PK2, 2, vec![])];
    let posts = quoted_posts(events, &vec![]);
    let ids: Vec<&str> = posts.iter().map(|p| p.id.as_str()).collect();
    assert_eq!(ids, vec!["a", "b"]);
}

fn post(id: &str, content: &str) -> nau::types::TimelinePost {
    nau::types::TimelinePost {
        id: id.to_string(),
        kind: 1,
        author_pubkey: PK.to_string(),
        author_metadata: ProfileMetadata::empty(),
        content: content.to_string(),
        created_at: 1,
        emojis: EmojiMap::new(),
        tags: vec![],
    }
}

#[test]
fn posts_are_found_in_order_of_sources() {
    let quoted = vec![post("a", "from quotes")];
    let timeline = vec![post("b", "from timeline"), post("a", "timeline copy")];
    let notifications = vec![post("c", "from notifications")];
    let search = vec![post("d", "from search"), post("c", "search copy")];
    let find = |id: &str| {
        nau::timeline::find_post_by_id(id, &quoted, &timeline, &notifications, &search).map(|p| p.content.clone())
    };
    assert_eq!(find("a").as_deref(), Some("from quotes"));
    assert_eq!(find("b").as_deref(), Some("from timeline"));
    assert_eq!(find("c").as_deref(), Some("from notifications"));
    assert_eq!(find("d").as_deref(), Some("from search"));
    assert_eq!(find("e"), None);
}

#[test]
fn second_round_only_when_sets_are_pointed_at() {
    let mut found = EmojiDiscovery::new();
    assert!(!found.needs_second_round());
    let mut first = EmojiFetch::new();
    first.pointers.push(EventPointer { pubkey: PK.to_string(), d_identifier: "set".to_string() });
    first.emojis.insert("a".to_string(), "https://a".to_string());
    found.absorb(first);
    assert!(found.needs_second_round());
    let mut second = EmojiFetch::new();
    second.emojis.insert("b".to_string(), "https://b".to_string());
    second.pointers.push(EventPointer { pubkey: PK2.to_string(), d_identifier: "other".to_string() });
    found.absorb_emojis(second);
    assert_eq!(found.pointers.len(), 1);
    assert_eq!(found.emojis.get("b").as_deref(), Some("https://b"));
    assert_eq!(found.emojis.get("a").as_deref(), Some("https://a"));
}
