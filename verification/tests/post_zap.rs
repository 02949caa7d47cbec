use nau::emoji_map::EmojiMap;
use nau::post::{
    author_display_name, check_post_length, effective_length, emoji_tags_for_post, music_status, post_layout,
    quote_input, quote_preview, quote_text, shortcodes_in, should_search, strip_note_references,
    status_tags, PostError, PostLayout, StatusType, KIND_REACTION, KIND_TEXT_NOTE, KIND_USER_STATUS, MAX_POST_LENGTH,
};
use nau::types::{ProfileMetadata, ZapReceipt};
use nau::zap::{
    can_zap, check_sendable, lud16_to_lnurl, read_zap_receipt, zap_amount_msats, zap_callback_url,
    zap_request_tags, ReceiptError, ZapError, ZapReceiptEvent,
};
use nostr::nips::nip19::ToBech32;
use nostr::nips::nip19::Nip19Event;
use nostr::{EventBuilder, EventId, JsonUtil, Keys, Kind, PublicKey, RelayUrl, Tag};

const PK: &str = "b889ff5b1513b641e2a139f661a661364979c5beee91842f8f0ef42ab558e9d4";
const EV: &str = "32e1827635450ebb3c5a7d12c1f8e7b2b514439ac10a67eef3d9fd9c5c68e245";
const INVOICE_250K_SATS: &str = "lnbc2500u1pvjluezsp5zyg3zyg3zyg3zyg3zyg3zyg3zyg3zyg3zyg3zyg3zyg3zyg3zygspp5qqqsyqcyq5rqwzqfqqqsyqcyq5rqwzqfqqqsyqcyq5rqwzqfqypqdq5xysxxatsyp3k7enxv4jsxqzpu9qrsgquk0rl77nj30yxdy8j9vdx85fkpmdla2087ne0xh8nhedh8w27kyke0lp53ut353s06fv3qfegext0eh0ymjpf39tuven09sam30g4vgpfna3rh";

fn tag(parts: &[&str]) -> Vec<String> {
    parts.iter().map(|s| s.to_string()).collect()
}

#[test]
fn note_references_do_not_count() {
    let text = "hello nostr:note1abc123   world";
    assert_eq!(strip_note_references(text), "hello world");
    assert_eq!(effective_length(text), 11);
    assert_eq!(strip_note_references("see nostr:nevent1qqq\nend"), "see end");
    // A bare head without a body is not a reference.
    assert_eq!(strip_note_references("nostr:note1 x"), "nostr:note1 x");
    // Without references every character counts.
    assert_eq!(effective_length("plain text"), 10);
    assert_eq!(strip_note_references("nostr:npub1abc"), "nostr:npub1abc");
    // Characters, not bytes, are counted.
    assert_eq!(effective_length("なう"), 2);
}

#[test]
fn post_length_limit() {
    let ok: String = "a".repeat(MAX_POST_LENGTH);
    assert_eq!(check_post_length(&ok), Ok(()));
    let long: String = "a".repeat(MAX_POST_LENGTH + 1);
    assert_eq!(check_post_length(&long), Err(PostError::TooLong { length: 141 }));
    let with_ref = format!("{} nostr:note1{}", ok, "q".repeat(60));
    assert_eq!(check_post_length(&with_ref), Err(PostError::TooLong { length: 141 }));
    let with_ref_only = format!("{}nostr:note1{}", ok, "q".repeat(60));
    assert_eq!(check_post_length(&with_ref_only), Ok(()));
}

#[test]
fn shortcodes_found_left_to_right() {
    assert_eq!(shortcodes_in("hi :wave: and :smile:!"), vec!["wave".to_string(), "smile".to_string()]);
    assert_eq!(shortcodes_in(":a:b:"), vec!["a".to_string()]);
    assert_eq!(shortcodes_in("no : codes :: here"), Vec::<String>::new());
    assert_eq!(shortcodes_in(":ねこ:"), vec!["ねこ".to_string()]);
}

#[test]
fn emoji_tags_only_for_known_distinct_codes() {
    let mut m = EmojiMap::new();
    m.insert("wave".to_string(), "https://e/wave.png".to_string());
    m.insert("cat".to_string(), "https://e/cat.png".to_string());
    let tags = emoji_tags_for_post(":cat: :wave: :cat: :unknown:", &m);
    assert_eq!(
        tags,
        vec![tag(&["emoji", "cat", "https://e/cat.png"]), tag(&["emoji", "wave", "https://e/wave.png"])]
    );
    assert!(emoji_tags_for_post("plain text", &m).is_empty());
}

#[test]
fn layout_of_reactions_replies_and_quotes() {
    let tags = vec![tag(&["e", EV]), tag(&["p", PK])];
    match post_layout(KIND_REACTION, &tags, "+") {
        PostLayout::ReactionTo { event_id } => assert_eq!(event_id, EV),
        _ => panic!("expected a reaction"),
    }
    match post_layout(KIND_TEXT_NOTE, &tags, "I agree") {
        PostLayout::ReplyTo { event_id } => assert_eq!(event_id, EV),
        _ => panic!("expected a reply"),
    }
    assert!(matches!(post_layout(KIND_TEXT_NOTE, &tags, "look nostr:note1abc"), PostLayout::Content));
    assert!(matches!(post_layout(KIND_TEXT_NOTE, &vec![tag(&["p", PK])], "hi"), PostLayout::Content));
    assert!(matches!(post_layout(KIND_REACTION, &vec![], "+"), PostLayout::Content));
    assert!(matches!(post_layout(30315, &tags, "x"), PostLayout::Content));
}

#[test]
fn music_status_link() {
    let tags = vec![tag(&["d", "music"]), tag(&["r", "https://music/1"]), tag(&["r", "https://music/2"])];
    assert_eq!(music_status(&tags), Some(Some("https://music/1".to_string())));
    assert_eq!(music_status(&vec![tag(&["d", "music"])]), Some(None));
    assert_eq!(music_status(&vec![tag(&["d", "general"]), tag(&["r", "x"])]), None);
    assert_eq!(music_status(&vec![]), None);
}

#[test]
fn quote_preview_cuts_and_joins_lines() {
    assert_eq!(quote_preview("a\nb"), "a b");
    let long = "x".repeat(130);
    let expected = format!("{}...", "x".repeat(120));
    assert_eq!(quote_preview(&long), expected);
    assert_eq!(quote_preview(&"y".repeat(120)), "y".repeat(120));
}

#[test]
fn display_name_falls_back_to_short_npub() {
    assert_eq!(author_display_name("alice", PK), Some("alice".to_string()));
    let npub = PublicKey::from_hex(PK).unwrap().to_bech32().unwrap();
    let expected = format!("{}...{}", &npub[..8], &npub[npub.len() - 4..]);
    assert_eq!(author_display_name("", PK), Some(expected));
    assert_eq!(author_display_name("", "not a key"), None);
}

#[test]
fn search_needs_query_and_relay() {
    let relays = vec!["wss://search.nos.today".to_string()];
    assert!(should_search(&relays, "nostr"));
    assert!(!should_search(&relays, ""));
    assert!(!should_search(&vec![], "nostr"));
}

#[test]
fn lightning_address_endpoint() {
    assert_eq!(lud16_to_lnurl("alice@example.com"), Ok("https://example.com/.well-known/lnurlp/alice".to_string()));
    assert_eq!(lud16_to_lnurl("alice"), Err(ZapError::InvalidLud16));
    assert_eq!(lud16_to_lnurl("a@b@c"), Err(ZapError::InvalidLud16));
    assert_eq!(lud16_to_lnurl("@"), Ok("https:///.well-known/lnurlp/".to_string()));
}

#[test]
fn amounts_and_bounds() {
    assert_eq!(zap_amount_msats(21), 21_000);
    assert_eq!(check_sendable(21_000, 1_000, 100_000), Ok(()));
    assert_eq!(check_sendable(1_000, 1_000, 1_000), Ok(()));
    let e = check_sendable(500, 1_000, 100_000).unwrap_err();
    assert_eq!(e, ZapError::AmountOutOfRange { min_sendable: 1_000, max_sendable: 100_000 });
    assert_eq!(e.message(), "Amount must be between 1 and 100 sats");
    assert!(check_sendable(100_001, 1_000, 100_000).is_err());
    assert_eq!(ZapError::InvalidLud16.message(), "Invalid lud16 format");
}

#[test]
fn callback_url_is_percent_encoded() {
    let url = zap_callback_url("https://ln.example/cb", 21_000, "{\"a\": \"b~c\"}");
    assert_eq!(url, "https://ln.example/cb?amount=21000&nostr=%7B%22a%22%3A%20%22b~c%22%7D");
    let url2 = zap_callback_url("https://x/cb", 0, "é");
    assert_eq!(url2, "https://x/cb?amount=0&nostr=%C3%A9");
}

#[test]
fn zap_request_tag_list() {
    let tags = zap_request_tags(PK, 21_000, "https://example.com/.well-known/lnurlp/alice", Some(EV));
    assert_eq!(
        tags,
        vec![
            tag(&["p", PK]),
            tag(&["amount", "21000"]),
            tag(&["relays", "wss://relay.damus.io"]),
            tag(&["lnurl", "https://example.com/.well-known/lnurlp/alice"]),
            tag(&["e", EV]),
        ]
    );
    assert_eq!(zap_request_tags(PK, 1, "u", None).len(), 4);
}

#[test]
fn zap_button_rules() {
    assert!(can_zap(PK, EV, "alice@example.com"));
    assert!(!can_zap(PK, PK, "alice@example.com"));
    assert!(!can_zap(PK, EV, ""));
}

fn zap_request_json(content: &str, recipient: &str, zapped: Option<&str>) -> String {
    let keys = Keys::generate();
    let mut tags = vec![Tag::public_key(PublicKey::from_hex(recipient).unwrap())];
    if let Some(id) = zapped {
        tags.push(Tag::event(EventId::from_hex(id).unwrap()));
    }
    EventBuilder::new(Kind::ZapRequest, content).tags(tags).sign_with_keys(&keys).unwrap().as_json()
}

#[test]
fn zap_receipt_is_read() {
    let zapper = Keys::generate().public_key().to_hex();
    let event = ZapReceiptEvent {
        id: "f".repeat(64),
        created_at: 1_700_000_000,
        tags: vec![
            tag(&["p", PK]),
            tag(&["bolt11", INVOICE_250K_SATS]),
            tag(&["description", &zap_request_json("great post", PK, Some(EV))]),
            tag(&["P", &zapper]),
        ],
    };
    let facts = read_zap_receipt(&event).unwrap();
    assert_eq!(facts.id, "f".repeat(64));
    assert_eq!(facts.created_at, 1_700_000_000);
    assert_eq!(facts.note, "great post");
    assert_eq!(facts.recipient_pubkey, PK);
    assert_eq!(facts.zapped_event_id.as_deref(), Some(EV));
    assert_eq!(facts.zapper_pubkey.as_deref(), Some(zapper.as_str()));
    assert_eq!(facts.amount_msats, 250_000_000);
    let receipt = ZapReceipt::from_facts(facts, ProfileMetadata::empty());
    assert_eq!(receipt.amount_sats(), 250_000);
}

#[test]
fn zap_receipt_without_invoice_or_zapper() {
    let event = ZapReceiptEvent {
        id: "a".repeat(64),
        created_at: 5,
        tags: vec![tag(&["description", &zap_request_json("", PK, None)]), tag(&["bolt11", "not an invoice"])],
    };
    let facts = read_zap_receipt(&event).unwrap();
    assert_eq!(facts.amount_msats, 0);
    assert_eq!(facts.zapper_pubkey, None);
    assert_eq!(facts.zapped_event_id, None);
}

#[test]
fn zap_receipt_errors() {
    let no_desc = ZapReceiptEvent { id: String::new(), created_at: 0, tags: vec![tag(&["description"])] };
    assert_eq!(read_zap_receipt(&no_desc).err(), Some(ReceiptError::MissingDescription));
    let bad_desc = ZapReceiptEvent { id: String::new(), created_at: 0, tags: vec![tag(&["description", "{}"])] };
    assert_eq!(read_zap_receipt(&bad_desc).err(), Some(ReceiptError::InvalidDescription));
    let keys = Keys::generate();
    let no_p = EventBuilder::new(Kind::ZapRequest, "x").sign_with_keys(&keys).unwrap().as_json();
    let no_recipient = ZapReceiptEvent { id: String::new(), created_at: 0, tags: vec![tag(&["description", &no_p])] };
    assert_eq!(read_zap_receipt(&no_recipient).err(), Some(ReceiptError::MissingRecipient));
    let bad_zapper = ZapReceiptEvent {
        id: String::new(),
        created_at: 0,
        tags: vec![tag(&["description", &zap_request_json("x", PK, None)]), tag(&["P", "zz"])],
    };
    assert_eq!(read_zap_receipt(&bad_zapper).err(), Some(ReceiptError::InvalidZapper));
}

#[test]
fn quoting_a_note_starts_with_its_nevent() {
    assert_eq!(quote_text("note1xyz"), "nostr:note1xyz\n\n");
    let relays = vec!["wss://yabu.me".to_string(), "https://not-a-relay".to_string()];
    let mut expected = Nip19Event::new(EventId::from_hex(EV).unwrap());
    expected.author = Some(PublicKey::from_hex(PK).unwrap());
    expected.relays = vec![RelayUrl::parse("wss://yabu.me").unwrap()];
    let nevent = expected.to_bech32().unwrap();
    assert_eq!(quote_input(EV, PK, &relays), Some(format!("nostr:{}\n\n", nevent)));
    let mut no_author = Nip19Event::new(EventId::from_hex(EV).unwrap());
    no_author.relays = vec![];
    let nevent2 = no_author.to_bech32().unwrap();
    assert_eq!(quote_input(EV, "bad", &vec![]), Some(format!("nostr:{}\n\n", nevent2)));
    assert_eq!(quote_input("not an id", PK, &relays), None);
}

#[test]
fn status_posts_carry_their_type_and_link() {
    assert_eq!(KIND_USER_STATUS, 30315);
    assert_eq!(status_tags(StatusType::General, None), vec![tag(&["d", "general"])]);
    assert_eq!(status_tags(StatusType::Podcast, Some("")), vec![tag(&["d", "podcast"])]);
    let music = status_tags(StatusType::Music, Some("https://music/1"));
    assert_eq!(music, vec![tag(&["d", "music"]), tag(&["r", "https://music/1"])]);
    assert_eq!(music_status(&music), Some(Some("https://music/1".to_string())));
    assert_eq!(music_status(&status_tags(StatusType::Music, None)), Some(None));
    assert_eq!(music_status(&status_tags(StatusType::General, Some("https://x"))), None);
}

#[test]
fn quoting_falls_back_to_note_when_nevent_is_too_long() {
    let relays: Vec<String> = (0..40).map(|i| format!("wss://relay{:02}.example.com", i)).collect();
    let note = EventId::from_hex(EV).unwrap().to_bech32().unwrap();
    assert_eq!(quote_input(EV, PK, &relays), Some(format!("nostr:{}\n\n", note)));
}

#[test]
fn wallet_request_decrypts_to_the_pay_invoice_request() {
    let connection = Keys::generate();
    let wallet = Keys::generate();
    let content = nau::zap::wallet_pay_content(
        &connection.secret_key().to_secret_bytes(),
        &wallet.public_key().to_bytes(),
        INVOICE_250K_SATS,
    )
    .unwrap();
    assert!(content.contains("?iv="));
    let plain = nostr::nips::nip04::decrypt(wallet.secret_key(), &connection.public_key(), &content).unwrap();
    let expected = nostr::nips::nip47::Request::pay_invoice(nostr::nips::nip47::PayInvoiceRequest {
        id: None,
        invoice: INVOICE_250K_SATS.to_string(),
        amount: None,
    })
    .as_json();
    assert_eq!(plain, expected);
    assert!(plain.contains("pay_invoice"));
    assert_eq!(nau::zap::wallet_pay_content(&[0u8; 32], &wallet.public_key().to_bytes(), "x"), None);
}
