use nau::content::{content_segments, Segment};
use nau::emoji_map::EmojiMap;

fn text(s: &str) -> Segment {
    Segment::Text { text: s.to_string() }
}

fn emoji(code: &str, url: &str) -> Segment {
    Segment::Emoji { shortcode: code.to_string(), url: url.to_string() }
}

fn map(pairs: &[(&str, &str)]) -> EmojiMap {
    let mut m = EmojiMap::new();
    for (k, v) in pairs {
        m.insert(k.to_string(), v.to_string());
    }
    m
}

#[test]
fn shortcodes_become_emojis() {
    let note = map(&[("wave", "https://e/wave.png")]);
    let mine = map(&[("cat", "https://me/cat.png"), ("wave", "https://me/wave.png")]);
    assert_eq!(
        content_segments("hello :wave: and :cat:!", &note, &mine),
        vec![
            text("hello "),
            emoji("wave", "https://e/wave.png"),
            text(" and "),
            emoji("cat", "https://me/cat.png"),
            text("!"),
        ]
    );
}

#[test]
fn unknown_shortcodes_stay_text() {
    let none = EmojiMap::new();
    assert_eq!(content_segments("a :x: b", &none, &none), vec![text("a "), text(":x:"), text(" b")]);
    assert_eq!(content_segments("", &none, &none), Vec::<Segment>::new());
    assert_eq!(content_segments("no codes", &none, &none), vec![text("no codes")]);
}

#[test]
fn references_are_cut_out() {
    let none = EmojiMap::new();
    let segs = content_segments("see nostr:note1abc end", &none, &none);
    assert_eq!(segs.len(), 3);
    assert_eq!(segs[0], text("see "));
    // The reference keeps its `nostr:` scheme, which NIP-19 decoding does not read.
    assert_eq!(segs[1], Segment::Reference { text: "nostr:note1abc".to_string() });
    assert_eq!(segs[2], text(" end"));
}

#[test]
fn emojis_inside_text_between_references() {
    let note = map(&[("ok", "https://e/ok.png")]);
    let none = EmojiMap::new();
    let segs = content_segments(":ok:nostr:nevent1qqq:ok:", &note, &none);
    assert_eq!(segs.len(), 3);
    assert_eq!(segs[0], emoji("ok", "https://e/ok.png"));
    assert_eq!(segs[2], emoji("ok", "https://e/ok.png"));
}
