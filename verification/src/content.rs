//! How the text of a note is laid out: note references (NIP-21) become
//! quotes, `:shortcode:` emojis become images, everything else stays text.
use vstd::prelude::*;
use crate::text::{str_chars, string_from_chars, chars_slice};
use crate::post::{ref_at, shortcode_at, ref_len, shortcode_len, opt_chars};
use crate::emoji_map::EmojiMap;
use nostr::nips::nip19::FromBech32;

verus! {

/// A piece of a text cut by a pattern: a run of characters outside the
/// matches, or one match.
pub enum Piece {
    Plain(Seq<char>),
    Matched(Seq<char>),
}

/// `ps` with the characters `p` joined to the front (to its first run of
/// plain characters, if it starts with one).
pub open spec fn merge_front(p: Seq<char>, ps: Seq<Piece>) -> Seq<Piece> {
    if p.len() == 0 {
        ps
    } else if ps.len() > 0 && ps[0] is Plain {
        seq![Piece::Plain(p + ps[0]->Plain_0)] + ps.skip(1)
    } else {
        seq![Piece::Plain(p)] + ps
    }
}

/// The pieces of `s` for a matcher `m` (the length of the match at the start
/// of a text, or 0): matches taken left to right without overlap, as a
/// regular expression's `find_iter` takes them, and maximal runs of the
/// characters between them.
pub open spec fn pieces(s: Seq<char>, m: spec_fn(Seq<char>) -> nat) -> Seq<Piece>
    decreases s.len(),
{
    if s.len() == 0 {
        Seq::empty()
    } else {
        let k = m(s);
        if 0 < k && k <= s.len() {
            seq![Piece::Matched(s.take(k as int))] + pieces(s.skip(k as int), m)
        } else {
            merge_front(seq![s[0]], pieces(s.skip(1), m))
        }
    }
}

/// Note references `nostr:note1...`/`nostr:nevent1...`.
pub open spec fn reference_matcher() -> spec_fn(Seq<char>) -> nat {
    |s: Seq<char>| ref_len(s)
}

/// Emoji shortcodes `:name:`.
pub open spec fn shortcode_matcher() -> spec_fn(Seq<char>) -> nat {
    |s: Seq<char>| shortcode_len(s)
}

/// The characters of a piece.
pub open spec fn piece_text(p: Piece) -> Seq<char> {
    match p {
        Piece::Plain(t) => t,
        Piece::Matched(t) => t,
    }
}

/// The characters of pieces, in order.
pub open spec fn joined(ps: Seq<Piece>) -> Seq<char>
    decreases ps.len(),
{
    if ps.len() == 0 {
        Seq::empty()
    } else {
        piece_text(ps[0]) + joined(ps.skip(1))
    }
}

proof fn lemma_joined_merge(p: Seq<char>, ps: Seq<Piece>)
    ensures
        joined(merge_front(p, ps)) == p + joined(ps),
{
    if p.len() == 0 {
        assert(p + joined(ps) =~= joined(ps));
    } else if ps.len() > 0 && ps[0] is Plain {
        let m = merge_front(p, ps);
        assert(m.skip(1) =~= ps.skip(1));
        assert(p + ps[0]->Plain_0 + joined(ps.skip(1)) =~= p + (ps[0]->Plain_0 + joined(ps.skip(1))));
    } else {
        let m = merge_front(p, ps);
        assert(m.skip(1) =~= ps);
    }
}

/// Cutting a text into pieces keeps every character, in order: joining the
/// pieces gives the text back, whatever the pattern.
pub proof fn lemma_pieces_keep_text(s: Seq<char>, m: spec_fn(Seq<char>) -> nat)
    ensures
        joined(pieces(s, m)) == s,
    decreases s.len(),
{
    if s.len() > 0 {
        let k = m(s);
        if 0 < k && k <= s.len() {
            lemma_pieces_keep_text(s.skip(k as int), m);
            let ps = seq![Piece::Matched(s.take(k as int))] + pieces(s.skip(k as int), m);
            assert(ps.skip(1) =~= pieces(s.skip(k as int), m));
            assert(s.take(k as int) + s.skip(k as int) =~= s);
        } else {
            lemma_pieces_keep_text(s.skip(1), m);
            lemma_joined_merge(seq![s[0]], pieces(s.skip(1), m));
            assert(seq![s[0]] + s.skip(1) =~= s);
        }
    }
}

proof fn lemma_merge_push(p: Seq<char>, c: char, x: Seq<Piece>)
    ensures
        merge_front(p, merge_front(seq![c], x)) == merge_front(p.push(c), x),
{
    if x.len() > 0 && x[0] is Plain {
        let t = x[0]->Plain_0;
        assert(merge_front(seq![c], x)[0] == Piece::Plain(seq![c] + t));
        assert(merge_front(seq![c], x).skip(1) =~= x.skip(1));
        if p.len() > 0 {
            assert(p + (seq![c] + t) =~= p.push(c) + t);
        } else {
            assert(p.push(c) =~= seq![c]);
        }
    } else {
        if p.len() > 0 {
            assert(merge_front(seq![c], x)[0] == Piece::Plain(seq![c]));
            assert(merge_front(seq![c], x).skip(1) =~= x);
            assert(p + seq![c] =~= p.push(c));
        } else {
            assert(p.push(c) =~= seq![c]);
        }
    }
}

pub open spec fn piece_view(p: (bool, Vec<char>)) -> Piece {
    if p.0 { Piece::Matched(p.1@) } else { Piece::Plain(p.1@) }
}

pub open spec fn pieces_view(v: Seq<(bool, Vec<char>)>) -> Seq<Piece> {
    v.map_values(|p: (bool, Vec<char>)| piece_view(p))
}

/// Cuts `v` at note references (`refs`) or at emoji shortcodes; matches are
/// marked `true`.
fn split_pieces(v: &Vec<char>, refs: bool) -> (r: Vec<(bool, Vec<char>)>)
    ensures
        pieces_view(r@) == pieces(v@, if refs { reference_matcher() } else { shortcode_matcher() }),
{
    let ghost m = if refs { reference_matcher() } else { shortcode_matcher() };
    let mut out: Vec<(bool, Vec<char>)> = Vec::new();
    let mut pending: Vec<char> = Vec::new();
    let mut i: usize = 0;
    assert(v@.skip(0) =~= v@);
    assert(pieces_view(out@) =~= Seq::<Piece>::empty());
    while i < v.len()
        invariant
            i <= v@.len(),
            m == (if refs { reference_matcher() } else { shortcode_matcher() }),
            pieces(v@, m) == pieces_view(out@) + merge_front(pending@, pieces(v@.skip(i as int), m)),
        decreases v@.len() - i,
    {
        let ghost s = v@.skip(i as int);
        let k = if refs { ref_at(v.as_slice(), i, false) } else { shortcode_at(v.as_slice(), i) };
        assert(k == m(s));
        if k > 0 {
            let ghost before = pieces_view(out@);
            let ghost rest = pieces(s.skip(k as int), m);
            assert(pieces(s, m) == seq![Piece::Matched(s.take(k as int))] + rest);
            let matched = chars_slice(v.as_slice(), i, i + k);
            assert(matched@ =~= s.take(k as int));
            if pending.len() > 0 {
                let ghost pv = pending@;
                out.push((false, pending));
                assert(pieces_view(out@) =~= before.push(Piece::Plain(pv)));
                assert(merge_front(pv, seq![Piece::Matched(s.take(k as int))] + rest)
                    =~= seq![Piece::Plain(pv)] + (seq![Piece::Matched(s.take(k as int))] + rest));
            } else {
                assert(merge_front(pending@, seq![Piece::Matched(s.take(k as int))] + rest)
                    == seq![Piece::Matched(s.take(k as int))] + rest);
            }
            let ghost mid = pieces_view(out@);
            out.push((true, matched));
            assert(pieces_view(out@) =~= mid.push(Piece::Matched(s.take(k as int))));
            pending = Vec::new();
            assert(s.skip(k as int) =~= v@.skip((i + k) as int));
            assert(pieces(v@, m) =~= pieces_view(out@) + merge_front(pending@, pieces(v@.skip((i + k) as int), m)));
            i = i + k;
        } else {
            assert(pieces(s, m) == merge_front(seq![s[0]], pieces(s.skip(1), m)));
            proof {
                lemma_merge_push(pending@, v@[i as int], pieces(s.skip(1), m));
            }
            pending.push(v[i]);
            assert(s.skip(1) =~= v@.skip(i as int + 1));
            i = i + 1;
        }
    }
    assert(v@.skip(i as int) =~= Seq::<char>::empty());
    if pending.len() > 0 {
        let ghost before = pieces_view(out@);
        let ghost pv = pending@;
        out.push((false, pending));
        assert(pieces_view(out@) =~= before.push(Piece::Plain(pv)));
        assert(merge_front(pv, Seq::<Piece>::empty()) =~= seq![Piece::Plain(pv)]);
    } else {
        assert(pieces_view(out@) + Seq::<Piece>::empty() =~= pieces_view(out@));
    }
    out
}

// ---------------------------------------------------------------------------
// Segments of a note
// ---------------------------------------------------------------------------

/// The event id (lowercase hex) that `nostr::EventId::from_bech32` reads
/// from the text (a NIP-19 `note`), or `None` where it fails.
pub uninterp spec fn spec_note_event_id(text: Seq<char>) -> Option<Seq<char>>;

/// The event id (lowercase hex) of the `Nip19Event` that
/// `Nip19Event::from_bech32` reads from the text (a NIP-19 `nevent`), or
/// `None` where it fails.
pub uninterp spec fn spec_nevent_event_id(text: Seq<char>) -> Option<Seq<char>>;

/// `nostr::EventId::from_bech32`, the id in hex. Claimed: the result is the
/// named one.
#[verifier::external_body]
fn note_event_id(text: &str) -> (r: Option<String>)
    ensures
        opt_chars(r) == spec_note_event_id(text@),
{
    nostr::EventId::from_bech32(text).ok().map(|id| id.to_hex())
}

/// `nostr::nips::nip19::Nip19Event::from_bech32`, its event id in hex.
/// Claimed: the result is the named one.
#[verifier::external_body]
fn nevent_event_id(text: &str) -> (r: Option<String>)
    ensures
        opt_chars(r) == spec_nevent_event_id(text@),
{
    nostr::nips::nip19::Nip19Event::from_bech32(text).ok().map(|e| e.event_id.to_hex())
}

/// The event a note reference names: read as a `note`, else as a `nevent`.
pub open spec fn reference_event_id(r: Seq<char>) -> Option<Seq<char>> {
    match spec_note_event_id(r) {
        Some(id) => Some(id),
        None => spec_nevent_event_id(r),
    }
}

/// What a note shows, in order.
#[derive(Debug, PartialEq, Eq)]
pub enum Segment {
    /// Plain text.
    Text { text: String },
    /// A custom emoji: its shortcode and image URL.
    Emoji { shortcode: String, url: String },
    /// A quoted note, by event id (lowercase hex).
    Quote { event_id: String },
    /// A note reference that names no event; shown as it is written.
    Reference { text: String },
}

pub enum SegmentView {
    Text(Seq<char>),
    Emoji(Seq<char>, Seq<char>),
    Quote(Seq<char>),
    Reference(Seq<char>),
}

impl View for Segment {
    type V = SegmentView;

    open spec fn view(&self) -> SegmentView {
        match self {
            Segment::Text { text } => SegmentView::Text(text@),
            Segment::Emoji { shortcode, url } => SegmentView::Emoji(shortcode@, url@),
            Segment::Quote { event_id } => SegmentView::Quote(event_id@),
            Segment::Reference { text } => SegmentView::Reference(text@),
        }
    }
}

pub open spec fn segments_view(v: Seq<Segment>) -> Seq<SegmentView> {
    v.map_values(|s: Segment| s@)
}

/// A `:name:` match: the note's own emoji of that name, else the user's,
/// else the text as written.
pub open spec fn emoji_segment(m: Seq<char>, note_emojis: Map<Seq<char>, Seq<char>>, my_emojis: Map<Seq<char>, Seq<char>>) -> SegmentView {
    let code = m.subrange(1, m.len() - 1);
    if m.len() < 2 {
        SegmentView::Text(m)
    } else if note_emojis.contains_key(code) {
        SegmentView::Emoji(code, note_emojis[code])
    } else if my_emojis.contains_key(code) {
        SegmentView::Emoji(code, my_emojis[code])
    } else {
        SegmentView::Text(m)
    }
}

/// The segments of a text without references.
pub open spec fn text_segments(ps: Seq<Piece>, note_emojis: Map<Seq<char>, Seq<char>>, my_emojis: Map<Seq<char>, Seq<char>>) -> Seq<SegmentView>
    decreases ps.len(),
{
    if ps.len() == 0 {
        Seq::empty()
    } else {
        text_segments(ps.drop_last(), note_emojis, my_emojis).push(match ps.last() {
            Piece::Plain(t) => SegmentView::Text(t),
            Piece::Matched(m) => emoji_segment(m, note_emojis, my_emojis),
        })
    }
}

/// The segments of the pieces of a note cut at references.
pub open spec fn note_segments(ps: Seq<Piece>, note_emojis: Map<Seq<char>, Seq<char>>, my_emojis: Map<Seq<char>, Seq<char>>) -> Seq<SegmentView>
    decreases ps.len(),
{
    if ps.len() == 0 {
        Seq::empty()
    } else {
        note_segments(ps.drop_last(), note_emojis, my_emojis) + match ps.last() {
            Piece::Plain(t) => text_segments(pieces(t, shortcode_matcher()), note_emojis, my_emojis),
            Piece::Matched(r) => seq![match reference_event_id(r) {
                Some(id) => SegmentView::Quote(id),
                None => SegmentView::Reference(r),
            }],
        }
    }
}

/// What a note's content shows: its references as quotes (or as written,
/// where they name no event), and in the text between them its `:name:`
/// shortcodes as emojis where the note or the user has one of that name.
pub open spec fn spec_content_segments(content: Seq<char>, note_emojis: Map<Seq<char>, Seq<char>>, my_emojis: Map<Seq<char>, Seq<char>>) -> Seq<SegmentView> {
    note_segments(pieces(content, reference_matcher()), note_emojis, my_emojis)
}

fn emoji_piece(m: &Vec<char>, note_emojis: &EmojiMap, my_emojis: &EmojiMap) -> (s: Segment)
    ensures
        s@ == emoji_segment(m@, note_emojis@, my_emojis@),
{
    if m.len() < 2 {
        return Segment::Text { text: string_from_chars(m.as_slice()) };
    }
    let code_chars = chars_slice(m.as_slice(), 1, m.len() - 1);
    let code = string_from_chars(code_chars.as_slice());
    match note_emojis.get(code.as_str()) {
        Some(url) => Segment::Emoji { shortcode: code, url },
        None => match my_emojis.get(code.as_str()) {
            Some(url) => Segment::Emoji { shortcode: code, url },
            None => Segment::Text { text: string_from_chars(m.as_slice()) },
        },
    }
}

fn push_text_segments(out: &mut Vec<Segment>, text: &Vec<char>, note_emojis: &EmojiMap, my_emojis: &EmojiMap)
    ensures
        segments_view(final(out)@) == segments_view(old(out)@)
            + text_segments(pieces(text@, shortcode_matcher()), note_emojis@, my_emojis@),
{
    let parts = split_pieces(text, false);
    let ghost pv = pieces_view(parts@);
    let ghost start = segments_view(out@);
    let mut j: usize = 0;
    assert(pv.take(0) =~= Seq::<Piece>::empty());
    assert(start + Seq::<SegmentView>::empty() =~= start);
    while j < parts.len()
        invariant
            j <= parts@.len(),
            pv == pieces_view(parts@),
            segments_view(out@) == start + text_segments(pv.take(j as int), note_emojis@, my_emojis@),
        decreases parts@.len() - j,
    {
        let ghost t = pv.take(j as int + 1);
        assert(t.drop_last() =~= pv.take(j as int));
        assert(t.last() == piece_view(parts@[j as int]));
        let ghost before = segments_view(out@);
        let seg = if parts[j].0 {
            emoji_piece(&parts[j].1, note_emojis, my_emojis)
        } else {
            Segment::Text { text: string_from_chars(parts[j].1.as_slice()) }
        };
        let ghost sv = seg@;
        out.push(seg);
        assert(segments_view(out@) =~= before.push(sv));
        assert(text_segments(t, note_emojis@, my_emojis@) == text_segments(pv.take(j as int), note_emojis@, my_emojis@).push(sv));
        j = j + 1;
    }
    assert(pv.take(parts@.len() as int) =~= pv);
}

/// What the content of a note shows, in order.
pub fn content_segments(content: &str, note_emojis: &EmojiMap, my_emojis: &EmojiMap) -> (r: Vec<Segment>)
    ensures
        segments_view(r@) == spec_content_segments(content@, note_emojis@, my_emojis@),
{
    let v = str_chars(content);
    let parts = split_pieces(&v, true);
    let ghost pv = pieces_view(parts@);
    let mut out: Vec<Segment> = Vec::new();
    let mut i: usize = 0;
    assert(pv.take(0) =~= Seq::<Piece>::empty());
    assert(segments_view(out@) =~= Seq::<SegmentView>::empty());
    while i < parts.len()
        invariant
            i <= parts@.len(),
            pv == pieces_view(parts@),
            segments_view(out@) == note_segments(pv.take(i as int), note_emojis@, my_emojis@),
        decreases parts@.len() - i,
    {
        let ghost t = pv.take(i as int + 1);
        assert(t.drop_last() =~= pv.take(i as int));
        assert(t.last() == piece_view(parts@[i as int]));
        let ghost before = segments_view(out@);
        if parts[i].0 {
            let text = string_from_chars(parts[i].1.as_slice());
            let id = match note_event_id(text.as_str()) {
                Some(id) => Some(id),
                None => nevent_event_id(text.as_str()),
            };
            let seg = match id {
                Some(event_id) => Segment::Quote { event_id },
                None => Segment::Reference { text },
            };
            let ghost sv = seg@;
            out.push(seg);
            assert(segments_view(out@) =~= before + seq![sv]);
        } else {
            push_text_segments(&mut out, &parts[i].1, note_emojis, my_emojis);
        }
        i = i + 1;
    }
    assert(pv.take(parts@.len() as int) =~= pv);
    out
}

} // verus!
