//! Rules for composing and showing posts: the length limit (NIP-21
//! references do not count), custom-emoji tags, how a note is laid out, and
//! the short forms used for names and quotes.
use vstd::prelude::*;
use crate::text::{str_chars, str_is, string_from_chars, push_chars, push_str, chars_slice};
use crate::relays::{parsed_relay_urls, parsed_urls};
use crate::timeline::texts;
use crate::emoji_map::EmojiMap;
use crate::keys::{standard_tag, StandardTag, StandardTagView, spec_standard_tag};
use nostr::nips::nip19::ToBech32;

verus! {

/// Longest post, in characters, not counting NIP-21 note references.
pub const MAX_POST_LENGTH: usize = 140;

/// Characters of the Unicode `White_Space` property (what `\s` matches).
pub open spec fn is_space(c: char) -> bool {
    ||| c == '\t' || c == '\n' || c == '\u{0B}' || c == '\u{0C}' || c == '\r' || c == ' '
    ||| c == '\u{85}' || c == '\u{A0}' || c == '\u{1680}'
    ||| ('\u{2000}' <= c && c <= '\u{200A}')
    ||| c == '\u{2028}' || c == '\u{2029}' || c == '\u{202F}' || c == '\u{205F}' || c == '\u{3000}'
}

fn is_space_exec(c: char) -> (r: bool)
    ensures
        r == is_space(c),
{
    c == '\t' || c == '\n' || c == '\u{0B}' || c == '\u{0C}' || c == '\r' || c == ' '
        || c == '\u{85}' || c == '\u{A0}' || c == '\u{1680}'
        || ('\u{2000}' <= c && c <= '\u{200A}')
        || c == '\u{2028}' || c == '\u{2029}' || c == '\u{202F}' || c == '\u{205F}' || c == '\u{3000}'
}

/// Lowercase ASCII letters and digits (`[a-z0-9]`).
pub open spec fn is_lower_alnum(c: char) -> bool {
    ('a' <= c && c <= 'z') || ('0' <= c && c <= '9')
}

/// How many characters at the start of `s` satisfy `p`.
pub open spec fn run_len(s: Seq<char>, p: spec_fn(char) -> bool) -> nat
    decreases s.len(),
{
    if s.len() > 0 && p(s[0]) {
        1 + run_len(s.skip(1), p)
    } else {
        0
    }
}

pub open spec fn lower_alnum() -> spec_fn(char) -> bool {
    |c: char| is_lower_alnum(c)
}

pub open spec fn space() -> spec_fn(char) -> bool {
    |c: char| is_space(c)
}

pub open spec fn note_head() -> Seq<char> {
    seq!['n', 'o', 's', 't', 'r', ':', 'n', 'o', 't', 'e', '1']
}

pub open spec fn nevent_head() -> Seq<char> {
    seq!['n', 'o', 's', 't', 'r', ':', 'n', 'e', 'v', 'e', 'n', 't', '1']
}

/// Length of the `nostr:note1`/`nostr:nevent1` head at the start of `s`, or 0.
pub open spec fn ref_head_len(s: Seq<char>) -> nat {
    if s.len() >= 11 && s.take(11) == note_head() {
        11
    } else if s.len() >= 13 && s.take(13) == nevent_head() {
        13
    } else {
        0
    }
}

/// Length of the NIP-21 note reference (`nostr:(?:note|nevent)1[a-z0-9]+`) at
/// the start of `s`, or 0 if there is none.
pub open spec fn ref_len(s: Seq<char>) -> nat {
    let h = ref_head_len(s);
    if h > 0 && run_len(s.skip(h as int), lower_alnum()) > 0 {
        h + run_len(s.skip(h as int), lower_alnum())
    } else {
        0
    }
}

/// Length of the reference and the whitespace after it
/// (`nostr:(?:note|nevent)1[a-z0-9]+\s*`) at the start of `s`, or 0.
pub open spec fn ref_with_space_len(s: Seq<char>) -> nat {
    let r = ref_len(s);
    if r > 0 {
        r + run_len(s.skip(r as int), space())
    } else {
        0
    }
}

/// `s` with every reference (and the whitespace after it) removed, scanning
/// left to right (what `replace_all` of that pattern with `""` gives).
pub open spec fn strip_refs(s: Seq<char>) -> Seq<char>
    decreases s.len(),
{
    if s.len() == 0 {
        s
    } else {
        let m = ref_with_space_len(s);
        if m > 0 && m <= s.len() {
            strip_refs(s.skip(m as int))
        } else {
            seq![s[0]] + strip_refs(s.skip(1))
        }
    }
}

/// The number of characters of a post that count toward the limit.
pub open spec fn effective_len(s: Seq<char>) -> nat {
    strip_refs(s).len()
}

proof fn lemma_run_all(x: Seq<char>, y: Seq<char>, p: spec_fn(char) -> bool)
    requires
        forall|i: int| 0 <= i < x.len() ==> p(#[trigger] x[i]),
        y.len() == 0 || !p(y[0]),
    ensures
        run_len(x + y, p) == x.len(),
    decreases x.len(),
{
    if x.len() > 0 {
        assert((x + y)[0] == x[0]);
        assert((x + y).skip(1) =~= x.skip(1) + y);
        assert forall|i: int| 0 <= i < x.skip(1).len() implies p(#[trigger] x.skip(1)[i]) by {
            assert(x.skip(1)[i] == x[i + 1]);
        }
        lemma_run_all(x.skip(1), y, p);
    } else {
        assert(x + y =~= y);
    }
}

/// A note reference (`nostr:note1` or `nostr:nevent1` and its lowercase
/// letters and digits) and the whitespace after it do not count, whatever
/// follows: the post counts as what follows alone. (What follows must not
/// continue the reference or its whitespace.)
pub proof fn lemma_reference_not_counted(head: Seq<char>, body: Seq<char>, ws: Seq<char>, rest: Seq<char>)
    requires
        head == note_head() || head == nevent_head(),
        body.len() > 0,
        forall|i: int| 0 <= i < body.len() ==> is_lower_alnum(#[trigger] body[i]),
        forall|i: int| 0 <= i < ws.len() ==> is_space(#[trigger] ws[i]),
        rest.len() == 0 || (!is_space(rest[0]) && (ws.len() > 0 || !is_lower_alnum(rest[0]))),
    ensures
        strip_refs(head + body + ws + rest) == strip_refs(rest),
        effective_len(head + body + ws + rest) == effective_len(rest),
{
    let s = head + body + ws + rest;
    let h = head.len();
    assert(s.take(h as int) =~= head);
    if head == nevent_head() {
        assert(s.take(11)[7] != note_head()[7]);
    }
    assert(ref_head_len(s) == h);
    let after_head = body + (ws + rest);
    assert(s.skip(h as int) =~= after_head);
    assert(forall|i: int| 0 <= i < ws.len() ==> !is_lower_alnum(#[trigger] ws[i]));
    if ws.len() > 0 {
        assert((ws + rest)[0] == ws[0]);
        assert(is_space(ws[0]));
    } else {
        assert(ws + rest =~= rest);
    }
    lemma_run_all(body, ws + rest, lower_alnum());
    let r = h + body.len();
    assert(ref_len(s) == r);
    assert(s.skip(r as int) =~= ws + rest);
    lemma_run_all(ws, rest, space());
    let m = r + ws.len();
    assert(ref_with_space_len(s) == m);
    assert(s.skip(m as int) =~= rest);
}

/// Two note references separated by whitespace count nothing: every
/// reference is left out, not only the first.
pub proof fn lemma_two_references_count_nothing(head1: Seq<char>, body1: Seq<char>, ws: Seq<char>, head2: Seq<char>, body2: Seq<char>)
    requires
        head1 == note_head() || head1 == nevent_head(),
        head2 == note_head() || head2 == nevent_head(),
        body1.len() > 0,
        body2.len() > 0,
        ws.len() > 0,
        forall|i: int| 0 <= i < body1.len() ==> is_lower_alnum(#[trigger] body1[i]),
        forall|i: int| 0 <= i < body2.len() ==> is_lower_alnum(#[trigger] body2[i]),
        forall|i: int| 0 <= i < ws.len() ==> is_space(#[trigger] ws[i]),
    ensures
        effective_len(head1 + body1 + ws + (head2 + body2)) == 0,
{
    let second = head2 + body2;
    assert(second[0] == head2[0]);
    assert(!is_space(head2[0]));
    lemma_reference_not_counted(head1, body1, ws, second);
    let empty = Seq::<char>::empty();
    lemma_reference_not_counted(head2, body2, empty, empty);
    assert(head2 + body2 + empty + empty =~= second);
}

/// A post without note references counts every one of its characters.
pub proof fn lemma_no_refs_count_all(s: Seq<char>)
    requires
        !has_ref(s),
    ensures
        strip_refs(s) == s,
        effective_len(s) == s.len(),
    decreases s.len(),
{
    if s.len() > 0 {
        assert(s.skip(0) =~= s);
        assert(ref_len(s.skip(0)) == 0);
        let t = s.skip(1);
        assert forall|i: int| 0 <= i <= t.len() implies #[trigger] ref_len(t.skip(i)) == 0 by {
            assert(t.skip(i) =~= s.skip(1 + i));
            assert(ref_len(s.skip(1 + i)) == 0);
        }
        lemma_no_refs_count_all(t);
        assert(seq![s[0]] + t =~= s);
    }
}

fn matches_at(v: &[char], i: usize, lit: &[char]) -> (r: bool)
    requires
        i <= v@.len(),
    ensures
        r == (v@.skip(i as int).len() >= lit@.len() && v@.skip(i as int).take(lit@.len() as int) == lit@),
        r ==> i + lit@.len() <= v@.len(),
{
    let n = v.len();
    if n - i < lit.len() {
        return false;
    }
    let mut j: usize = 0;
    while j < lit.len()
        invariant
            j <= lit@.len(),
            n == v@.len(),
            i + lit@.len() <= n,
            forall|k: int| 0 <= k < j ==> v@[i + k] == lit@[k],
        decreases lit@.len() - j,
    {
        if v[i + j] != lit[j] {
            assert(v@.skip(i as int).take(lit@.len() as int)[j as int] != lit@[j as int]);
            return false;
        }
        j = j + 1;
    }
    assert(v@.skip(i as int).take(lit@.len() as int) =~= lit@);
    true
}

fn lower_alnum_run(v: &[char], i: usize) -> (n: usize)
    requires
        i <= v@.len(),
    ensures
        n == run_len(v@.skip(i as int), lower_alnum()),
        i + n <= v@.len(),
{
    let mut j: usize = i;
    while j < v.len() && ('a' <= v[j] && v[j] <= 'z' || '0' <= v[j] && v[j] <= '9')
        invariant
            i <= j <= v@.len(),
            run_len(v@.skip(i as int), lower_alnum()) == (j - i) + run_len(v@.skip(j as int), lower_alnum()),
        decreases v@.len() - j,
    {
        assert(v@.skip(j as int).skip(1) =~= v@.skip(j as int + 1));
        j = j + 1;
    }
    j - i
}

fn space_run(v: &[char], i: usize) -> (n: usize)
    requires
        i <= v@.len(),
    ensures
        n == run_len(v@.skip(i as int), space()),
        i + n <= v@.len(),
{
    let mut j: usize = i;
    while j < v.len() && is_space_exec(v[j])
        invariant
            i <= j <= v@.len(),
            run_len(v@.skip(i as int), space()) == (j - i) + run_len(v@.skip(j as int), space()),
        decreases v@.len() - j,
    {
        assert(v@.skip(j as int).skip(1) =~= v@.skip(j as int + 1));
        j = j + 1;
    }
    j - i
}

/// Length of the reference starting at `i` (0 if none), with or without the
/// whitespace after it.
pub(crate) fn ref_at(v: &[char], i: usize, with_space: bool) -> (n: usize)
    requires
        i <= v@.len(),
    ensures
        with_space ==> n == ref_with_space_len(v@.skip(i as int)),
        !with_space ==> n == ref_len(v@.skip(i as int)),
        i + n <= v@.len(),
{
    let len = v.len();
    let note: Vec<char> = vec!['n', 'o', 's', 't', 'r', ':', 'n', 'o', 't', 'e', '1'];
    let nevent: Vec<char> = vec!['n', 'o', 's', 't', 'r', ':', 'n', 'e', 'v', 'e', 'n', 't', '1'];
    let ghost s = v@.skip(i as int);
    let h: usize = if matches_at(v, i, &note) {
        11
    } else if matches_at(v, i, &nevent) {
        13
    } else {
        0
    };
    assert(h == ref_head_len(s));
    if h == 0 {
        return 0;
    }
    assert(s.skip(h as int) =~= v@.skip((i + h) as int));
    assert(i + h <= len);
    let r = lower_alnum_run(v, i + h);
    if r == 0 {
        return 0;
    }
    if !with_space {
        return h + r;
    }
    assert(s.skip((h + r) as int) =~= v@.skip((i + h + r) as int));
    let w = space_run(v, i + h + r);
    h + r + w
}

/// The characters of a post that count toward the limit: the post without
/// its note references and the whitespace after each.
pub fn strip_note_references(content: &str) -> (s: String)
    ensures
        s@ == strip_refs(content@),
{
    let v = str_chars(content);
    let mut out: Vec<char> = Vec::new();
    let mut i: usize = 0;
    assert(v@.skip(0) =~= v@);
    while i < v.len()
        invariant
            i <= v@.len(),
            v@ == content@,
            strip_refs(content@) == out@ + strip_refs(v@.skip(i as int)),
        decreases v@.len() - i,
    {
        let ghost s = v@.skip(i as int);
        let m = ref_at(&v, i, true);
        if m > 0 {
            assert(s.skip(m as int) =~= v@.skip((i + m) as int));
            i = i + m;
        } else {
            let ghost before = out@;
            out.push(v[i]);
            assert(s.skip(1) =~= v@.skip(i as int + 1));
            assert(out@ + strip_refs(v@.skip(i as int + 1)) =~= before + (seq![s[0]] + strip_refs(s.skip(1))));
            i = i + 1;
        }
    }
    assert(v@.skip(v@.len() as int) =~= Seq::<char>::empty());
    assert(out@ + Seq::<char>::empty() =~= out@);
    string_from_chars(&out)
}

/// How many characters of the post count toward the limit.
pub fn effective_length(content: &str) -> (n: usize)
    ensures
        n == effective_len(content@),
{
    let s = strip_note_references(content);
    let v = str_chars(s.as_str());
    v.len()
}

/// Why a post was refused.
#[derive(Debug, PartialEq, Eq, Structural, Copy, Clone)]
pub enum PostError {
    /// Longer than the limit; carries the length that counts.
    TooLong { length: usize },
}

/// Accepts a post whose counted length is at most 140 characters.
pub fn check_post_length(content: &str) -> (r: Result<(), PostError>)
    ensures
        r is Ok <==> effective_len(content@) <= MAX_POST_LENGTH,
        r matches Err(PostError::TooLong { length }) ==> length == effective_len(content@),
{
    let n = effective_length(content);
    if n > MAX_POST_LENGTH {
        Err(PostError::TooLong { length: n })
    } else {
        Ok(())
    }
}

// ---------------------------------------------------------------------------
// Custom emoji shortcodes
// ---------------------------------------------------------------------------

/// Whether `regex_syntax::is_word_character` holds of the character (a
/// Unicode word character, what `\w` matches).
pub uninterp spec fn spec_is_word_char(c: char) -> bool;

/// `regex_syntax::is_word_character`. Claimed: the result is the named one.
/// (The crate is built with its default `unicode-perl` feature, so the call
/// does not panic.)
#[verifier::external_body]
fn is_word_char(c: char) -> (r: bool)
    ensures
        r == spec_is_word_char(c),
{
    regex_syntax::is_word_character(c)
}

pub open spec fn word() -> spec_fn(char) -> bool {
    |c: char| spec_is_word_char(c)
}

/// Length of the `:(\w+):` shortcode at the start of `s`, or 0.
pub open spec fn shortcode_len(s: Seq<char>) -> nat {
    if s.len() > 0 && s[0] == ':' {
        let w = run_len(s.skip(1), word());
        if w > 0 && 1 + w < s.len() && s[(1 + w) as int] == ':' {
            w + 2
        } else {
            0
        }
    } else {
        0
    }
}

/// The shortcodes (without colons) of the `:(\w+):` matches in `s`, left to
/// right, matches not overlapping.
pub open spec fn shortcodes(s: Seq<char>) -> Seq<Seq<char>>
    decreases s.len(),
{
    if s.len() == 0 {
        Seq::empty()
    } else {
        let m = shortcode_len(s);
        if m > 0 && m <= s.len() {
            seq![s.subrange(1, m - 1)] + shortcodes(s.skip(m as int))
        } else {
            shortcodes(s.skip(1))
        }
    }
}

fn word_run(v: &[char], i: usize) -> (n: usize)
    requires
        i <= v@.len(),
    ensures
        n == run_len(v@.skip(i as int), word()),
        i + n <= v@.len(),
{
    let mut j: usize = i;
    while j < v.len() && is_word_char(v[j])
        invariant
            i <= j <= v@.len(),
            run_len(v@.skip(i as int), word()) == (j - i) + run_len(v@.skip(j as int), word()),
        decreases v@.len() - j,
    {
        assert(v@.skip(j as int).skip(1) =~= v@.skip(j as int + 1));
        j = j + 1;
    }
    j - i
}

pub(crate) fn shortcode_at(v: &[char], i: usize) -> (n: usize)
    requires
        i <= v@.len(),
    ensures
        n == shortcode_len(v@.skip(i as int)),
        i + n <= v@.len(),
{
    let ghost s = v@.skip(i as int);
    if i < v.len() && v[i] == ':' {
        assert(s.skip(1) =~= v@.skip(i as int + 1));
        let w = word_run(v, i + 1);
        if w > 0 && i + 1 + w < v.len() && v[i + 1 + w] == ':' {
            return w + 2;
        }
    }
    0
}

/// The shortcodes written as `:name:` in the text, in order.
pub fn shortcodes_in(text: &str) -> (r: Vec<String>)
    ensures
        r@.len() == shortcodes(text@).len(),
        forall|j: int| 0 <= j < r@.len() ==> #[trigger] r@[j]@ == shortcodes(text@)[j],
{
    let v = str_chars(text);
    let mut out: Vec<String> = Vec::new();
    let mut i: usize = 0;
    let ghost mut found: Seq<Seq<char>> = Seq::empty();
    assert(v@.skip(0) =~= v@);
    while i < v.len()
        invariant
            i <= v@.len(),
            v@ == text@,
            shortcodes(text@) == found + shortcodes(v@.skip(i as int)),
            out@.len() == found.len(),
            forall|j: int| 0 <= j < out@.len() ==> #[trigger] out@[j]@ == found[j],
        decreases v@.len() - i,
    {
        let ghost s = v@.skip(i as int);
        let m = shortcode_at(&v, i);
        if m > 0 {
            let code = chars_slice(&v, i + 1, i + m - 1);
            assert(code@ =~= s.subrange(1, m - 1));
            assert(s.skip(m as int) =~= v@.skip((i + m) as int));
            proof {
                assert(found + shortcodes(s) =~= found.push(code@) + shortcodes(s.skip(m as int)));
                found = found.push(code@);
            }
            out.push(string_from_chars(&code));
            i = i + m;
        } else {
            assert(s.skip(1) =~= v@.skip(i as int + 1));
            i = i + 1;
        }
    }
    assert(v@.skip(v@.len() as int) =~= Seq::<char>::empty());
    assert(found + Seq::<Seq<char>>::empty() =~= found);
    out
}

/// The distinct elements of `s`, in order of first appearance.
pub open spec fn distinct_in_order(s: Seq<Seq<char>>) -> Seq<Seq<char>>
    decreases s.len(),
{
    if s.len() == 0 {
        s
    } else {
        let rest = distinct_in_order(s.drop_last());
        if rest.contains(s.last()) {
            rest
        } else {
            rest.push(s.last())
        }
    }
}

/// The emoji tags of a post: `["emoji", shortcode, url]` for each distinct
/// shortcode used in it that the user has an image for.
pub open spec fn emoji_tags_for(codes: Seq<Seq<char>>, emojis: Map<Seq<char>, Seq<char>>) -> Seq<Seq<Seq<char>>>
    decreases codes.len(),
{
    if codes.len() == 0 {
        Seq::empty()
    } else {
        let rest = emoji_tags_for(codes.drop_last(), emojis);
        let c = codes.last();
        if emojis.contains_key(c) {
            rest.push(seq![seq!['e', 'm', 'o', 'j', 'i'], c, emojis[c]])
        } else {
            rest
        }
    }
}

fn contains_chars(v: &Vec<String>, s: &String) -> (r: bool)
    ensures
        r == v@.map_values(|x: String| x@).contains(s@),
{
    let want = str_chars(s.as_str());
    let mut i: usize = 0;
    while i < v.len()
        invariant
            i <= v@.len(),
            want@ == s@,
            forall|j: int| 0 <= j < i ==> #[trigger] v@[j]@ != s@,
        decreases v@.len() - i,
    {
        if str_is(v[i].as_str(), &want) {
            assert(v@.map_values(|x: String| x@)[i as int] == s@);
            return true;
        }
        i = i + 1;
    }
    proof {
        let m = v@.map_values(|x: String| x@);
        if m.contains(s@) {
            let j = choose|j: int| 0 <= j < m.len() && #[trigger] m[j] == s@;
            assert(v@[j]@ == s@);
        }
    }
    false
}

/// The emoji tag of a shortcode and its image.
pub open spec fn emoji_tag(code: Seq<char>, url: Seq<char>) -> Seq<Seq<char>> {
    seq![seq!['e', 'm', 'o', 'j', 'i'], code, url]
}

proof fn lemma_distinct_keeps(s: Seq<Seq<char>>, c: Seq<char>)
    ensures
        distinct_in_order(s).contains(c) <==> s.contains(c),
    decreases s.len(),
{
    if s.len() > 0 {
        let t = s.drop_last();
        lemma_distinct_keeps(t, c);
        let d = distinct_in_order(t);
        if s.contains(c) && !t.contains(c) {
            let i = choose|i: int| 0 <= i < s.len() && s[i] == c;
            if i < t.len() {
                assert(t[i] == c);
            }
            assert(s.last() == c);
        }
        if t.contains(c) {
            let i = choose|i: int| 0 <= i < t.len() && t[i] == c;
            assert(s[i] == c);
        }
        if s.last() == c {
            assert(s[s.len() - 1] == c);
        }
        if !d.contains(s.last()) {
            assert(d.push(s.last()).last() == s.last());
            if d.push(s.last()).contains(c) && c != s.last() {
                let i = choose|i: int| 0 <= i < d.push(s.last()).len() && d.push(s.last())[i] == c;
                assert(d[i] == c);
            }
            if d.contains(c) {
                let i = choose|i: int| 0 <= i < d.len() && d[i] == c;
                assert(d.push(s.last())[i] == c);
            }
        }
    }
}

proof fn lemma_tags_for_known(codes: Seq<Seq<char>>, emojis: Map<Seq<char>, Seq<char>>, c: Seq<char>)
    requires
        codes.contains(c),
        emojis.contains_key(c),
    ensures
        emoji_tags_for(codes, emojis).contains(emoji_tag(c, emojis[c])),
    decreases codes.len(),
{
    let t = codes.drop_last();
    let rest = emoji_tags_for(t, emojis);
    if codes.last() == c {
        assert(emoji_tags_for(codes, emojis) == rest.push(emoji_tag(c, emojis[c])));
        assert(rest.push(emoji_tag(c, emojis[c]))[rest.len() as int] == emoji_tag(c, emojis[c]));
    } else {
        let i = choose|i: int| 0 <= i < codes.len() && codes[i] == c;
        assert(i < t.len());
        assert(t[i] == c);
        lemma_tags_for_known(t, emojis, c);
        let j = choose|j: int| 0 <= j < rest.len() && rest[j] == emoji_tag(c, emojis[c]);
        if emojis.contains_key(codes.last()) {
            let x = emoji_tag(codes.last(), emojis[codes.last()]);
            assert(emoji_tags_for(codes, emojis) == rest.push(x));
            assert(rest.push(x)[j] == rest[j]);
        }
    }
}

proof fn lemma_tags_for_sound(codes: Seq<Seq<char>>, emojis: Map<Seq<char>, Seq<char>>, t: Seq<Seq<char>>)
    requires
        emoji_tags_for(codes, emojis).contains(t),
    ensures
        exists|c: Seq<char>| codes.contains(c) && emojis.contains_key(c) && t == emoji_tag(c, emojis[c]),
    decreases codes.len(),
{
    let d = codes.drop_last();
    let rest = emoji_tags_for(d, emojis);
    let c = codes.last();
    assert(codes[codes.len() - 1] == c);
    if codes.len() == 0 {
        assert(emoji_tags_for(codes, emojis) =~= Seq::<Seq<Seq<char>>>::empty());
    } else if emojis.contains_key(c) && t == emoji_tag(c, emojis[c]) {
        assert(codes.contains(c));
        assert(codes.contains(c) && emojis.contains_key(c) && t == emoji_tag(c, emojis[c]));
    } else {
        let k = choose|k: int| 0 <= k < emoji_tags_for(codes, emojis).len() && emoji_tags_for(codes, emojis)[k] == t;
        if emojis.contains_key(c) {
            assert(emoji_tags_for(codes, emojis) == rest.push(emoji_tag(c, emojis[c])));
            assert(k < rest.len());
            assert(rest[k] == t);
        } else {
            assert(rest[k] == t);
        }
        lemma_tags_for_sound(d, emojis, t);
        let c2 = choose|c2: Seq<char>| d.contains(c2) && emojis.contains_key(c2) && t == emoji_tag(c2, emojis[c2]);
        let i = choose|i: int| 0 <= i < d.len() && d[i] == c2;
        assert(codes[i] == c2);
        assert(codes.contains(c2));
        assert(codes.contains(c2) && emojis.contains_key(c2) && t == emoji_tag(c2, emojis[c2]));
    }
}

/// The emoji tags of a post are exactly those of the shortcodes it uses that
/// the user has an emoji for: each such shortcode gets its tag, whatever
/// other shortcodes the post uses, and every tag is of such a shortcode.
pub proof fn lemma_emoji_tags_are_the_known_used_codes(codes: Seq<Seq<char>>, emojis: Map<Seq<char>, Seq<char>>, t: Seq<Seq<char>>)
    ensures
        emoji_tags_for(distinct_in_order(codes), emojis).contains(t)
            <==> exists|c: Seq<char>| codes.contains(c) && emojis.contains_key(c) && t == emoji_tag(c, emojis[c]),
{
    let d = distinct_in_order(codes);
    if emoji_tags_for(d, emojis).contains(t) {
        lemma_tags_for_sound(d, emojis, t);
        let c = choose|c: Seq<char>| d.contains(c) && emojis.contains_key(c) && t == emoji_tag(c, emojis[c]);
        lemma_distinct_keeps(codes, c);
    }
    if exists|c: Seq<char>| codes.contains(c) && emojis.contains_key(c) && t == emoji_tag(c, emojis[c]) {
        let c = choose|c: Seq<char>| codes.contains(c) && emojis.contains_key(c) && t == emoji_tag(c, emojis[c]);
        lemma_distinct_keeps(codes, c);
        lemma_tags_for_known(d, emojis, c);
    }
}

/// The custom-emoji tags to attach to a post.
pub fn emoji_tags_for_post(content: &str, my_emojis: &EmojiMap) -> (tags: Vec<Vec<String>>)
    ensures
        tags.deep_view() == emoji_tags_for(distinct_in_order(shortcodes(content@)), my_emojis@),
        forall|t: Seq<Seq<char>>| tags.deep_view().contains(t) <==> exists|c: Seq<char>|
            shortcodes(content@).contains(c) && my_emojis@.contains_key(c) && t == emoji_tag(c, my_emojis@[c]),
{
    proof {
        assert forall|t: Seq<Seq<char>>| emoji_tags_for(distinct_in_order(shortcodes(content@)), my_emojis@).contains(t)
            <==> exists|c: Seq<char>| shortcodes(content@).contains(c) && my_emojis@.contains_key(c)
                && t == emoji_tag(c, my_emojis@[c]) by {
            lemma_emoji_tags_are_the_known_used_codes(shortcodes(content@), my_emojis@, t);
        }
    }
    let codes = shortcodes_in(content);
    let ghost all = shortcodes(content@);
    let mut seen: Vec<String> = Vec::new();
    let mut tags: Vec<Vec<String>> = Vec::new();
    let mut i: usize = 0;
    assert(all.take(0) =~= Seq::<Seq<char>>::empty());
    while i < codes.len()
        invariant
            i <= codes@.len(),
            codes@.len() == all.len(),
            forall|j: int| 0 <= j < codes@.len() ==> #[trigger] codes@[j]@ == all[j],
            seen@.map_values(|x: String| x@) == distinct_in_order(all.take(i as int)),
            tags.deep_view() == emoji_tags_for(distinct_in_order(all.take(i as int)), my_emojis@),
        decreases codes@.len() - i,
    {
        let c = &codes[i];
        let ghost t = all.take(i as int + 1);
        assert(t.drop_last() =~= all.take(i as int));
        assert(t.last() == c@);
        let ghost prev = distinct_in_order(all.take(i as int));
        if !contains_chars(&seen, c) {
            let ghost prev_tags = tags.deep_view();
            seen.push(c.clone());
            assert(seen@.map_values(|x: String| x@) =~= prev.push(c@));
            assert(prev.push(c@).drop_last() =~= prev);
            match my_emojis.get(c.as_str()) {
                Some(url) => {
                    let mut tag: Vec<String> = Vec::new();
                    let emoji_chars: Vec<char> = vec!['e', 'm', 'o', 'j', 'i'];
                    let name = string_from_chars(&emoji_chars);
                    tag.push(name);
                    tag.push(c.clone());
                    tag.push(url);
                    proof {
                        assert(tag@[0]@ == seq!['e', 'm', 'o', 'j', 'i']);
                        assert(tag@[1]@ == c@);
                        assert(tag@[2]@ == my_emojis@[c@]);
                        assert(tag.deep_view() =~= seq![seq!['e', 'm', 'o', 'j', 'i'], c@, my_emojis@[c@]]);
                    }
                    tags.push(tag);
                    assert(tags.deep_view() =~= prev_tags.push(seq![seq!['e', 'm', 'o', 'j', 'i'], c@, my_emojis@[c@]]));
                },
                None => {},
            }
        }
        i = i + 1;
    }
    assert(all.take(codes@.len() as int) =~= all);
    tags
}

// ---------------------------------------------------------------------------
// Layout
// ---------------------------------------------------------------------------

pub const KIND_TEXT_NOTE: u16 = 1;
pub const KIND_REACTION: u16 = 7;

/// The event id of the first tag the `nostr` crate reads as an `e` tag.
pub open spec fn first_event_ref(tags: Seq<Seq<Seq<char>>>) -> Option<Seq<char>>
    decreases tags.len(),
{
    if tags.len() == 0 {
        None
    } else {
        match spec_standard_tag(tags[0]) {
            StandardTagView::Event(id) => Some(id),
            _ => first_event_ref(tags.skip(1)),
        }
    }
}

/// Whether `s` holds a note reference somewhere.
pub open spec fn has_ref(s: Seq<char>) -> bool {
    exists|i: int| 0 <= i <= s.len() && #[trigger] ref_len(s.skip(i)) > 0
}

/// How a note is shown.
pub enum PostLayout {
    /// A reaction to the given event, shown with that event quoted.
    ReactionTo { event_id: String },
    /// A reply to the given event, shown with that event quoted.
    ReplyTo { event_id: String },
    /// The content alone (quotes inside it are shown inline).
    Content,
}

pub enum LayoutView {
    ReactionTo(Seq<char>),
    ReplyTo(Seq<char>),
    Content,
}

impl View for PostLayout {
    type V = LayoutView;

    open spec fn view(&self) -> LayoutView {
        match self {
            PostLayout::ReactionTo { event_id } => LayoutView::ReactionTo(event_id@),
            PostLayout::ReplyTo { event_id } => LayoutView::ReplyTo(event_id@),
            PostLayout::Content => LayoutView::Content,
        }
    }
}

/// The layout of a note of `kind` with these tags and content: a reaction
/// naming an event is shown with it; a text note naming an event is a reply
/// unless its content quotes a note; everything else is its content.
pub open spec fn spec_layout(kind: u16, tags: Seq<Seq<Seq<char>>>, content: Seq<char>) -> LayoutView {
    if kind == KIND_REACTION {
        match first_event_ref(tags) {
            Some(id) => LayoutView::ReactionTo(id),
            None => LayoutView::Content,
        }
    } else if kind == KIND_TEXT_NOTE {
        match first_event_ref(tags) {
            Some(id) => if has_ref(content) { LayoutView::Content } else { LayoutView::ReplyTo(id) },
            None => LayoutView::Content,
        }
    } else {
        LayoutView::Content
    }
}

fn first_event_tag(tags: &Vec<Vec<String>>) -> (r: Option<String>)
    ensures
        r matches Some(id) ==> first_event_ref(tags.deep_view()) == Some(id@),
        r is None ==> first_event_ref(tags.deep_view()) is None,
{
    let ghost tv = tags.deep_view();
    let mut i: usize = 0;
    assert(tv.skip(0) =~= tv);
    while i < tags.len()
        invariant
            i <= tags@.len(),
            tv == tags.deep_view(),
            first_event_ref(tv) == first_event_ref(tv.skip(i as int)),
        decreases tags@.len() - i,
    {
        let ghost s = tv.skip(i as int);
        assert(s[0] == tags@[i as int].deep_view());
        assert(s.skip(1) =~= tv.skip(i as int + 1));
        match standard_tag(&tags[i]) {
            StandardTag::Event { event_id } => {
                return Some(event_id);
            },
            _ => {},
        }
        i = i + 1;
    }
    assert(tv.skip(tags@.len() as int) =~= Seq::<Seq<Seq<char>>>::empty());
    None
}

fn contains_reference(content: &str) -> (r: bool)
    ensures
        r == has_ref(content@),
{
    let v = str_chars(content);
    let mut i: usize = 0;
    while i < v.len()
        invariant
            i <= v@.len(),
            v@ == content@,
            forall|j: int| 0 <= j < i ==> #[trigger] ref_len(v@.skip(j)) == 0,
        decreases v@.len() - i,
    {
        if ref_at(&v, i, false) > 0 {
            return true;
        }
        i = i + 1;
    }
    ref_at(&v, i, false) > 0
}

/// How to show a note.
pub fn post_layout(kind: u16, tags: &Vec<Vec<String>>, content: &str) -> (l: PostLayout)
    ensures
        l@ == spec_layout(kind, tags.deep_view(), content@),
{
    if kind == KIND_REACTION {
        match first_event_tag(tags) {
            Some(id) => PostLayout::ReactionTo { event_id: id },
            None => PostLayout::Content,
        }
    } else if kind == KIND_TEXT_NOTE {
        match first_event_tag(tags) {
            Some(id) => if contains_reference(content) {
                PostLayout::Content
            } else {
                PostLayout::ReplyTo { event_id: id }
            },
            None => PostLayout::Content,
        }
    } else {
        PostLayout::Content
    }
}

/// The first tag whose name is `name`.
pub open spec fn first_named(tags: Seq<Seq<Seq<char>>>, name: Seq<char>) -> Option<Seq<Seq<char>>>
    decreases tags.len(),
{
    if tags.len() == 0 {
        None
    } else if tags[0].len() >= 1 && tags[0][0] == name {
        Some(tags[0])
    } else {
        first_named(tags.skip(1), name)
    }
}

/// A music status (NIP-38): the first `d` tag is `["d", "music", ...]`. Its
/// link is the value of the first `r` tag, if that tag has one.
pub open spec fn spec_music_status(tags: Seq<Seq<Seq<char>>>) -> Option<Option<Seq<char>>> {
    match first_named(tags, seq!['d']) {
        Some(d) => if d.len() >= 2 && d[1] == seq!['m', 'u', 's', 'i', 'c'] {
            Some(match first_named(tags, seq!['r']) {
                Some(r) => if r.len() >= 2 { Some(r[1]) } else { None },
                None => None,
            })
        } else {
            None
        },
        None => None,
    }
}

fn find_named(tags: &Vec<Vec<String>>, name: &[char]) -> (r: Option<usize>)
    ensures
        r matches Some(i) ==> i < tags@.len() && first_named(tags.deep_view(), name@) == Some(tags.deep_view()[i as int]),
        r is None ==> first_named(tags.deep_view(), name@) is None,
{
    let ghost tv = tags.deep_view();
    let mut i: usize = 0;
    assert(tv.skip(0) =~= tv);
    while i < tags.len()
        invariant
            i <= tags@.len(),
            tv == tags.deep_view(),
            first_named(tv, name@) == first_named(tv.skip(i as int), name@),
        decreases tags@.len() - i,
    {
        let ghost s = tv.skip(i as int);
        assert(s[0] == tags@[i as int].deep_view());
        assert(s.skip(1) =~= tv.skip(i as int + 1));
        if tags[i].len() >= 1 && str_is(tags[i][0].as_str(), name) {
            assert(s[0][0] == tags@[i as int]@[0]@);
            return Some(i);
        }
        proof {
            if tags@[i as int]@.len() >= 1 {
                assert(s[0][0] == tags@[i as int]@[0]@);
            }
        }
        i = i + 1;
    }
    assert(tv.skip(tags@.len() as int) =~= Seq::<Seq<Seq<char>>>::empty());
    None
}

/// `Some(link)` for a music status, `None` for any other note.
pub fn music_status(tags: &Vec<Vec<String>>) -> (r: Option<Option<String>>)
    ensures
        match r {
            Some(Some(l)) => spec_music_status(tags.deep_view()) == Some(Some(l@)),
            Some(None) => spec_music_status(tags.deep_view()) == Some(None::<Seq<char>>),
            None => spec_music_status(tags.deep_view()) is None,
        },
{
    let d: Vec<char> = vec!['d'];
    let music: Vec<char> = vec!['m', 'u', 's', 'i', 'c'];
    let r_name: Vec<char> = vec!['r'];
    assert(d@ == seq!['d']);
    assert(music@ == seq!['m', 'u', 's', 'i', 'c']);
    assert(r_name@ == seq!['r']);
    let ghost tv = tags.deep_view();
    match find_named(tags, &d) {
        None => None,
        Some(i) => {
            assert(tv[i as int] == tags@[i as int].deep_view());
            if tags[i].len() >= 2 && str_is(tags[i][1].as_str(), &music) {
                assert(tv[i as int][1] == tags@[i as int]@[1]@);
                match find_named(tags, &r_name) {
                    Some(j) => {
                        assert(tv[j as int] == tags@[j as int].deep_view());
                        if tags[j].len() >= 2 {
                            assert(tv[j as int][1] == tags@[j as int]@[1]@);
                            Some(Some(tags[j][1].clone()))
                        } else {
                            Some(None)
                        }
                    },
                    None => Some(None),
                }
            } else {
                proof {
                    if tags@[i as int]@.len() >= 2 {
                        assert(tv[i as int][1] == tags@[i as int]@[1]@);
                    }
                }
                None
            }
        },
    }
}

// ---------------------------------------------------------------------------
// Status posts (NIP-38)
// ---------------------------------------------------------------------------

/// The kind of a user status (NIP-38), a replaceable event.
pub const KIND_USER_STATUS: u16 = 30315;

/// What a status is about.
#[derive(Debug, PartialEq, Eq, Structural, Copy, Clone)]
pub enum StatusType {
    General,
    Music,
    Podcast,
}

/// The `d` value of a status type, which makes each type its own
/// replaceable status.
pub open spec fn status_d(t: StatusType) -> Seq<char> {
    match t {
        StatusType::General => seq!['g', 'e', 'n', 'e', 'r', 'a', 'l'],
        StatusType::Music => seq!['m', 'u', 's', 'i', 'c'],
        StatusType::Podcast => seq!['p', 'o', 'd', 'c', 'a', 's', 't'],
    }
}

/// The tags of a status: `["d", <type>]`, then `["r", <link>]` when a link
/// is given and not empty.
pub open spec fn spec_status_tags(t: StatusType, link: Option<Seq<char>>) -> Seq<Seq<Seq<char>>> {
    let d = seq![seq![seq!['d'], status_d(t)]];
    match link {
        Some(l) => if l.len() > 0 { d.push(seq![seq!['r'], l]) } else { d },
        None => d,
    }
}

pub fn status_tags(status_type: StatusType, link: Option<&str>) -> (tags: Vec<Vec<String>>)
    ensures
        tags.deep_view() == spec_status_tags(status_type, match link { Some(l) => Some(l@), None => None }),
{
    let d: Vec<char> = vec!['d'];
    let value: Vec<char> = match status_type {
        StatusType::General => vec!['g', 'e', 'n', 'e', 'r', 'a', 'l'],
        StatusType::Music => vec!['m', 'u', 's', 'i', 'c'],
        StatusType::Podcast => vec!['p', 'o', 'd', 'c', 'a', 's', 't'],
    };
    assert(d@ =~= seq!['d']);
    assert(value@ =~= status_d(status_type));
    let mut t0: Vec<String> = Vec::new();
    t0.push(string_from_chars(&d));
    t0.push(string_from_chars(&value));
    let ghost d0 = t0.deep_view();
    assert(d0 =~= seq![seq!['d'], status_d(status_type)]);
    let mut tags: Vec<Vec<String>> = Vec::new();
    tags.push(t0);
    assert(tags.deep_view() =~= seq![d0]);
    match link {
        Some(l) => {
            let lc = str_chars(l);
            if lc.len() > 0 {
                let r: Vec<char> = vec!['r'];
                let mut t1: Vec<String> = Vec::new();
                t1.push(string_from_chars(&r));
                t1.push(string_from_chars(&lc));
                let ghost d1 = t1.deep_view();
                assert(r@ =~= seq!['r']);
                assert(d1 =~= seq![seq!['r'], l@]);
                tags.push(t1);
                assert(tags.deep_view() =~= seq![d0].push(d1));
            }
        },
        None => {},
    }
    tags
}

/// A music status published with a link is shown as a music status with
/// that link; a status of another type is not shown as music.
pub proof fn lemma_music_status_shown(t: StatusType, link: Seq<char>)
    ensures
        t == StatusType::Music && link.len() > 0
            ==> spec_music_status(spec_status_tags(t, Some(link))) == Some(Some(link)),
        t == StatusType::Music ==> spec_music_status(spec_status_tags(t, None)) == Some(None::<Seq<char>>),
        t != StatusType::Music ==> spec_music_status(spec_status_tags(t, Some(link))) is None,
{
    let tags = spec_status_tags(t, Some(link));
    let bare = spec_status_tags(t, None);
    assert(seq!['d'] != seq!['r']) by {
        assert(seq!['d'][0] != seq!['r'][0]);
    }
    assert(first_named(tags, seq!['d']) == Some(tags[0]));
    assert(first_named(bare, seq!['d']) == Some(bare[0]));
    assert(bare.skip(1) =~= Seq::<Seq<Seq<char>>>::empty());
    assert(first_named(bare, seq!['r']) == first_named(bare.skip(1), seq!['r']));
    if link.len() > 0 {
        assert(tags.skip(1)[0] == tags[1]);
        assert(first_named(tags.skip(1), seq!['r']) == Some(tags[1]));
    }
    if t != StatusType::Music {
        let m = seq!['m', 'u', 's', 'i', 'c'];
        assert(tags[0][1] != m) by {
            if t == StatusType::General {
                assert(tags[0][1][0] != m[0]);
            } else {
                assert(tags[0][1][0] != m[0]);
            }
        }
    }
}

// ---------------------------------------------------------------------------
// Short forms
// ---------------------------------------------------------------------------

/// Longest quoted text, in characters, before it is cut.
pub const QUOTE_PREVIEW_LEN: usize = 120;

/// The text of a quoted note on one line, cut to 120 characters followed by
/// `...` when longer.
pub open spec fn spec_quote_preview(content: Seq<char>) -> Seq<char> {
    let one_line = content.map_values(|c: char| if c == '\n' { ' ' } else { c });
    if one_line.len() > QUOTE_PREVIEW_LEN {
        one_line.take(QUOTE_PREVIEW_LEN as int) + seq!['.', '.', '.']
    } else {
        one_line
    }
}

pub fn quote_preview(content: &str) -> (s: String)
    ensures
        s@ == spec_quote_preview(content@),
{
    let v = str_chars(content);
    let mut out: Vec<char> = Vec::new();
    let mut i: usize = 0;
    while i < v.len()
        invariant
            i <= v@.len(),
            v@ == content@,
            out@ == v@.take(i as int).map_values(|c: char| if c == '\n' { ' ' } else { c }),
        decreases v@.len() - i,
    {
        let c = v[i];
        out.push(if c == '\n' { ' ' } else { c });
        assert(v@.take(i as int + 1).map_values(|c: char| if c == '\n' { ' ' } else { c })
            =~= v@.take(i as int).map_values(|c: char| if c == '\n' { ' ' } else { c }).push(if c == '\n' { ' ' } else { c }));
        i = i + 1;
    }
    assert(v@.take(v@.len() as int) =~= v@);
    if out.len() > QUOTE_PREVIEW_LEN {
        let mut cut = chars_slice(&out, 0, QUOTE_PREVIEW_LEN);
        cut.push('.');
        cut.push('.');
        cut.push('.');
        assert(cut@ =~= out@.take(QUOTE_PREVIEW_LEN as int) + seq!['.', '.', '.']);
        string_from_chars(&cut)
    } else {
        string_from_chars(&out)
    }
}

/// The `npub` form of a public key given in hex, as
/// `PublicKey::from_hex(..)` then `to_bech32()` of the `nostr` crate give it.
pub uninterp spec fn spec_npub(pubkey_hex: Seq<char>) -> Option<Seq<char>>;

/// `nostr::PublicKey::from_hex` followed by `ToBech32::to_bech32`. Claimed:
/// the result is the named one.
#[verifier::external_body]
fn npub_of(pubkey_hex: &str) -> (r: Option<String>)
    ensures
        r matches Some(s) ==> spec_npub(pubkey_hex@) == Some(s@),
        r is None ==> spec_npub(pubkey_hex@) is None,
{
    nostr::PublicKey::from_hex(pubkey_hex).ok().and_then(|k| k.to_bech32().ok())
}

/// The short form of an `npub`: its first eight characters, `...`, and its
/// last four.
pub open spec fn spec_short_npub(npub: Seq<char>) -> Seq<char> {
    npub.take(8) + seq!['.', '.', '.'] + npub.skip(npub.len() - 4)
}

/// `r` holds a string with the characters `s`.
pub open spec fn is_text(r: Option<String>, s: Seq<char>) -> bool {
    match r {
        Some(x) => x@ == s,
        None => false,
    }
}

/// The name shown for an author: the profile name, or else the short form of
/// the author's `npub`. `None` where the key has no `npub` of at least eight
/// characters (the client cannot show such an author).
pub fn author_display_name(name: &str, pubkey_hex: &str) -> (r: Option<String>)
    ensures
        name@.len() > 0 ==> is_text(r, name@),
        name@.len() == 0 ==> match spec_npub(pubkey_hex@) {
            Some(n) => if n.len() >= 8 { is_text(r, spec_short_npub(n)) } else { r is None },
            None => r is None,
        },
{
    let name_chars = str_chars(name);
    if name_chars.len() > 0 {
        return Some(string_from_chars(&name_chars));
    }
    match npub_of(pubkey_hex) {
        Some(npub) => {
            let v = str_chars(npub.as_str());
            if v.len() < 8 {
                return None;
            }
            let mut out = chars_slice(&v, 0, 8);
            out.push('.');
            out.push('.');
            out.push('.');
            let tail = chars_slice(&v, v.len() - 4, v.len());
            push_chars(&mut out, &tail);
            assert(out@ =~= spec_short_npub(v@));
            Some(string_from_chars(&out))
        },
        None => None,
    }
}

// ---------------------------------------------------------------------------
// Quoting
// ---------------------------------------------------------------------------

/// The NIP-19 `nevent` of an event (hex id) with its author (hex key, left
/// out where it is not a key) and relays, as the `nostr` crate encodes it;
/// `None` where the id is not one or the encoding fails.
pub uninterp spec fn spec_nevent(event_id_hex: Seq<char>, author_hex: Seq<char>, relays: Seq<Seq<char>>) -> Option<Seq<char>>;

/// The NIP-19 `note` of an event (hex id), as the `nostr` crate encodes it;
/// `None` where the id is not one.
pub uninterp spec fn spec_note_bech32(event_id_hex: Seq<char>) -> Option<Seq<char>>;

pub open spec fn opt_chars(r: Option<String>) -> Option<Seq<char>> {
    match r {
        Some(s) => Some(s@),
        None => None,
    }
}

/// `EventId::from_hex`, `PublicKey::from_hex` and `RelayUrl::parse` of the
/// arguments, then `Nip19Event::to_bech32`. Claimed: the result is the named
/// one. The body gives `None` when the id does not parse, when any relay does
/// not parse, or when the encoding fails; an author that does not parse is
/// left out.
#[verifier::external_body]
fn nevent_of(event_id_hex: &str, author_hex: &str, relays: &Vec<String>) -> (r: Option<String>)
    ensures
        opt_chars(r) == spec_nevent(event_id_hex@, author_hex@, relays@.map_values(|s: String| s@)),
{
    let id = nostr::EventId::from_hex(event_id_hex).ok()?;
    let urls: Option<Vec<nostr::RelayUrl>> = relays.iter().map(|s| nostr::RelayUrl::parse(s).ok()).collect();
    let mut event = nostr::nips::nip19::Nip19Event::new(id);
    event.author = nostr::PublicKey::from_hex(author_hex).ok();
    event.relays = urls?;
    event.to_bech32().ok()
}

/// `EventId::from_hex` then `ToBech32::to_bech32`. Claimed: the result is the
/// named one.
#[verifier::external_body]
fn note_of(event_id_hex: &str) -> (r: Option<String>)
    ensures
        opt_chars(r) == spec_note_bech32(event_id_hex@),
{
    nostr::EventId::from_hex(event_id_hex).ok().and_then(|id| id.to_bech32().ok())
}

pub open spec fn nostr_scheme() -> Seq<char> {
    seq!['n', 'o', 's', 't', 'r', ':']
}

/// The start of a post that quotes a NIP-19 reference: `nostr:<reference>`
/// and an empty line.
pub open spec fn spec_quote_text(reference: Seq<char>) -> Seq<char> {
    nostr_scheme() + reference + seq!['\n', '\n']
}

pub fn quote_text(reference: &str) -> (s: String)
    ensures
        s@ == spec_quote_text(reference@),
{
    let mut out: Vec<char> = vec!['n', 'o', 's', 't', 'r', ':'];
    push_str(&mut out, reference);
    out.push('\n');
    out.push('\n');
    assert(out@ =~= spec_quote_text(reference@));
    string_from_chars(&out)
}

/// What the post box starts with when a note is quoted: its `nevent` (with
/// the author and the aggregator relays that parse), or else its `note`.
pub open spec fn spec_quote_input(event_id: Seq<char>, author: Seq<char>, relays: Seq<Seq<char>>) -> Option<Seq<char>> {
    let reference = match spec_nevent(event_id, author, parsed_urls(relays)) {
        Some(n) => Some(n),
        None => spec_note_bech32(event_id),
    };
    match reference {
        Some(r) => Some(spec_quote_text(r)),
        None => None,
    }
}

pub fn quote_input(event_id_hex: &str, author_hex: &str, aggregator: &Vec<String>) -> (r: Option<String>)
    ensures
        opt_chars(r) == spec_quote_input(event_id_hex@, author_hex@, texts(aggregator@)),
{
    let urls = parsed_relay_urls(aggregator);
    assert(urls@.map_values(|s: String| s@) =~= texts(urls@));
    let reference = match nevent_of(event_id_hex, author_hex, &urls) {
        Some(n) => Some(n),
        None => note_of(event_id_hex),
    };
    match reference {
        Some(r) => Some(quote_text(r.as_str())),
        None => None,
    }
}

// ---------------------------------------------------------------------------
// Search
// ---------------------------------------------------------------------------

/// Whether a search is made: there is a query and a relay to ask.
pub fn should_search(search_relays: &Vec<String>, query: &str) -> (r: bool)
    ensures
        r == (search_relays@.len() > 0 && query@.len() > 0),
{
    let q = str_chars(query);
    search_relays.len() > 0 && q.len() > 0
}

} // verus!
