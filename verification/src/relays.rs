//! Relay lists: the relays the client connects to, and the user's NIP-65
//! relay list as it is edited and published.
use vstd::prelude::*;
use crate::text::{str_chars, str_is, string_from_chars, split_chars, split_char, chars_slice};
use crate::post::is_space;
use crate::types::{RelayConfig, clone_strings};
use crate::timeline::texts;

verus! {

/// How a relay in the NIP-65 list is used.
#[derive(Debug, PartialEq, Eq, Structural, Copy, Clone)]
pub enum RelayPolicy {
    Read,
    Write,
}

/// A row of the relay-list editor.
pub struct EditableRelay {
    pub url: String,
    pub read: bool,
    pub write: bool,
}

pub open spec fn word_read() -> Seq<char> { seq!['r', 'e', 'a', 'd'] }
pub open spec fn word_write() -> Seq<char> { seq!['w', 'r', 'i', 't', 'e'] }

/// The read/write flags of a listed relay: `read` only, `write` only, or
/// both when no (known) marker is given.
pub open spec fn spec_flags(policy: Option<Seq<char>>) -> (bool, bool) {
    match policy {
        Some(p) => if p == word_read() { (true, false) } else if p == word_write() { (false, true) } else { (true, true) },
        None => (true, true),
    }
}

/// An editor row for a relay of the fetched list with its marker.
pub fn editable_from_policy(url: String, policy: Option<&str>) -> (r: EditableRelay)
    ensures
        r.url == url,
        (r.read, r.write) == spec_flags(match policy { Some(p) => Some(p@), None => None }),
{
    let read: Vec<char> = vec!['r', 'e', 'a', 'd'];
    let write: Vec<char> = vec!['w', 'r', 'i', 't', 'e'];
    assert(read@ == word_read());
    assert(write@ == word_write());
    let (r, w) = match policy {
        Some(p) => if str_is(p, &read) {
            (true, false)
        } else if str_is(p, &write) {
            (false, true)
        } else {
            (true, true)
        },
        None => (true, true),
    };
    EditableRelay { url, read: r, write: w }
}

/// The marker published for a row: read only, write only, or none (both, or
/// neither ticked).
pub open spec fn spec_policy(read: bool, write: bool) -> Option<RelayPolicy> {
    if read && !write {
        Some(RelayPolicy::Read)
    } else if !read && write {
        Some(RelayPolicy::Write)
    } else {
        None
    }
}

pub fn policy_of(relay: &EditableRelay) -> (p: Option<RelayPolicy>)
    ensures
        p == spec_policy(relay.read, relay.write),
{
    if relay.read && !relay.write {
        Some(RelayPolicy::Read)
    } else if !relay.read && relay.write {
        Some(RelayPolicy::Write)
    } else {
        None
    }
}

pub open spec fn policy_word(p: Option<RelayPolicy>) -> Option<Seq<char>> {
    match p {
        Some(RelayPolicy::Read) => Some(word_read()),
        Some(RelayPolicy::Write) => Some(word_write()),
        None => None,
    }
}

/// Publishing a row and reading it back keeps its flags, except that a row
/// with neither box ticked comes back with both.
pub proof fn lemma_policy_round_trip(read: bool, write: bool)
    ensures
        spec_flags(policy_word(spec_policy(read, write))) == (if !read && !write { (true, true) } else { (read, write) }),
{
}

/// Reading a marker and publishing it again gives the same marker.
pub proof fn lemma_marker_round_trip(p: Option<RelayPolicy>)
    ensures
        ({
            let f = spec_flags(policy_word(p));
            spec_policy(f.0, f.1) == p
        }),
{
}

/// Characters of the Unicode `White_Space` property, removed by `str::trim`.
pub open spec fn trim_space(s: Seq<char>) -> Seq<char>
    decreases s.len(),
{
    if s.len() > 0 && is_space(s[0]) {
        trim_space(s.skip(1))
    } else if s.len() > 0 && is_space(s.last()) {
        trim_space(s.drop_last())
    } else {
        s
    }
}

/// `v` without leading and trailing whitespace.
pub fn trim_whitespace(v: &[char]) -> (r: Vec<char>)
    ensures
        r@ == trim_space(v@),
{
    let mut start: usize = 0;
    let mut end: usize = v.len();
    assert(v@.subrange(0, v@.len() as int) =~= v@);
    while start < end && (is_space_char(v[start]) || is_space_char(v[end - 1]))
        invariant
            start <= end <= v@.len(),
            trim_space(v@) == trim_space(v@.subrange(start as int, end as int)),
        decreases end - start,
    {
        let ghost s = v@.subrange(start as int, end as int);
        if is_space_char(v[start]) {
            assert(s.skip(1) =~= v@.subrange(start as int + 1, end as int));
            start = start + 1;
        } else {
            assert(s.drop_last() =~= v@.subrange(start as int, end as int - 1));
            end = end - 1;
        }
    }
    chars_slice(v, start, end)
}

fn is_space_char(c: char) -> (r: bool)
    ensures
        r == is_space(c),
{
    c == '\t' || c == '\n' || c == '\u{0B}' || c == '\u{0C}' || c == '\r' || c == ' '
        || c == '\u{85}' || c == '\u{A0}' || c == '\u{1680}'
        || ('\u{2000}' <= c && c <= '\u{200A}')
        || c == '\u{2028}' || c == '\u{2029}' || c == '\u{202F}' || c == '\u{205F}' || c == '\u{3000}'
}

/// The normalised form in which `nostr::RelayUrl::parse` accepts a URL, or
/// `None` where it refuses it.
pub uninterp spec fn spec_relay_url(url: Seq<char>) -> Option<Seq<char>>;

/// `nostr::RelayUrl::parse`, returning the URL as the crate prints it.
/// Claimed: the result is the named one.
#[verifier::external_body]
fn parse_relay_url(url: &str) -> (r: Option<String>)
    ensures
        r matches Some(u) ==> spec_relay_url(url@) == Some(u@),
        r is None ==> spec_relay_url(url@) is None,
{
    nostr::RelayUrl::parse(url).ok().map(|u| u.to_string())
}

pub struct RelayRow {
    pub url: Seq<char>,
    pub read: bool,
    pub write: bool,
}

pub open spec fn rows(v: Seq<EditableRelay>) -> Seq<RelayRow> {
    v.map_values(|r: EditableRelay| RelayRow { url: r.url@, read: r.read, write: r.write })
}

/// The NIP-65 tag of a row: `["r", url]` with `"read"`/`"write"` appended
/// when the row is one-way; rows whose URL is blank or does not parse are left
/// out.
pub open spec fn row_tag(r: RelayRow) -> Option<Seq<Seq<char>>> {
    if trim_space(r.url).len() == 0 {
        None
    } else {
        match spec_relay_url(r.url) {
            None => None,
            Some(u) => Some(match policy_word(spec_policy(r.read, r.write)) {
                Some(w) => seq![seq!['r'], u, w],
                None => seq![seq!['r'], u],
            }),
        }
    }
}

pub open spec fn relay_list_tags_spec(rs: Seq<RelayRow>) -> Seq<Seq<Seq<char>>>
    decreases rs.len(),
{
    if rs.len() == 0 {
        Seq::empty()
    } else {
        let rest = relay_list_tags_spec(rs.drop_last());
        match row_tag(rs.last()) {
            Some(t) => rest.push(t),
            None => rest,
        }
    }
}

/// The tags of the NIP-65 relay list the editor publishes.
pub fn relay_list_tags(relays: &Vec<EditableRelay>) -> (tags: Vec<Vec<String>>)
    ensures
        tags.deep_view() == relay_list_tags_spec(rows(relays@)),
{
    let ghost rv = rows(relays@);
    let mut tags: Vec<Vec<String>> = Vec::new();
    let mut i: usize = 0;
    assert(rv.take(0) =~= Seq::<RelayRow>::empty());
    while i < relays.len()
        invariant
            i <= relays@.len(),
            rv == rows(relays@),
            tags.deep_view() == relay_list_tags_spec(rv.take(i as int)),
        decreases relays@.len() - i,
    {
        let ghost t = rv.take(i as int + 1);
        assert(t.drop_last() =~= rv.take(i as int));
        let relay = &relays[i];
        assert(t.last() == RelayRow { url: relay.url@, read: relay.read, write: relay.write });
        let chars = str_chars(relay.url.as_str());
        let trimmed = trim_whitespace(&chars);
        if trimmed.len() > 0 {
            assert(row_tag(t.last()) == (match spec_relay_url(relay.url@) {
                None => None,
                Some(u) => Some(match policy_word(spec_policy(relay.read, relay.write)) {
                    Some(w) => seq![seq!['r'], u, w],
                    None => seq![seq!['r'], u],
                }),
            }));
            match parse_relay_url(relay.url.as_str()) {
                Some(u) => {
                    let ghost prev = tags.deep_view();
                    let ghost uv = u@;
                    let mut tag: Vec<String> = Vec::new();
                    let r_name: Vec<char> = vec!['r'];
                    assert(r_name@ =~= seq!['r']);
                    tag.push(string_from_chars(&r_name));
                    tag.push(u);
                    assert(tag.deep_view() =~= seq![seq!['r'], uv]);
                    match policy_of(relay) {
                        Some(RelayPolicy::Read) => {
                            let w: Vec<char> = vec!['r', 'e', 'a', 'd'];
                            assert(w@ =~= word_read());
                            let ghost before_tag = tag.deep_view();
                            tag.push(string_from_chars(&w));
                            assert(tag.deep_view() =~= before_tag.push(word_read()));
                        },
                        Some(RelayPolicy::Write) => {
                            let w: Vec<char> = vec!['w', 'r', 'i', 't', 'e'];
                            assert(w@ =~= word_write());
                            let ghost before_tag = tag.deep_view();
                            tag.push(string_from_chars(&w));
                            assert(tag.deep_view() =~= before_tag.push(word_write()));
                        },
                        None => {},
                    }
                    let ghost tv = tag.deep_view();
                    assert(Some(tv) == row_tag(t.last())) by {
                        assert(trimmed@ == trim_space(relay.url@));
                        assert(spec_relay_url(relay.url@) == Some(uv));
                        assert(tv =~= row_tag(t.last()).unwrap());
                    }
                    tags.push(tag);
                    assert(tags.deep_view() =~= prev.push(tv));
                },
                None => {},
            }
        }
        i = i + 1;
    }
    assert(rv.take(relays@.len() as int) =~= rv);
    tags
}

/// The relay and marker of a NIP-65 tag `["r", url]` or
/// `["r", url, marker, ...]`; other tags name no relay.
pub open spec fn entry_of_tag(t: Seq<Seq<char>>) -> Option<(Seq<char>, Option<Seq<char>>)> {
    if t.len() >= 2 && t[0] == seq!['r'] {
        Some((t[1], if t.len() >= 3 { Some(t[2]) } else { None }))
    } else {
        None
    }
}

/// The relays of a NIP-65 list's tags with their markers, in order.
pub open spec fn relay_entries(tags: Seq<Seq<Seq<char>>>) -> Seq<(Seq<char>, Option<Seq<char>>)>
    decreases tags.len(),
{
    if tags.len() == 0 {
        Seq::empty()
    } else {
        let rest = relay_entries(tags.drop_last());
        match entry_of_tag(tags.last()) {
            Some(e) => rest.push(e),
            None => rest,
        }
    }
}

pub open spec fn entry_view(e: (String, Option<String>)) -> (Seq<char>, Option<Seq<char>>) {
    (e.0@, match e.1 { Some(m) => Some(m@), None => None })
}

pub open spec fn entries_view(v: Seq<(String, Option<String>)>) -> Seq<(Seq<char>, Option<Seq<char>>)> {
    v.map_values(|e: (String, Option<String>)| entry_view(e))
}

/// The relays (and markers) a fetched NIP-65 list names.
pub fn relay_list_entries(tags: &Vec<Vec<String>>) -> (r: Vec<(String, Option<String>)>)
    ensures
        entries_view(r@) == relay_entries(tags.deep_view()),
{
    let ghost tv = tags.deep_view();
    let r_name: Vec<char> = vec!['r'];
    assert(r_name@ =~= seq!['r']);
    let mut out: Vec<(String, Option<String>)> = Vec::new();
    let mut i: usize = 0;
    assert(tv.take(0) =~= Seq::<Seq<Seq<char>>>::empty());
    assert(entries_view(out@) =~= Seq::<(Seq<char>, Option<Seq<char>>)>::empty());
    while i < tags.len()
        invariant
            i <= tags@.len(),
            tv == tags.deep_view(),
            r_name@ == seq!['r'],
            entries_view(out@) == relay_entries(tv.take(i as int)),
        decreases tags@.len() - i,
    {
        let ghost t = tv.take(i as int + 1);
        assert(t.drop_last() =~= tv.take(i as int));
        assert(t.last() == tags@[i as int].deep_view());
        let tag = &tags[i];
        let ghost before = entries_view(out@);
        if tag.len() >= 2 && str_is(tag[0].as_str(), &r_name) {
            assert(t.last()[0] == tag@[0]@);
            assert(t.last()[1] == tag@[1]@);
            let marker = if tag.len() >= 3 {
                assert(t.last()[2] == tag@[2]@);
                Some(tag[2].clone())
            } else {
                None
            };
            let e = (tag[1].clone(), marker);
            out.push(e);
            assert(entries_view(out@) =~= before.push(entry_view(e)));
        } else {
            proof {
                if tag@.len() >= 2 {
                    assert(t.last()[0] == tag@[0]@);
                }
            }
        }
        i = i + 1;
    }
    assert(tv.take(tags@.len() as int) =~= tv);
    out
}

/// What reading back a published relay list gives: for each row that is
/// published, its normalised URL with the marker of its flags.
pub open spec fn published_entries(rs: Seq<RelayRow>) -> Seq<(Seq<char>, Option<Seq<char>>)>
    decreases rs.len(),
{
    if rs.len() == 0 {
        Seq::empty()
    } else {
        let rest = published_entries(rs.drop_last());
        let r = rs.last();
        if trim_space(r.url).len() > 0 && spec_relay_url(r.url) is Some {
            rest.push((spec_relay_url(r.url).unwrap(), policy_word(spec_policy(r.read, r.write))))
        } else {
            rest
        }
    }
}

/// Reading the relay list the editor publishes gives back each published
/// row's relay and marker, in order.
pub proof fn lemma_relay_list_read_back(rs: Seq<RelayRow>)
    ensures
        relay_entries(relay_list_tags_spec(rs)) == published_entries(rs),
    decreases rs.len(),
{
    if rs.len() > 0 {
        lemma_relay_list_read_back(rs.drop_last());
        let rest = relay_list_tags_spec(rs.drop_last());
        match row_tag(rs.last()) {
            Some(t) => {
                assert(rest.push(t).drop_last() =~= rest);
                assert(t[0] == seq!['r']);
            },
            None => {},
        }
    }
}

/// The relays connected to at login: those of the user's NIP-65 list when it
/// names any, else the defaults.
pub fn relays_to_connect(listed: &Vec<(String, Option<String>)>, defaults: &Vec<String>) -> (r: Vec<String>)
    ensures
        texts(r@) == (if listed@.len() > 0 {
            entries_view(listed@).map_values(|e: (Seq<char>, Option<Seq<char>>)| e.0)
        } else {
            texts(defaults@)
        }),
{
    if listed.len() == 0 {
        return clone_strings(defaults);
    }
    let mut out: Vec<String> = Vec::new();
    let mut i: usize = 0;
    while i < listed.len()
        invariant
            i <= listed@.len(),
            texts(out@) == entries_view(listed@).take(i as int).map_values(|e: (Seq<char>, Option<Seq<char>>)| e.0),
        decreases listed@.len() - i,
    {
        let ghost before = texts(out@);
        let ghost ev = entries_view(listed@);
        out.push(listed[i].0.clone());
        assert(texts(out@) =~= before.push(listed@[i as int].0@));
        assert(ev.take(i as int + 1) =~= ev.take(i as int).push(ev[i as int]));
        assert(ev[i as int].0 == listed@[i as int].0@);
        assert(ev.take(i as int + 1).map_values(|e: (Seq<char>, Option<Seq<char>>)| e.0)
            =~= ev.take(i as int).map_values(|e: (Seq<char>, Option<Seq<char>>)| e.0).push(ev[i as int].0));
        i = i + 1;
    }
    assert(entries_view(listed@).take(listed@.len() as int) =~= entries_view(listed@));
    out
}

/// The relays of NIP-65 entries that their authors write to (no marker, or
/// any marker but `read`), in order.
pub open spec fn write_urls(es: Seq<(Seq<char>, Option<Seq<char>>)>) -> Seq<Seq<char>>
    decreases es.len(),
{
    if es.len() == 0 {
        Seq::empty()
    } else {
        let rest = write_urls(es.drop_last());
        if spec_flags(es.last().1).1 {
            rest.push(es.last().0)
        } else {
            rest
        }
    }
}

/// The relays where the authors of these NIP-65 entries publish, each once:
/// where the client looks for the statuses of the people the user follows.
pub fn write_relays(entries: &Vec<(String, Option<String>)>) -> (r: Vec<String>)
    ensures
        texts(r@).no_duplicates(),
        texts(r@).to_set() == write_urls(entries_view(entries@)).to_set(),
{
    let ghost ev = entries_view(entries@);
    let read: Vec<char> = vec!['r', 'e', 'a', 'd'];
    assert(read@ == word_read());
    let mut urls: Vec<String> = Vec::new();
    let mut i: usize = 0;
    assert(ev.take(0) =~= Seq::<(Seq<char>, Option<Seq<char>>)>::empty());
    assert(texts(urls@) =~= Seq::<Seq<char>>::empty());
    while i < entries.len()
        invariant
            i <= entries@.len(),
            ev == entries_view(entries@),
            read@ == word_read(),
            texts(urls@) == write_urls(ev.take(i as int)),
        decreases entries@.len() - i,
    {
        let ghost t = ev.take(i as int + 1);
        assert(t.drop_last() =~= ev.take(i as int));
        assert(t.last() == entry_view(entries@[i as int]));
        let writes = match &entries[i].1 {
            Some(m) => !str_is(m.as_str(), &read),
            None => true,
        };
        assert(writes == spec_flags(t.last().1).1);
        if writes {
            let ghost before = texts(urls@);
            urls.push(entries[i].0.clone());
            assert(texts(urls@) =~= before.push(entries@[i as int].0@));
        }
        i = i + 1;
    }
    assert(ev.take(entries@.len() as int) =~= ev);
    let mut out: Vec<String> = Vec::new();
    assert(texts(out@) =~= Seq::<Seq<char>>::empty());
    assert(texts(out@).to_set() =~= Set::<Seq<char>>::empty());
    add_distinct(&mut out, &urls);
    assert(Set::<Seq<char>>::empty() + texts(urls@).to_set() =~= texts(urls@).to_set());
    out
}

/// The URLs of the list that `nostr::RelayUrl::parse` accepts, normalised,
/// in order.
pub open spec fn parsed_urls(urls: Seq<Seq<char>>) -> Seq<Seq<char>>
    decreases urls.len(),
{
    if urls.len() == 0 {
        Seq::empty()
    } else {
        let rest = parsed_urls(urls.drop_last());
        match spec_relay_url(urls.last()) {
            Some(u) => rest.push(u),
            None => rest,
        }
    }
}

/// The relays of the list that parse, as `nostr` prints them.
pub fn parsed_relay_urls(urls: &Vec<String>) -> (r: Vec<String>)
    ensures
        texts(r@) == parsed_urls(texts(urls@)),
{
    let ghost all = texts(urls@);
    let mut out: Vec<String> = Vec::new();
    let mut i: usize = 0;
    assert(all.take(0) =~= Seq::<Seq<char>>::empty());
    assert(texts(out@) =~= Seq::<Seq<char>>::empty());
    while i < urls.len()
        invariant
            i <= urls@.len(),
            all == texts(urls@),
            texts(out@) == parsed_urls(all.take(i as int)),
        decreases urls@.len() - i,
    {
        let ghost t = all.take(i as int + 1);
        assert(t.drop_last() =~= all.take(i as int));
        assert(t.last() == urls@[i as int]@);
        let ghost before = texts(out@);
        match parse_relay_url(urls[i].as_str()) {
            Some(u) => {
                out.push(u);
                assert(texts(out@) =~= before.push(u@));
            },
            None => {},
        }
        i = i + 1;
    }
    assert(all.take(urls@.len() as int) =~= all);
    out
}

/// The non-blank lines of a text, trimmed (the discovery relays as typed).
pub open spec fn nonblank_lines(pieces: Seq<Seq<char>>) -> Seq<Seq<char>>
    decreases pieces.len(),
{
    if pieces.len() == 0 {
        Seq::empty()
    } else {
        let rest = nonblank_lines(pieces.drop_last());
        let t = trim_space(pieces.last());
        if t.len() > 0 { rest.push(t) } else { rest }
    }
}

/// The relay URLs typed one per line: each line trimmed, blank lines skipped.
pub fn discover_relay_urls(text: &str) -> (urls: Vec<String>)
    ensures
        texts(urls@) == nonblank_lines(split_char(text@, '\n')),
{
    let v = str_chars(text);
    let lines = split_chars(&v, '\n');
    let ghost sp = split_char(text@, '\n');
    let mut urls: Vec<String> = Vec::new();
    let mut i: usize = 0;
    assert(sp.take(0) =~= Seq::<Seq<char>>::empty());
    assert(texts(urls@) =~= Seq::<Seq<char>>::empty());
    while i < lines.len()
        invariant
            i <= lines@.len(),
            lines@.len() == sp.len(),
            forall|j: int| 0 <= j < lines@.len() ==> #[trigger] lines@[j]@ == sp[j],
            texts(urls@) == nonblank_lines(sp.take(i as int)),
        decreases lines@.len() - i,
    {
        let ghost t = sp.take(i as int + 1);
        assert(t.drop_last() =~= sp.take(i as int));
        assert(t.last() == lines@[i as int]@);
        let line = trim_whitespace(&lines[i]);
        if line.len() > 0 {
            let ghost prev = texts(urls@);
            urls.push(string_from_chars(&line));
            assert(texts(urls@) =~= prev.push(line@));
        }
        i = i + 1;
    }
    assert(sp.take(lines@.len() as int) =~= sp);
    urls
}

fn contains_text(v: &Vec<String>, s: &String) -> (r: bool)
    ensures
        r == texts(v@).contains(s@),
{
    let want = str_chars(s.as_str());
    let mut i: usize = 0;
    while i < v.len()
        invariant
            i <= v@.len(),
            want@ == s@,
            forall|j: int| 0 <= j < i ==> #[trigger] v@[j]@ != s@,
        decreases v@.len() - i,
    {
        if str_is(v[i].as_str(), &want) {
            assert(texts(v@)[i as int] == s@);
            return true;
        }
        i = i + 1;
    }
    proof {
        if texts(v@).contains(s@) {
            let j = choose|j: int| 0 <= j < v@.len() && #[trigger] texts(v@)[j] == s@;
            assert(v@[j]@ == s@);
        }
    }
    false
}

fn add_distinct(out: &mut Vec<String>, more: &Vec<String>)
    requires
        texts(old(out)@).no_duplicates(),
    ensures
        texts(final(out)@).no_duplicates(),
        texts(final(out)@).to_set() == texts(old(out)@).to_set() + texts(more@).to_set(),
{
    let ghost start = texts(out@);
    let ghost m = texts(more@);
    let mut i: usize = 0;
    assert(m.take(0).to_set() =~= Set::<Seq<char>>::empty());
    assert(start.to_set() + m.take(0).to_set() =~= start.to_set());
    while i < more.len()
        invariant
            i <= more@.len(),
            m == texts(more@),
            texts(out@).no_duplicates(),
            texts(out@).to_set() == start.to_set() + m.take(i as int).to_set(),
        decreases more@.len() - i,
    {
        let ghost before = texts(out@);
        let s = &more[i];
        if !contains_text(out, s) {
            out.push(s.clone());
            proof {
                assert(texts(out@) =~= before.push(s@));
                before.lemma_push_to_set_commute(s@);
                let after = before.push(s@);
                assert forall|a: int, b: int| 0 <= a < after.len() && 0 <= b < after.len() && a != b
                    implies after[a] != after[b] by {
                    if a == before.len() {
                        assert(before.contains(before[b]));
                    } else if b == before.len() {
                        assert(before.contains(before[a]));
                    }
                }
            }
        } else {
            proof {
                assert(before.to_set().insert(s@) =~= before.to_set());
            }
        }
        proof {
            assert(m.take(i as int + 1) =~= m.take(i as int).push(m[i as int]));
            m.take(i as int).lemma_push_to_set_commute(m[i as int]);
            assert(texts(out@).to_set() =~= start.to_set() + m.take(i as int + 1).to_set());
        }
        i = i + 1;
    }
    assert(m.take(more@.len() as int) =~= m);
}

/// Every relay of the configuration once: aggregators, self-hosted relays
/// and search relays together.
pub fn all_relays(config: &RelayConfig) -> (urls: Vec<String>)
    ensures
        texts(urls@).no_duplicates(),
        texts(urls@).to_set() == texts(config.aggregator@).to_set() + texts(config.self_hosted@).to_set()
            + texts(config.search@).to_set(),
{
    let mut urls: Vec<String> = Vec::new();
    assert(texts(urls@) =~= Seq::<Seq<char>>::empty());
    assert(texts(urls@).to_set() =~= Set::<Seq<char>>::empty());
    add_distinct(&mut urls, &config.aggregator);
    add_distinct(&mut urls, &config.self_hosted);
    add_distinct(&mut urls, &config.search);
    assert(Set::<Seq<char>>::empty() + texts(config.aggregator@).to_set() =~= texts(config.aggregator@).to_set());
    urls
}

pub open spec fn default_aggregator() -> Seq<char> {
    seq!['w', 's', 's', ':', '/', '/', 'y', 'a', 'b', 'u', '.', 'm', 'e']
}

pub open spec fn default_search() -> Seq<char> {
    seq!['w', 's', 's', ':', '/', '/', 's', 'e', 'a', 'r', 'c', 'h', '.', 'n', 'o', 's', '.', 't', 'o', 'd', 'a', 'y']
}

/// The relay configuration the client starts with: the stored self-hosted
/// relays, and the default aggregator and search relays.
pub fn startup_relays(stored: &RelayConfig) -> (c: RelayConfig)
    ensures
        texts(c.aggregator@) == seq![default_aggregator()],
        texts(c.search@) == seq![default_search()],
        c.self_hosted@ == stored.self_hosted@,
{
    let a: Vec<char> = vec!['w', 's', 's', ':', '/', '/', 'y', 'a', 'b', 'u', '.', 'm', 'e'];
    let s: Vec<char> = vec!['w', 's', 's', ':', '/', '/', 's', 'e', 'a', 'r', 'c', 'h', '.', 'n', 'o', 's', '.', 't', 'o', 'd', 'a', 'y'];
    let mut aggregator: Vec<String> = Vec::new();
    aggregator.push(string_from_chars(&a));
    let mut search: Vec<String> = Vec::new();
    search.push(string_from_chars(&s));
    assert(texts(aggregator@) =~= seq![default_aggregator()]);
    assert(texts(search@) =~= seq![default_search()]);
    RelayConfig { aggregator, self_hosted: clone_strings(&stored.self_hosted), search }
}

} // verus!
