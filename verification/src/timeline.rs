//! Turning fetched events into timeline posts, newest first.
use vstd::prelude::*;
use crate::types::{Dated, TimelinePost, ProfileMetadata, ProfileView, clone_tags};
use crate::emoji_map::{EmojiMap, pairs_map};
use crate::keys::{standard_tag, StandardTag, StandardTagView, spec_standard_tag};
use crate::text::{str_chars, str_is};

verus! {

// ---------------------------------------------------------------------------
// Ordering
// ---------------------------------------------------------------------------

/// Every item is at least as recent as the ones after it.
pub open spec fn newest_first<T: Dated>(s: Seq<T>) -> bool {
    forall|i: int, j: int| 0 <= i < j < s.len() ==> #[trigger] s[i].spec_created_at() >= #[trigger] s[j].spec_created_at()
}

/// The items created at time `t`, in order.
pub open spec fn at_time<T: Dated>(s: Seq<T>, t: u64) -> Seq<T> {
    s.filter(created_at_is::<T>(t))
}

/// The predicate "was created at `t`".
pub open spec fn created_at_is<T: Dated>(t: u64) -> spec_fn(T) -> bool {
    |x: T| x.spec_created_at() == t
}

/// `r` is `s` ordered newest first, items created at the same time keeping
/// their order (what a stable sort by descending time gives).
pub open spec fn is_newest_first_of<T: Dated>(r: Seq<T>, s: Seq<T>) -> bool {
    &&& newest_first(r)
    &&& forall|t: u64| #[trigger] at_time(r, t) == at_time(s, t)
}

proof fn lemma_filter_none<T>(s: Seq<T>, p: spec_fn(T) -> bool)
    requires
        forall|i: int| 0 <= i < s.len() ==> !p(#[trigger] s[i]),
    ensures
        s.filter(p) == Seq::<T>::empty(),
    decreases s.len(),
{
    reveal(Seq::filter);
    if s.len() > 0 {
        lemma_filter_none(s.drop_last(), p);
        assert(!p(s[s.len() - 1]));
    }
}

proof fn lemma_filter_single<T>(x: T, p: spec_fn(T) -> bool)
    ensures
        seq![x].filter(p) == (if p(x) { seq![x] } else { Seq::<T>::empty() }),
{
    reveal(Seq::filter);
    assert(seq![x].drop_last() =~= Seq::<T>::empty());
    assert(Seq::<T>::empty().filter(p) == Seq::<T>::empty());
}

/// The items' length is kept by the ordering.
pub proof fn lemma_newest_first_len<T: Dated>(r: Seq<T>, s: Seq<T>)
    requires
        is_newest_first_of(r, s),
    ensures
        r.to_multiset() == s.to_multiset(),
{
    assert forall|x: T| r.to_multiset().count(x) == s.to_multiset().count(x) by {
        let t = x.spec_created_at();
        assert(at_time(r, t) == at_time(s, t));
        lemma_count_at_time(r, x);
        lemma_count_at_time(s, x);
    }
    assert(r.to_multiset() =~= s.to_multiset());
}

proof fn lemma_count_at_time<T: Dated>(s: Seq<T>, x: T)
    ensures
        s.to_multiset().count(x) == at_time(s, x.spec_created_at()).to_multiset().count(x),
    decreases s.len(),
{
    reveal(Seq::filter);
    broadcast use vstd::seq_lib::group_to_multiset_ensures;
    if s.len() > 0 {
        let t = x.spec_created_at();
        lemma_count_at_time(s.drop_last(), x);
        assert(s =~= s.drop_last().push(s.last()));
        let f = at_time(s.drop_last(), t);
        if s.last().spec_created_at() == t {
            assert(at_time(s, t) == f.push(s.last()));
        } else {
            assert(at_time(s, t) == f);
            assert(s.last() != x);
        }
    }
}

/// Orders items newest first; items created at the same time keep their
/// relative order.
pub fn sort_newest_first<T: Dated>(v: Vec<T>) -> (r: Vec<T>)
    ensures
        is_newest_first_of(r@, v@),
{
    let ghost orig = v@;
    let mut rest = v;
    let mut out: Vec<T> = Vec::new();
    proof {
        assert(orig.skip(orig.len() as int) =~= Seq::<T>::empty());
        assert forall|t: u64| #[trigger] at_time(out@, t) == at_time(orig.skip(orig.len() as int), t) by {
            reveal(Seq::filter);
        }
    }
    while rest.len() > 0
        invariant
            rest@ == orig.take(rest@.len() as int),
            rest@.len() <= orig.len(),
            is_newest_first_of(out@, orig.skip(rest@.len() as int)),
        decreases rest@.len(),
    {
        let ghost k = rest@.len() as int;
        let x = rest.pop().unwrap();
        assert(x == orig[k - 1]);
        let key = x.created_at();
        let mut pos: usize = 0;
        while pos < out.len() && out[pos].created_at() > key
            invariant
                pos <= out@.len(),
                forall|i: int| 0 <= i < pos ==> #[trigger] out@[i].spec_created_at() > key,
            decreases out@.len() - pos,
        {
            pos = pos + 1;
        }
        let ghost before = out@;
        proof {
            assert forall|i: int| pos <= i < before.len() implies #[trigger] before[i].spec_created_at() <= key by {
                assert(before[pos as int].spec_created_at() <= key);
                if i > pos {
                    assert(before[pos as int].spec_created_at() >= before[i].spec_created_at());
                }
            }
        }
        out.insert(pos, x);
        proof {
            let a = before.take(pos as int);
            let b = before.skip(pos as int);
            assert(out@ =~= a + seq![x] + b);
            let tail = orig.skip(k);
            assert(orig.skip(k - 1) =~= seq![x] + tail);
            assert forall|i: int, j: int| 0 <= i < j < out@.len() implies #[trigger] out@[i].spec_created_at() >= #[trigger] out@[j].spec_created_at() by {
                if j < pos {
                } else if j == pos {
                } else if i < pos {
                } else if i == pos {
                    assert(out@[j] == before[j - 1]);
                } else {
                    assert(out@[j] == before[j - 1]);
                    assert(out@[i] == before[i - 1]);
                }
            }
            assert forall|t: u64| #[trigger] at_time(out@, t) == at_time(orig.skip(k - 1), t) by {
                let p = created_at_is::<T>(t);
                assert(at_time(before, t) == at_time(tail, t));
                Seq::filter_distributes_over_add(a + seq![x], b, p);
                Seq::filter_distributes_over_add(a, seq![x], p);
                Seq::filter_distributes_over_add(seq![x], tail, p);
                Seq::filter_distributes_over_add(a, b, p);
                lemma_filter_single(x, p);
                assert(before =~= a + b);
                if t == key {
                    lemma_filter_none(a, p);
                    assert(a.filter(p) + seq![x] + b.filter(p) =~= seq![x] + (a.filter(p) + b.filter(p)));
                } else {
                    assert(a.filter(p) + Seq::<T>::empty() =~= a.filter(p));
                    assert(Seq::<T>::empty() + tail.filter(p) =~= tail.filter(p));
                }
            }
        }
        assert(rest@ =~= orig.take(rest@.len() as int));
    }
    assert(orig.skip(0) =~= orig);
    out
}

// ---------------------------------------------------------------------------
// Building posts
// ---------------------------------------------------------------------------

/// A text note (or reaction) as fetched: ids and keys in lowercase hex,
/// `created_at` in Unix seconds.
pub struct NoteEvent {
    pub id: String,
    pub kind: u16,
    pub pubkey: String,
    pub content: String,
    pub created_at: u64,
    pub tags: Vec<Vec<String>>,
}

impl Dated for NoteEvent {
    open spec fn spec_created_at(&self) -> u64 {
        self.created_at
    }

    fn created_at(&self) -> (t: u64) {
        self.created_at
    }
}

/// A profile fetched for an author (hex key).
pub struct AuthorProfile {
    pub pubkey: String,
    pub metadata: ProfileMetadata,
}

/// The profile of `pubkey` among the fetched ones: the last one fetched for
/// that key (later ones replace earlier ones), if any.
pub open spec fn profile_of(profiles: Seq<AuthorProfile>, pubkey: Seq<char>) -> Option<ProfileView>
    decreases profiles.len(),
{
    if profiles.len() == 0 {
        None
    } else if profiles.last().pubkey@ == pubkey {
        Some(profiles.last().metadata@)
    } else {
        profile_of(profiles.drop_last(), pubkey)
    }
}

/// The profile shown for `pubkey`: the fetched one, or an empty one.
pub fn profile_for(profiles: &Vec<AuthorProfile>, pubkey: &str) -> (p: ProfileMetadata)
    ensures
        profile_of(profiles@, pubkey@) matches Some(v) ==> p@ == v,
        profile_of(profiles@, pubkey@) is None ==> p.is_empty_profile(),
{
    let key = str_chars(pubkey);
    let mut i: usize = profiles.len();
    assert(profiles@.take(profiles@.len() as int) =~= profiles@);
    while i > 0
        invariant
            i <= profiles@.len(),
            key@ == pubkey@,
            profile_of(profiles@, pubkey@) == profile_of(profiles@.take(i as int), pubkey@),
        decreases i,
    {
        let ghost t = profiles@.take(i as int);
        assert(t.drop_last() =~= profiles@.take(i as int - 1));
        if str_is(profiles[i - 1].pubkey.as_str(), &key) {
            return profiles[i - 1].metadata.duplicate();
        }
        i = i - 1;
    }
    ProfileMetadata::empty()
}

/// The custom emojis of the tags that the `nostr` crate reads as NIP-30
/// `emoji` tags, in order.
pub open spec fn tag_emojis(tags: Seq<Seq<Seq<char>>>) -> Seq<(Seq<char>, Seq<char>)>
    decreases tags.len(),
{
    if tags.len() == 0 {
        Seq::empty()
    } else {
        let rest = tag_emojis(tags.drop_last());
        match spec_standard_tag(tags.last()) {
            StandardTagView::Emoji(code, url) => rest.push((code, url)),
            _ => rest,
        }
    }
}

/// Every NIP-30 emoji tag of a note reaches the note's shortcode map: its
/// shortcode maps to the URL of the last emoji tag with that shortcode,
/// whatever other tags come before or after.
pub proof fn lemma_every_emoji_tag_counts(tags: Seq<Seq<Seq<char>>>, i: int, code: Seq<char>, url: Seq<char>)
    requires
        0 <= i < tags.len(),
        spec_standard_tag(tags[i]) == StandardTagView::Emoji(code, url),
        forall|j: int| i < j < tags.len() ==>
            !(#[trigger] spec_standard_tag(tags[j]) matches StandardTagView::Emoji(c, _) && c == code),
    ensures
        pairs_map(tag_emojis(tags)).contains_key(code),
        pairs_map(tag_emojis(tags))[code] == url,
    decreases tags.len(),
{
    let rest = tags.drop_last();
    if i == tags.len() - 1 {
        assert(tags.last() == tags[i]);
        assert(tag_emojis(tags) == tag_emojis(rest).push((code, url)));
        assert(tag_emojis(rest).push((code, url)).drop_last() =~= tag_emojis(rest));
    } else {
        assert forall|j: int| i < j < rest.len() implies
            !(#[trigger] spec_standard_tag(rest[j]) matches StandardTagView::Emoji(c, _) && c == code) by {
            assert(rest[j] == tags[j]);
            assert(!(spec_standard_tag(tags[j]) matches StandardTagView::Emoji(c, _) && c == code));
        }
        assert(rest[i] == tags[i]);
        lemma_every_emoji_tag_counts(rest, i, code, url);
        let l = tags.len() - 1;
        assert(tags.last() == tags[l]);
        assert(!(spec_standard_tag(tags[l]) matches StandardTagView::Emoji(c, _) && c == code));
        match spec_standard_tag(tags.last()) {
            StandardTagView::Emoji(c, u) => {
                assert(tag_emojis(tags) == tag_emojis(rest).push((c, u)));
                assert(tag_emojis(rest).push((c, u)).drop_last() =~= tag_emojis(rest));
            },
            _ => {},
        }
    }
}

/// A shortcode is in a note's map only if some emoji tag of the note names it.
pub proof fn lemma_note_emojis_come_from_tags(tags: Seq<Seq<Seq<char>>>, code: Seq<char>)
    requires
        pairs_map(tag_emojis(tags)).contains_key(code),
    ensures
        exists|i: int| 0 <= i < tags.len() && (#[trigger] spec_standard_tag(tags[i]) matches StandardTagView::Emoji(c, _) && c == code),
    decreases tags.len(),
{
    let rest = tags.drop_last();
    let l = tags.len() - 1;
    assert(tags.last() == tags[l]);
    match spec_standard_tag(tags.last()) {
        StandardTagView::Emoji(c, u) => {
            assert(tag_emojis(tags) == tag_emojis(rest).push((c, u)));
            assert(tag_emojis(rest).push((c, u)).drop_last() =~= tag_emojis(rest));
            if c != code {
                lemma_note_emojis_come_from_tags(rest, code);
                let i = choose|i: int| 0 <= i < rest.len() && (#[trigger] spec_standard_tag(rest[i]) matches StandardTagView::Emoji(c, _) && c == code);
                assert(rest[i] == tags[i]);
            }
        },
        _ => {
            lemma_note_emojis_come_from_tags(rest, code);
            let i = choose|i: int| 0 <= i < rest.len() && (#[trigger] spec_standard_tag(rest[i]) matches StandardTagView::Emoji(c, _) && c == code);
            assert(rest[i] == tags[i]);
        },
    }
}

/// The shortcode map of a note's emoji tags (later tags replacing earlier ones).
pub fn emojis_of_tags(tags: &Vec<Vec<String>>) -> (m: EmojiMap)
    ensures
        m@ == pairs_map(tag_emojis(tags.deep_view())),
{
    let ghost tv = tags.deep_view();
    let mut m = EmojiMap::new();
    let mut i: usize = 0;
    assert(tv.take(0) =~= Seq::<Seq<Seq<char>>>::empty());
    while i < tags.len()
        invariant
            i <= tags@.len(),
            tv == tags.deep_view(),
            m@ == pairs_map(tag_emojis(tv.take(i as int))),
        decreases tags@.len() - i,
    {
        let ghost t = tv.take(i as int + 1);
        assert(t.drop_last() =~= tv.take(i as int));
        assert(t.last() == tags@[i as int].deep_view());
        let ghost prev = tag_emojis(tv.take(i as int));
        match standard_tag(&tags[i]) {
            StandardTag::Emoji { shortcode, url } => {
                let ghost kv = (shortcode@, url@);
                m.insert(shortcode, url);
                assert(tag_emojis(t) == prev.push(kv));
                assert(prev.push(kv).drop_last() =~= prev);
            },
            _ => {},
        }
        i = i + 1;
    }
    assert(tv.take(tags@.len() as int) =~= tv);
    m
}

/// `post` shows `event`: same fields, the author's fetched profile (or an
/// empty one), and the event's emoji tags when `with_emojis` is set.
pub open spec fn shows(post: TimelinePost, event: NoteEvent, profiles: Seq<AuthorProfile>, with_emojis: bool) -> bool {
    &&& post.id@ == event.id@
    &&& post.kind == event.kind
    &&& post.author_pubkey@ == event.pubkey@
    &&& post.content@ == event.content@
    &&& post.created_at == event.created_at
    &&& post.tags.deep_view() == event.tags.deep_view()
    &&& (match profile_of(profiles, event.pubkey@) {
        Some(v) => post.author_metadata@ == v,
        None => post.author_metadata.is_empty_profile(),
    })
    &&& post.emojis@ == (if with_emojis {
        pairs_map(tag_emojis(event.tags.deep_view()))
    } else {
        Map::<Seq<char>, Seq<char>>::empty()
    })
}

/// The post for one event.
pub fn post_from_event(event: NoteEvent, profiles: &Vec<AuthorProfile>, with_emojis: bool) -> (p: TimelinePost)
    ensures
        shows(p, event, profiles@, with_emojis),
{
    let ghost ev = event;
    let author_metadata = profile_for(profiles, event.pubkey.as_str());
    let emojis = if with_emojis { emojis_of_tags(&event.tags) } else { EmojiMap::new() };
    TimelinePost {
        id: event.id,
        kind: event.kind,
        author_pubkey: event.pubkey,
        author_metadata,
        content: event.content,
        created_at: event.created_at,
        emojis,
        tags: event.tags,
    }
}

/// A post built with emojis can show every emoji tag of its note: each
/// shortcode maps to the URL of its last emoji tag.
pub proof fn lemma_post_has_every_emoji_tag(post: TimelinePost, event: NoteEvent, profiles: Seq<AuthorProfile>,
    i: int, code: Seq<char>, url: Seq<char>)
    requires
        shows(post, event, profiles, true),
        0 <= i < event.tags.deep_view().len(),
        spec_standard_tag(event.tags.deep_view()[i]) == StandardTagView::Emoji(code, url),
        forall|j: int| i < j < event.tags.deep_view().len() ==>
            !(#[trigger] spec_standard_tag(event.tags.deep_view()[j]) matches StandardTagView::Emoji(c, _) && c == code),
    ensures
        post.emojis@.contains_key(code),
        post.emojis@[code] == url,
{
    lemma_every_emoji_tag_counts(event.tags.deep_view(), i, code, url);
}

/// The timeline for fetched events: one post per event, newest first (posts
/// created at the same time keep the order the events came in). Search
/// results are built without emojis.
pub fn build_timeline(events: Vec<NoteEvent>, profiles: &Vec<AuthorProfile>, with_emojis: bool) -> (posts: Vec<TimelinePost>)
    ensures
        newest_first(posts@),
        exists|order: Seq<NoteEvent>| {
            &&& #[trigger] is_newest_first_of(order, events@)
            &&& order.len() == posts@.len()
            &&& forall|i: int| 0 <= i < order.len() ==> shows(#[trigger] posts@[i], order[i], profiles@, with_emojis)
        },
{
    let ordered = sort_newest_first(events);
    let ghost order = ordered@;
    let n = ordered.len();
    let mut rest = ordered;
    let mut rev: Vec<TimelinePost> = Vec::new();
    while rest.len() > 0
        invariant
            rest@ == order.take(rest@.len() as int),
            rest@.len() + rev@.len() == n,
            n == order.len(),
            forall|i: int| 0 <= i < rev@.len() ==> shows(#[trigger] rev@[i], order[n - 1 - i], profiles@, with_emojis),
        decreases rest@.len(),
    {
        let e = rest.pop().unwrap();
        let p = post_from_event(e, profiles, with_emojis);
        rev.push(p);
        assert(rest@ =~= order.take(rest@.len() as int));
    }
    let mut posts: Vec<TimelinePost> = Vec::new();
    while rev.len() > 0
        invariant
            n == order.len(),
            rev@.len() + posts@.len() == n,
            forall|i: int| 0 <= i < rev@.len() ==> shows(#[trigger] rev@[i], order[n - 1 - i], profiles@, with_emojis),
            forall|i: int| 0 <= i < posts@.len() ==> shows(#[trigger] posts@[i], order[i], profiles@, with_emojis),
        decreases rev@.len(),
    {
        let p = rev.pop().unwrap();
        posts.push(p);
    }
    proof {
        assert forall|i: int, j: int| 0 <= i < j < posts@.len() implies #[trigger] posts@[i].spec_created_at() >= #[trigger] posts@[j].spec_created_at() by {
            assert(shows(posts@[i], order[i], profiles@, with_emojis));
            assert(shows(posts@[j], order[j], profiles@, with_emojis));
            assert(order[i].spec_created_at() >= order[j].spec_created_at());
        }
        assert(is_newest_first_of(order, events@));
    }
    posts
}

// ---------------------------------------------------------------------------
// Contact lists
// ---------------------------------------------------------------------------

/// The keys a contact list follows: its `p` tags as the `nostr` crate reads
/// them, in order.
pub open spec fn followed_keys(tags: Seq<Seq<Seq<char>>>) -> Seq<Seq<char>>
    decreases tags.len(),
{
    if tags.len() == 0 {
        Seq::empty()
    } else {
        let rest = followed_keys(tags.drop_last());
        match spec_standard_tag(tags.last()) {
            StandardTagView::PublicKey(pk) => rest.push(pk),
            _ => rest,
        }
    }
}

/// The characters of each string.
pub open spec fn texts(v: Seq<String>) -> Seq<Seq<char>> {
    v.map_values(|x: String| x@)
}

fn contains_text(v: &Vec<String>, s: &str) -> (r: bool)
    ensures
        r == texts(v@).contains(s@),
{
    let want = str_chars(s);
    let mut i: usize = 0;
    while i < v.len()
        invariant
            i <= v@.len(),
            want@ == s@,
            forall|j: int| 0 <= j < i ==> #[trigger] v@[j]@ != s@,
        decreases v@.len() - i,
    {
        if str_is(v[i].as_str(), &want) {
            assert(texts(v@)[i as int] == s@);
            return true;
        }
        i = i + 1;
    }
    proof {
        if texts(v@).contains(s@) {
            let j = choose|j: int| 0 <= j < v@.len() && #[trigger] texts(v@)[j] == s@;
            assert(v@[j]@ == s@);
        }
    }
    false
}

/// The distinct keys (lowercase hex) a contact list's tags follow.
pub fn followed_pubkeys(tags: &Vec<Vec<String>>) -> (keys: Vec<String>)
    ensures
        texts(keys@).no_duplicates(),
        texts(keys@).to_set() == followed_keys(tags.deep_view()).to_set(),
{
    let ghost tv = tags.deep_view();
    let mut keys: Vec<String> = Vec::new();
    let mut i: usize = 0;
    proof {
        assert(tv.take(0) =~= Seq::<Seq<Seq<char>>>::empty());
        assert(texts(keys@) =~= Seq::<Seq<char>>::empty());
        assert(followed_keys(tv.take(0)).to_set() =~= Set::<Seq<char>>::empty());
    }
    while i < tags.len()
        invariant
            i <= tags@.len(),
            tv == tags.deep_view(),
            texts(keys@).no_duplicates(),
            texts(keys@).to_set() == followed_keys(tv.take(i as int)).to_set(),
        decreases tags@.len() - i,
    {
        let ghost t = tv.take(i as int + 1);
        assert(t.drop_last() =~= tv.take(i as int));
        assert(t.last() == tags@[i as int].deep_view());
        let ghost before = texts(keys@);
        let ghost prev = followed_keys(tv.take(i as int));
        match standard_tag(&tags[i]) {
            StandardTag::PublicKey { public_key } => {
                let ghost pk = public_key@;
                proof {
                    assert(followed_keys(t) == prev.push(pk));
                    prev.lemma_push_to_set_commute(pk);
                }
                if !contains_text(&keys, public_key.as_str()) {
                    keys.push(public_key);
                    proof {
                        assert(texts(keys@) =~= before.push(pk));
                        before.lemma_push_to_set_commute(pk);
                        let after = before.push(pk);
                        assert forall|a: int, b: int| 0 <= a < after.len() && 0 <= b < after.len() && a != b
                            implies after[a] != after[b] by {
                            if a == before.len() {
                                assert(before.contains(before[b]));
                            } else if b == before.len() {
                                assert(before.contains(before[a]));
                            }
                        }
                    }
                } else {
                    proof {
                        assert(before.to_set().contains(pk));
                        assert(before.to_set().insert(pk) =~= before.to_set());
                    }
                }
            },
            _ => {},
        }
        i = i + 1;
    }
    assert(tv.take(tags@.len() as int) =~= tv);
    keys
}

// ---------------------------------------------------------------------------
// Quoted and replied-to notes
// ---------------------------------------------------------------------------

pub const KIND_TEXT_NOTE: u16 = 1;

/// The authors (distinct) of fetched events whose profiles are not known yet.
pub fn missing_authors(events: &Vec<NoteEvent>, known: &Vec<String>) -> (r: Vec<String>)
    ensures
        texts(r@).no_duplicates(),
        forall|a: Seq<char>| texts(r@).contains(a) <==> (
            (exists|i: int| 0 <= i < events@.len() && #[trigger] events@[i].pubkey@ == a) && !texts(known@).contains(a)),
{
    let mut r: Vec<String> = Vec::new();
    let mut i: usize = 0;
    assert(texts(r@) =~= Seq::<Seq<char>>::empty());
    while i < events.len()
        invariant
            i <= events@.len(),
            texts(r@).no_duplicates(),
            forall|a: Seq<char>| texts(r@).contains(a) <==> (
                (exists|j: int| 0 <= j < i && #[trigger] events@[j].pubkey@ == a) && !texts(known@).contains(a)),
        decreases events@.len() - i,
    {
        let pk = &events[i].pubkey;
        let ghost before = texts(r@);
        if !contains_text(known, pk.as_str()) && !contains_text(&r, pk.as_str()) {
            r.push(pk.clone());
            proof {
                assert(texts(r@) =~= before.push(pk@));
                let after = before.push(pk@);
                assert forall|a: int, b: int| 0 <= a < after.len() && 0 <= b < after.len() && a != b
                    implies after[a] != after[b] by {
                    if a == before.len() {
                        assert(before.contains(before[b]));
                    } else if b == before.len() {
                        assert(before.contains(before[a]));
                    }
                }
                assert forall|a: Seq<char>| texts(r@).contains(a) <==> (
                    (exists|j: int| 0 <= j < i + 1 && #[trigger] events@[j].pubkey@ == a) && !texts(known@).contains(a)) by {
                    if a == pk@ {
                        assert(after[before.len() as int] == a);
                    }
                    if texts(r@).contains(a) && a != pk@ {
                        let k = choose|k: int| 0 <= k < after.len() && after[k] == a;
                        assert(before[k] == a);
                    }
                    if (exists|j: int| 0 <= j < i + 1 && #[trigger] events@[j].pubkey@ == a) && a != pk@ && !texts(known@).contains(a) {
                        let j = choose|j: int| 0 <= j < i + 1 && #[trigger] events@[j].pubkey@ == a;
                        assert(j < i);
                        assert(exists|j2: int| 0 <= j2 < i && #[trigger] events@[j2].pubkey@ == a);
                        assert(before.contains(a));
                        let k = choose|k: int| 0 <= k < before.len() && before[k] == a;
                        assert(after[k] == a);
                    }
                }
            }
        } else {
            proof {
                assert forall|a: Seq<char>| texts(r@).contains(a) <==> (
                    (exists|j: int| 0 <= j < i + 1 && #[trigger] events@[j].pubkey@ == a) && !texts(known@).contains(a)) by {
                    if (exists|j: int| 0 <= j < i + 1 && #[trigger] events@[j].pubkey@ == a) && a != pk@ {
                        let j = choose|j: int| 0 <= j < i + 1 && #[trigger] events@[j].pubkey@ == a;
                        assert(j < i);
                    }
                }
            }
        }
        i = i + 1;
    }
    r
}

/// Posts for fetched quoted or replied-to events: the text notes among them,
/// in order, with their emojis.
pub open spec fn quoted_events(events: Seq<NoteEvent>) -> Seq<NoteEvent> {
    events.filter(|e: NoteEvent| e.kind == KIND_TEXT_NOTE)
}

pub fn quoted_posts(events: Vec<NoteEvent>, profiles: &Vec<AuthorProfile>) -> (posts: Vec<TimelinePost>)
    ensures
        posts@.len() == quoted_events(events@).len(),
        forall|i: int| 0 <= i < posts@.len() ==> shows(#[trigger] posts@[i], quoted_events(events@)[i], profiles@, true),
{
    let ghost orig = events@;
    let mut rest = events;
    let mut rev: Vec<TimelinePost> = Vec::new();
    let ghost mut picked: Seq<NoteEvent> = Seq::empty();
    reveal(Seq::filter);
    assert(orig.skip(orig.len() as int) =~= Seq::<NoteEvent>::empty());
    while rest.len() > 0
        invariant
            rest@ == orig.take(rest@.len() as int),
            rest@.len() <= orig.len(),
            picked == quoted_events(orig.skip(rest@.len() as int)),
            rev@.len() == picked.len(),
            forall|i: int| 0 <= i < rev@.len() ==> shows(#[trigger] rev@[i], picked[picked.len() - 1 - i], profiles@, true),
        decreases rest@.len(),
    {
        let ghost k = rest@.len() as int;
        let e = rest.pop().unwrap();
        assert(e == orig[k - 1]);
        proof {
            lemma_filter_prepend_note(e, orig.skip(k));
            assert(orig.skip(k - 1) =~= seq![e] + orig.skip(k));
        }
        if e.kind == KIND_TEXT_NOTE {
            let p = post_from_event(e, profiles, true);
            rev.push(p);
            proof {
                let old_picked = picked;
                picked = seq![e] + old_picked;
                assert forall|i: int| 0 <= i < rev@.len() implies shows(#[trigger] rev@[i], picked[picked.len() - 1 - i], profiles@, true) by {
                    if i < old_picked.len() {
                        assert(picked[picked.len() - 1 - i] == old_picked[old_picked.len() - 1 - i]);
                    }
                }
            }
        }
        assert(rest@ =~= orig.take(rest@.len() as int));
    }
    assert(orig.skip(0) =~= orig);
    let mut posts: Vec<TimelinePost> = Vec::new();
    let ghost n = picked.len();
    while rev.len() > 0
        invariant
            n == picked.len(),
            rev@.len() + posts@.len() == n,
            forall|i: int| 0 <= i < rev@.len() ==> shows(#[trigger] rev@[i], picked[n - 1 - i], profiles@, true),
            forall|i: int| 0 <= i < posts@.len() ==> shows(#[trigger] posts@[i], picked[i], profiles@, true),
        decreases rev@.len(),
    {
        let p = rev.pop().unwrap();
        posts.push(p);
    }
    posts
}

proof fn lemma_filter_prepend_note(e: NoteEvent, s: Seq<NoteEvent>)
    ensures
        quoted_events(seq![e] + s) == (if e.kind == KIND_TEXT_NOTE { seq![e] + quoted_events(s) } else { quoted_events(s) }),
{
    let p = |x: NoteEvent| x.kind == KIND_TEXT_NOTE;
    Seq::filter_distributes_over_add(seq![e], s, p);
    reveal(Seq::filter);
    assert(seq![e].drop_last() =~= Seq::<NoteEvent>::empty());
    assert(Seq::<NoteEvent>::empty().filter(p) == Seq::<NoteEvent>::empty());
    assert(Seq::<NoteEvent>::empty() + s.filter(p) =~= s.filter(p));
}

// ---------------------------------------------------------------------------
// Finding a post
// ---------------------------------------------------------------------------

/// The first post with the given id.
pub open spec fn first_post(posts: Seq<TimelinePost>, id: Seq<char>) -> Option<TimelinePost>
    decreases posts.len(),
{
    if posts.len() == 0 {
        None
    } else if posts[0].id@ == id {
        Some(posts[0])
    } else {
        first_post(posts.skip(1), id)
    }
}

/// Where a quoted or reacted-to post is looked up: the fetched quotes, then
/// the timeline, the notifications and the search results.
pub open spec fn spec_find_post(id: Seq<char>, quoted: Seq<TimelinePost>, timeline: Seq<TimelinePost>,
    notifications: Seq<TimelinePost>, search_results: Seq<TimelinePost>) -> Option<TimelinePost> {
    match first_post(quoted, id) {
        Some(p) => Some(p),
        None => match first_post(timeline, id) {
            Some(p) => Some(p),
            None => match first_post(notifications, id) {
                Some(p) => Some(p),
                None => first_post(search_results, id),
            },
        },
    }
}

fn find_in<'a>(posts: &'a Vec<TimelinePost>, id: &Vec<char>) -> (r: Option<&'a TimelinePost>)
    ensures
        match r {
            Some(p) => first_post(posts@, id@) == Some(*p),
            None => first_post(posts@, id@) is None,
        },
{
    let mut i: usize = 0;
    assert(posts@.skip(0) =~= posts@);
    while i < posts.len()
        invariant
            i <= posts@.len(),
            first_post(posts@, id@) == first_post(posts@.skip(i as int), id@),
        decreases posts@.len() - i,
    {
        let ghost s = posts@.skip(i as int);
        assert(s[0] == posts@[i as int]);
        assert(s.skip(1) =~= posts@.skip(i as int + 1));
        if str_is(posts[i].id.as_str(), id.as_slice()) {
            return Some(&posts[i]);
        }
        i = i + 1;
    }
    assert(posts@.skip(posts@.len() as int) =~= Seq::<TimelinePost>::empty());
    None
}

/// The post with the given id (hex), looked up in the fetched quotes, the
/// timeline, the notifications and the search results, in that order.
pub fn find_post_by_id<'a>(event_id: &str, quoted: &'a Vec<TimelinePost>, timeline: &'a Vec<TimelinePost>,
    notifications: &'a Vec<TimelinePost>, search_results: &'a Vec<TimelinePost>) -> (r: Option<&'a TimelinePost>)
    ensures
        match r {
            Some(p) => spec_find_post(event_id@, quoted@, timeline@, notifications@, search_results@) == Some(*p),
            None => spec_find_post(event_id@, quoted@, timeline@, notifications@, search_results@) is None,
        },
{
    let id = str_chars(event_id);
    match find_in(quoted, &id) {
        Some(p) => Some(p),
        None => match find_in(timeline, &id) {
            Some(p) => Some(p),
            None => match find_in(notifications, &id) {
                Some(p) => Some(p),
                None => find_in(search_results, &id),
            },
        },
    }
}

} // verus!
