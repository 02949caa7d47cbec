//! Discovery of a user's custom emojis (NIP-30/NIP-51).
//!
//! The client asks relays for the user's emoji lists (kinds 10030 and 30030).
//! An emoji set (kind 30030), or a kind-10030 list tagged `["d", "emojis"]`,
//! contributes its `emoji` tags; any other kind-10030 list with `a` tags points
//! at emoji sets (`30030:<pubkey>:<identifier>`), which are fetched in a second
//! round. This module holds what the client decides on each relay message;
//! talking to the relays is left to the caller.
use vstd::prelude::*;
use crate::text::{hex_lower, to_hex_lower, str_chars, chars_eq, str_is, split_chars, split_char,
    trim_matches, trim_matches_char, string_from_chars, push_str, push_decimal, decimal};
use crate::keys::{parse_public_key, spec_parse_public_key};
use crate::emoji_map::{EmojiMap, pairs_map};

verus! {

pub const EMOJI_SET_KIND: u16 = 30030;
pub const EMOJI_LIST_KIND: u16 = 10030;

/// The fields of a relay event that emoji discovery reads.
pub struct RawNostrEvent {
    pub kind: u16,
    pub tags: Vec<Vec<String>>,
}

/// A reference to an emoji set: its author (lowercase hex) and `d` identifier.
pub struct EventPointer {
    pub pubkey: String,
    pub d_identifier: String,
}

impl View for EventPointer {
    type V = (Seq<char>, Seq<char>);

    open spec fn view(&self) -> (Seq<char>, Seq<char>) {
        (self.pubkey@, self.d_identifier@)
    }
}

pub open spec fn pointers_view(v: Seq<EventPointer>) -> Seq<(Seq<char>, Seq<char>)> {
    v.map_values(|p: EventPointer| p@)
}

pub open spec fn word_d() -> Seq<char> { seq!['d'] }
pub open spec fn word_a() -> Seq<char> { seq!['a'] }
pub open spec fn word_emoji() -> Seq<char> { seq!['e', 'm', 'o', 'j', 'i'] }
pub open spec fn word_emojis() -> Seq<char> { seq!['e', 'm', 'o', 'j', 'i', 's'] }
pub open spec fn word_set_kind() -> Seq<char> { seq!['3', '0', '0', '3', '0'] }

/// Some tag is `["d", "emojis", ...]`.
pub open spec fn has_d_emojis(tags: Seq<Seq<Seq<char>>>) -> bool {
    exists|i: int| 0 <= i < tags.len() && #[trigger] tags[i].len() >= 2 && tags[i][0] == word_d() && tags[i][1] == word_emojis()
}

/// Some tag is named `a`.
pub open spec fn has_a_tag(tags: Seq<Seq<Seq<char>>>) -> bool {
    exists|i: int| 0 <= i < tags.len() && #[trigger] tags[i].len() >= 1 && tags[i][0] == word_a()
}

/// The event lists emojis directly.
pub open spec fn is_emoji_list(kind: u16, tags: Seq<Seq<Seq<char>>>) -> bool {
    kind == EMOJI_SET_KIND || (kind == EMOJI_LIST_KIND && has_d_emojis(tags))
}

/// The event points at emoji sets.
pub open spec fn is_pointer_list(kind: u16, tags: Seq<Seq<Seq<char>>>) -> bool {
    kind == EMOJI_LIST_KIND && !has_d_emojis(tags) && has_a_tag(tags)
}

/// The shortcode/URL pair of an `["emoji", shortcode, url, ...]` tag: the
/// shortcode without surrounding colons, which must not be empty.
pub open spec fn emoji_of_tag(t: Seq<Seq<char>>) -> Option<(Seq<char>, Seq<char>)> {
    if t.len() >= 3 && t[0] == word_emoji() && trim_matches_char(t[1], ':').len() > 0 {
        Some((trim_matches_char(t[1], ':'), t[2]))
    } else {
        None
    }
}

/// The emoji pairs of the tags, in order.
pub open spec fn emoji_pairs(tags: Seq<Seq<Seq<char>>>) -> Seq<(Seq<char>, Seq<char>)>
    decreases tags.len(),
{
    if tags.len() == 0 {
        Seq::empty()
    } else {
        let rest = emoji_pairs(tags.drop_last());
        match emoji_of_tag(tags.last()) {
            Some(p) => rest.push(p),
            None => rest,
        }
    }
}

/// The emoji set an `["a", "30030:<pubkey>:<identifier>", ...]` tag points at,
/// with the author's key in lowercase hex.
pub open spec fn pointer_of_tag(t: Seq<Seq<char>>) -> Option<(Seq<char>, Seq<char>)> {
    if t.len() >= 2 && t[0] == word_a() {
        let parts = split_char(t[1], ':');
        if parts.len() == 3 && parts[0] == word_set_kind() && spec_parse_public_key(parts[1]) is Some {
            Some((hex_lower(spec_parse_public_key(parts[1]).unwrap()), parts[2]))
        } else {
            None
        }
    } else {
        None
    }
}

/// The pointers of the tags, in order.
pub open spec fn event_pointers(tags: Seq<Seq<Seq<char>>>) -> Seq<(Seq<char>, Seq<char>)>
    decreases tags.len(),
{
    if tags.len() == 0 {
        Seq::empty()
    } else {
        let rest = event_pointers(tags.drop_last());
        match pointer_of_tag(tags.last()) {
            Some(p) => rest.push(p),
            None => rest,
        }
    }
}

/// What one relay has yielded so far: emojis by shortcode, and pointers to
/// emoji sets in the order they came.
pub struct EmojiFetch {
    pub emojis: EmojiMap,
    pub pointers: Vec<EventPointer>,
}

impl EmojiFetch {
    pub fn new() -> (f: EmojiFetch)
        ensures
            f.emojis@ == Map::<Seq<char>, Seq<char>>::empty(),
            f.pointers@.len() == 0,
    {
        EmojiFetch { emojis: EmojiMap::new(), pointers: Vec::new() }
    }
}

fn tag_named(tag: &Vec<String>, name: &[char]) -> (r: bool)
    ensures
        r == (tag.deep_view().len() >= 1 && tag.deep_view()[0] == name@),
{
    if tag.len() == 0 {
        return false;
    }
    str_is(tag[0].as_str(), name)
}

fn find_d_emojis(tags: &Vec<Vec<String>>) -> (r: bool)
    ensures
        r == has_d_emojis(tags.deep_view()),
{
    let d: Vec<char> = vec!['d'];
    let emojis: Vec<char> = vec!['e', 'm', 'o', 'j', 'i', 's'];
    let mut i: usize = 0;
    while i < tags.len()
        invariant
            i <= tags@.len(),
            d@ == word_d(),
            emojis@ == word_emojis(),
            forall|j: int| 0 <= j < i ==> !(#[trigger] tags.deep_view()[j].len() >= 2 && tags.deep_view()[j][0] == word_d()
                && tags.deep_view()[j][1] == word_emojis()),
        decreases tags@.len() - i,
    {
        let tag = &tags[i];
        assert(tag.deep_view() == tags.deep_view()[i as int]);
        if tag.len() >= 2 && str_is(tag[0].as_str(), &d) && str_is(tag[1].as_str(), &emojis) {
            return true;
        }
        i = i + 1;
    }
    false
}

fn find_a_tag(tags: &Vec<Vec<String>>) -> (r: bool)
    ensures
        r == has_a_tag(tags.deep_view()),
{
    let a: Vec<char> = vec!['a'];
    let mut i: usize = 0;
    while i < tags.len()
        invariant
            i <= tags@.len(),
            a@ == word_a(),
            forall|j: int| 0 <= j < i ==> !(#[trigger] tags.deep_view()[j].len() >= 1 && tags.deep_view()[j][0] == word_a()),
        decreases tags@.len() - i,
    {
        let tag = &tags[i];
        assert(tag.deep_view() == tags.deep_view()[i as int]);
        if tag_named(tag, &a) {
            return true;
        }
        i = i + 1;
    }
    false
}

fn emoji_from_tag(tag: &Vec<String>) -> (r: Option<(String, String)>)
    ensures
        r matches Some(p) ==> emoji_of_tag(tag.deep_view()) == Some((p.0@, p.1@)),
        r is None ==> emoji_of_tag(tag.deep_view()) is None,
{
    let emoji: Vec<char> = vec!['e', 'm', 'o', 'j', 'i'];
    assert(tag.len() >= 3 ==> tag.deep_view()[1] == tag@[1]@ && tag.deep_view()[2] == tag@[2]@);
    if tag.len() >= 3 && str_is(tag[0].as_str(), &emoji) {
        let code = str_chars(tag[1].as_str());
        let key = trim_matches(&code, ':');
        if key.len() > 0 {
            return Some((string_from_chars(&key), tag[2].clone()));
        }
    }
    None
}

fn pointer_from_tag(tag: &Vec<String>) -> (r: Option<EventPointer>)
    ensures
        r matches Some(p) ==> pointer_of_tag(tag.deep_view()) == Some(p@),
        r is None ==> pointer_of_tag(tag.deep_view()) is None,
{
    let a: Vec<char> = vec!['a'];
    let set_kind: Vec<char> = vec!['3', '0', '0', '3', '0'];
    assert(set_kind@ == word_set_kind());
    assert(a@ == word_a());
    if tag.len() < 2 {
        return None;
    }
    let ghost tv = tag.deep_view();
    assert(tv[0] == tag@[0]@);
    assert(tv[1] == tag@[1]@);
    if !str_is(tag[0].as_str(), &a) {
        return None;
    }
    let value = str_chars(tag[1].as_str());
    let parts = split_chars(&value, ':');
    let ghost sp = split_char(value@, ':');
    assert(sp == split_char(tv[1], ':'));
    if parts.len() != 3 {
        return None;
    }
    assert(parts@[0]@ == sp[0]);
    assert(parts@[1]@ == sp[1]);
    assert(parts@[2]@ == sp[2]);
    if !chars_eq(&parts[0], &set_kind) {
        return None;
    }
    let key_text = string_from_chars(&parts[1]);
    match parse_public_key(key_text.as_str()) {
        Some(pk) => {
            let pubkey = to_hex_lower(&pk);
            let d_identifier = string_from_chars(&parts[2]);
            Some(EventPointer { pubkey, d_identifier })
        },
        None => None,
    }
}

/// Reads one event into `acc`: the emojis of an emoji list (later shortcodes
/// replacing earlier ones), or the pointers of a pointer list.
pub fn process_event(event: &RawNostrEvent, acc: &mut EmojiFetch)
    ensures
        final(acc).emojis@ == emojis_after(old(acc).emojis@, *event),
        pointers_view(final(acc).pointers@) == pointers_after(pointers_view(old(acc).pointers@), *event),
{
    let tags = &event.tags;
    let ghost tv = tags.deep_view();
    let mut emoji_list = false;
    let mut pointer_list = false;
    if event.kind == EMOJI_SET_KIND {
        emoji_list = true;
    } else if event.kind == EMOJI_LIST_KIND {
        if find_d_emojis(tags) {
            emoji_list = true;
        } else if find_a_tag(tags) {
            pointer_list = true;
        }
    }
    assert(emoji_list == is_emoji_list(event.kind, tv));
    assert(pointer_list == is_pointer_list(event.kind, tv));
    if emoji_list {
        let ghost start = acc.emojis@;
        let mut i: usize = 0;
        assert(tv.take(0) =~= Seq::<Seq<Seq<char>>>::empty());
        while i < tags.len()
            invariant
                i <= tags@.len(),
                tv == tags.deep_view(),
                acc.emojis@ == start.union_prefer_right(pairs_map(emoji_pairs(tv.take(i as int)))),
                pointers_view(acc.pointers@) == pointers_view(old(acc).pointers@),
            decreases tags@.len() - i,
        {
            let ghost t = tv.take(i as int + 1);
            assert(t.drop_last() =~= tv.take(i as int));
            assert(t.last() == tv[i as int]);
            assert(tags[i as int].deep_view() == tv[i as int]);
            let ghost prev = emoji_pairs(tv.take(i as int));
            match emoji_from_tag(&tags[i]) {
                Some((k, v)) => {
                    let ghost kv = (k@, v@);
                    acc.emojis.insert(k, v);
                    assert(emoji_pairs(t) == prev.push(kv));
                    assert(prev.push(kv).drop_last() =~= prev);
                    assert(pairs_map(prev.push(kv)) == pairs_map(prev).insert(kv.0, kv.1));
                    assert(acc.emojis@ =~= start.union_prefer_right(pairs_map(emoji_pairs(t))));
                },
                None => {
                    assert(emoji_pairs(t) == prev);
                },
            }
            i = i + 1;
        }
        assert(tv.take(tags@.len() as int) =~= tv);
    }
    if pointer_list {
        let ghost start = pointers_view(acc.pointers@);
        let mut i: usize = 0;
        assert(tv.take(0) =~= Seq::<Seq<Seq<char>>>::empty());
        assert(start + event_pointers(tv.take(0)) =~= start);
        while i < tags.len()
            invariant
                i <= tags@.len(),
                tv == tags.deep_view(),
                pointers_view(acc.pointers@) == start + event_pointers(tv.take(i as int)),
                acc.emojis@ == old(acc).emojis@,
            decreases tags@.len() - i,
        {
            let ghost t = tv.take(i as int + 1);
            assert(t.drop_last() =~= tv.take(i as int));
            assert(t.last() == tv[i as int]);
            assert(tags[i as int].deep_view() == tv[i as int]);
            match pointer_from_tag(&tags[i]) {
                Some(p) => {
                    let ghost before = acc.pointers@;
                    acc.pointers.push(p);
                    assert(pointers_view(acc.pointers@) =~= pointers_view(before).push(p@));
                    assert(pointers_view(acc.pointers@) =~= start + event_pointers(t));
                },
                None => {
                    assert(event_pointers(t) == event_pointers(tv.take(i as int)));
                },
            }
            i = i + 1;
        }
        assert(tv.take(tags@.len() as int) =~= tv);
    }
}

/// A relay message as the client reads it.
pub enum RelayMessage {
    /// `["EVENT", <subscription id>, <event>]` with an event that decoded.
    Event { subscription_id: String, event: RawNostrEvent },
    /// `["EOSE", <subscription id>]`: the relay has sent all stored events.
    EndOfStoredEvents { subscription_id: String },
    /// Anything else.
    Other,
}

/// Whether to keep reading from the relay.
#[derive(Debug, PartialEq, Eq, Structural, Copy, Clone)]
pub enum FetchStep {
    Continue,
    Stop,
}

/// The emoji map after reading `event`.
pub open spec fn emojis_after(m: Map<Seq<char>, Seq<char>>, event: RawNostrEvent) -> Map<Seq<char>, Seq<char>> {
    if is_emoji_list(event.kind, event.tags.deep_view()) {
        m.union_prefer_right(pairs_map(emoji_pairs(event.tags.deep_view())))
    } else {
        m
    }
}

/// The tag is `["emoji", code, url, ...]` whose code, without surrounding
/// colons, is `k`.
pub open spec fn names_emoji(t: Seq<Seq<char>>, k: Seq<char>) -> bool {
    t.len() >= 3 && t[0] == word_emoji() && trim_matches_char(t[1], ':') == k
}

proof fn lemma_pairs_without(tags: Seq<Seq<Seq<char>>>, k: Seq<char>)
    requires
        forall|i: int| 0 <= i < tags.len() ==> !names_emoji(#[trigger] tags[i], k),
    ensures
        !pairs_map(emoji_pairs(tags)).contains_key(k),
    decreases tags.len(),
{
    if tags.len() > 0 {
        let rest = tags.drop_last();
        assert forall|i: int| 0 <= i < rest.len() implies !names_emoji(#[trigger] rest[i], k) by {
            assert(rest[i] == tags[i]);
        }
        lemma_pairs_without(rest, k);
        assert(tags.last() == tags[tags.len() - 1]);
        match emoji_of_tag(tags.last()) {
            Some(p) => {
                assert(emoji_pairs(tags) == emoji_pairs(rest).push(p));
                assert(emoji_pairs(rest).push(p).drop_last() =~= emoji_pairs(rest));
            },
            None => {},
        }
    }
}

proof fn lemma_pairs_last(tags: Seq<Seq<Seq<char>>>, i: int, k: Seq<char>)
    requires
        0 <= i < tags.len(),
        names_emoji(tags[i], k),
        k.len() > 0,
        forall|j: int| i < j < tags.len() ==> !names_emoji(#[trigger] tags[j], k),
    ensures
        pairs_map(emoji_pairs(tags)).contains_key(k),
        pairs_map(emoji_pairs(tags))[k] == tags[i][2],
    decreases tags.len(),
{
    let rest = tags.drop_last();
    let l = tags.len() - 1;
    assert(tags.last() == tags[l]);
    if i == l {
        assert(emoji_of_tag(tags[i]) == Some((k, tags[i][2])));
        assert(emoji_pairs(tags) == emoji_pairs(rest).push((k, tags[i][2])));
        assert(emoji_pairs(rest).push((k, tags[i][2])).drop_last() =~= emoji_pairs(rest));
    } else {
        assert forall|j: int| i < j < rest.len() implies !names_emoji(#[trigger] rest[j], k) by {
            assert(rest[j] == tags[j]);
        }
        assert(rest[i] == tags[i]);
        lemma_pairs_last(rest, i, k);
        assert(!names_emoji(tags[l], k));
        match emoji_of_tag(tags.last()) {
            Some(p) => {
                assert(p.0 != k);
                assert(emoji_pairs(tags) == emoji_pairs(rest).push(p));
                assert(emoji_pairs(rest).push(p).drop_last() =~= emoji_pairs(rest));
            },
            None => {},
        }
    }
}

/// Reading an event never loses an emoji it does not name: a shortcode
/// already found keeps its URL unless one of the event's `emoji` tags names
/// it again (emojis gathered from earlier events of the same answer stay).
pub proof fn lemma_event_keeps_other_emojis(m: Map<Seq<char>, Seq<char>>, event: RawNostrEvent, k: Seq<char>)
    requires
        m.contains_key(k),
        forall|i: int| 0 <= i < event.tags.deep_view().len() ==> !names_emoji(#[trigger] event.tags.deep_view()[i], k),
    ensures
        emojis_after(m, event).contains_key(k),
        emojis_after(m, event)[k] == m[k],
{
    lemma_pairs_without(event.tags.deep_view(), k);
}

/// An emoji set (kind 30030) contributes each of its `emoji` tags: the
/// shortcode (without colons, if not empty) maps to the URL of the set's last
/// tag for it, whatever was found before.
pub proof fn lemma_emoji_set_adds_its_emojis(m: Map<Seq<char>, Seq<char>>, event: RawNostrEvent, i: int, k: Seq<char>)
    requires
        event.kind == EMOJI_SET_KIND,
        0 <= i < event.tags.deep_view().len(),
        names_emoji(event.tags.deep_view()[i], k),
        k.len() > 0,
        forall|j: int| i < j < event.tags.deep_view().len() ==> !names_emoji(#[trigger] event.tags.deep_view()[j], k),
    ensures
        emojis_after(m, event).contains_key(k),
        emojis_after(m, event)[k] == event.tags.deep_view()[i][2],
{
    lemma_pairs_last(event.tags.deep_view(), i, k);
}

/// The pointer list after reading `event`.
pub open spec fn pointers_after(p: Seq<(Seq<char>, Seq<char>)>, event: RawNostrEvent) -> Seq<(Seq<char>, Seq<char>)> {
    if is_pointer_list(event.kind, event.tags.deep_view()) {
        p + event_pointers(event.tags.deep_view())
    } else {
        p
    }
}

/// The event a message carries for the subscription `sub`.
pub open spec fn event_for(msg: RelayMessage, sub: Seq<char>) -> Option<RawNostrEvent> {
    match msg {
        RelayMessage::Event { subscription_id, event } => if subscription_id@ == sub { Some(event) } else { None },
        _ => None,
    }
}

/// Whether a message ends the subscription `sub`.
pub open spec fn ends(msg: RelayMessage, sub: Seq<char>) -> bool {
    match msg {
        RelayMessage::EndOfStoredEvents { subscription_id } => subscription_id@ == sub,
        _ => false,
    }
}

/// Handles one message of the subscription `sub_id`: events of that
/// subscription are read into `acc`; its end-of-stored-events stops the
/// reading; everything else is ignored.
pub fn handle_relay_message(sub_id: &str, msg: &RelayMessage, acc: &mut EmojiFetch) -> (step: FetchStep)
    ensures
        step == FetchStep::Stop <==> ends(*msg, sub_id@),
        match event_for(*msg, sub_id@) {
            Some(e) => {
                &&& final(acc).emojis@ == emojis_after(old(acc).emojis@, e)
                &&& pointers_view(final(acc).pointers@) == pointers_after(pointers_view(old(acc).pointers@), e)
            },
            None => {
                &&& final(acc).emojis@ == old(acc).emojis@
                &&& pointers_view(final(acc).pointers@) == pointers_view(old(acc).pointers@)
            },
        },
{
    let want = str_chars(sub_id);
    match msg {
        RelayMessage::Event { subscription_id, event } => {
            if str_is(subscription_id.as_str(), &want) {
                process_event(event, acc);
            }
            FetchStep::Continue
        },
        RelayMessage::EndOfStoredEvents { subscription_id } => {
            if str_is(subscription_id.as_str(), &want) {
                FetchStep::Stop
            } else {
                FetchStep::Continue
            }
        },
        RelayMessage::Other => FetchStep::Continue,
    }
}

/// The subscription id the client uses for a random number `n`.
pub open spec fn spec_subscription_id(n: u32) -> Seq<char> {
    seq!['e', 'm', 'o', 'j', 'i', '-', 'f', 'e', 't', 'c', 'h', '-'] + decimal(n as nat)
}

/// `emoji-fetch-<n>`.
pub fn subscription_id_for(n: u32) -> (s: String)
    ensures
        s@ == spec_subscription_id(n),
{
    let mut out: Vec<char> = vec!['e', 'm', 'o', 'j', 'i', '-', 'f', 'e', 't', 'c', 'h', '-'];
    push_decimal(&mut out, n as u64);
    string_from_chars(&out)
}

/// `rand::random::<u32>()`; nothing is claimed of the value.
#[verifier::external_body]
fn random_u32() -> (n: u32) {
    rand::random::<u32>()
}

/// A fresh subscription id with a random number.
pub fn new_subscription_id() -> (s: String)
    ensures
        exists|n: u32| s@ == spec_subscription_id(n),
{
    let n = random_u32();
    subscription_id_for(n)
}

/// Whether `v` holds the pointer `p` (same author and identifier).
fn contains_pointer(v: &Vec<EventPointer>, p: &EventPointer) -> (r: bool)
    ensures
        r == pointers_view(v@).contains(p@),
{
    let pk = str_chars(p.pubkey.as_str());
    let d = str_chars(p.d_identifier.as_str());
    let mut i: usize = 0;
    while i < v.len()
        invariant
            i <= v@.len(),
            pk@ == p.pubkey@,
            d@ == p.d_identifier@,
            forall|j: int| 0 <= j < i ==> #[trigger] v@[j]@ != p@,
        decreases v@.len() - i,
    {
        if str_is(v[i].pubkey.as_str(), &pk) && str_is(v[i].d_identifier.as_str(), &d) {
            assert(pointers_view(v@)[i as int] == p@);
            return true;
        }
        i = i + 1;
    }
    proof {
        if pointers_view(v@).contains(p@) {
            let j = choose|j: int| 0 <= j < pointers_view(v@).len() && pointers_view(v@)[j] == p@;
            assert(v@[j]@ == p@);
        }
    }
    false
}

/// Emojis and distinct emoji-set pointers gathered from all relays.
pub struct EmojiDiscovery {
    pub emojis: EmojiMap,
    pub pointers: Vec<EventPointer>,
}

impl EmojiDiscovery {
    pub open spec fn pointers_distinct(&self) -> bool {
        pointers_view(self.pointers@).no_duplicates()
    }

    pub fn new() -> (d: EmojiDiscovery)
        ensures
            d.emojis@ == Map::<Seq<char>, Seq<char>>::empty(),
            d.pointers@.len() == 0,
            d.pointers_distinct(),
    {
        let d = EmojiDiscovery { emojis: EmojiMap::new(), pointers: Vec::new() };
        assert(pointers_view(d.pointers@) =~= Seq::<(Seq<char>, Seq<char>)>::empty());
        d
    }

    /// Adds one relay's result: its emojis replace those of equal shortcodes,
    /// and its pointers join the set of pointers.
    pub fn absorb(&mut self, result: EmojiFetch)
        requires
            old(self).pointers_distinct(),
        ensures
            final(self).emojis@ == old(self).emojis@.union_prefer_right(result.emojis@),
            final(self).pointers_distinct(),
            pointers_view(final(self).pointers@).to_set()
                == pointers_view(old(self).pointers@).to_set() + pointers_view(result.pointers@).to_set(),
    {
        self.emojis.extend(&result.emojis);
        let ghost start = pointers_view(self.pointers@);
        let incoming = result.pointers;
        let ghost inc = pointers_view(incoming@);
        let n = incoming.len();
        let mut i: usize = 0;
        let mut rest = incoming;
        let mut taken: Vec<EventPointer> = Vec::new();
        proof {
            assert(inc.take(0).to_set() =~= Set::<(Seq<char>, Seq<char>)>::empty());
            assert(start.to_set() + inc.take(0).to_set() =~= start.to_set());
        }
        while i < n
            invariant
                n == inc.len(),
                i <= n,
                rest@.len() == n,
                pointers_view(rest@) == inc,
                self.emojis@ == old(self).emojis@.union_prefer_right(result.emojis@),
                pointers_view(self.pointers@).no_duplicates(),
                pointers_view(self.pointers@).to_set() == start.to_set() + inc.take(i as int).to_set(),
            decreases n - i,
        {
            let p = EventPointer { pubkey: rest[i].pubkey.clone(), d_identifier: rest[i].d_identifier.clone() };
            assert(p@ == inc[i as int]);
            let ghost before = pointers_view(self.pointers@);
            if !contains_pointer(&self.pointers, &p) {
                self.pointers.push(p);
                proof {
                    assert(pointers_view(self.pointers@) =~= before.push(p@));
                    assert forall|a: int, b: int| 0 <= a < pointers_view(self.pointers@).len() && 0 <= b < pointers_view(self.pointers@).len() && a != b
                        implies pointers_view(self.pointers@)[a] != pointers_view(self.pointers@)[b] by {
                        if a < before.len() && b < before.len() {
                        } else if a == before.len() {
                            assert(before[b] == pointers_view(self.pointers@)[b]);
                            assert(before.contains(before[b]));
                        } else {
                            assert(before[a] == pointers_view(self.pointers@)[a]);
                            assert(before.contains(before[a]));
                        }
                    }
                    before.lemma_push_to_set_commute(p@);
                }
            } else {
                proof {
                    assert(before.to_set().contains(p@));
                    assert(before.to_set().insert(p@) =~= before.to_set());
                }
            }
            proof {
                assert(inc.take(i as int + 1) =~= inc.take(i as int).push(inc[i as int]));
                inc.take(i as int).lemma_push_to_set_commute(inc[i as int]);
                assert(pointers_view(self.pointers@).to_set() =~= start.to_set() + inc.take(i as int + 1).to_set());
            }
            i = i + 1;
        }
        proof {
            assert(inc.take(n as int) =~= inc);
        }
    }
}

impl EmojiDiscovery {
    /// Whether a second round of requests is made: some list pointed at
    /// emoji sets.
    pub fn needs_second_round(&self) -> (r: bool)
        ensures
            r == (self.pointers@.len() > 0),
    {
        self.pointers.len() > 0
    }

    /// Adds one relay's answer to the second round: its emojis replace those
    /// of equal shortcodes; pointers it holds are not followed further.
    pub fn absorb_emojis(&mut self, result: EmojiFetch)
        requires
            old(self).pointers_distinct(),
        ensures
            final(self).emojis@ == old(self).emojis@.union_prefer_right(result.emojis@),
            final(self).pointers@ == old(self).pointers@,
            final(self).pointers_distinct(),
    {
        self.emojis.extend(&result.emojis);
    }
}

/// The authors and identifiers of the pointed-at emoji sets, in the same
/// order, for the second round of requests.
pub fn pointer_filter_lists(pointers: &Vec<EventPointer>) -> (r: (Vec<String>, Vec<String>))
    ensures
        r.0@.len() == pointers@.len(),
        r.1@.len() == pointers@.len(),
        forall|i: int| 0 <= i < pointers@.len() ==> #[trigger] r.0@[i]@ == pointers@[i].pubkey@,
        forall|i: int| 0 <= i < pointers@.len() ==> #[trigger] r.1@[i]@ == pointers@[i].d_identifier@,
{
    let mut authors: Vec<String> = Vec::new();
    let mut ids: Vec<String> = Vec::new();
    let mut i: usize = 0;
    while i < pointers.len()
        invariant
            i <= pointers@.len(),
            authors@.len() == i,
            ids@.len() == i,
            forall|j: int| 0 <= j < i ==> #[trigger] authors@[j]@ == pointers@[j].pubkey@,
            forall|j: int| 0 <= j < i ==> #[trigger] ids@[j]@ == pointers@[j].d_identifier@,
        decreases pointers@.len() - i,
    {
        authors.push(pointers[i].pubkey.clone());
        ids.push(pointers[i].d_identifier.clone());
        i = i + 1;
    }
    (authors, ids)
}

} // verus!
