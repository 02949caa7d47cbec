//! A map from custom-emoji shortcodes to image URLs.
use vstd::prelude::*;
use crate::text::{str_chars, chars_eq};

verus! {

pub open spec fn pair_view(p: (String, String)) -> (Seq<char>, Seq<char>) {
    (p.0@, p.1@)
}

pub open spec fn pairs_view(s: Seq<(String, String)>) -> Seq<(Seq<char>, Seq<char>)> {
    s.map_values(|p: (String, String)| pair_view(p))
}

/// The map a list of (key, value) pairs describes when later pairs replace
/// earlier ones with the same key (what collecting into a `HashMap` does).
pub open spec fn pairs_map(s: Seq<(Seq<char>, Seq<char>)>) -> Map<Seq<char>, Seq<char>>
    decreases s.len(),
{
    if s.len() == 0 {
        Map::empty()
    } else {
        pairs_map(s.drop_last()).insert(s.last().0, s.last().1)
    }
}

pub open spec fn keys_distinct(s: Seq<(Seq<char>, Seq<char>)>) -> bool {
    forall|i: int, j: int| 0 <= i < j < s.len() ==> #[trigger] s[i].0 != #[trigger] s[j].0
}

pub proof fn lemma_pairs_map_dom(s: Seq<(Seq<char>, Seq<char>)>, k: Seq<char>)
    ensures
        pairs_map(s).contains_key(k) <==> exists|i: int| 0 <= i < s.len() && #[trigger] s[i].0 == k,
    decreases s.len(),
{
    if s.len() > 0 {
        lemma_pairs_map_dom(s.drop_last(), k);
        if pairs_map(s).contains_key(k) && s.last().0 != k {
            let i = choose|i: int| 0 <= i < s.drop_last().len() && #[trigger] s.drop_last()[i].0 == k;
            assert(s[i].0 == k);
        }
        if exists|i: int| 0 <= i < s.len() && #[trigger] s[i].0 == k {
            let i = choose|i: int| 0 <= i < s.len() && #[trigger] s[i].0 == k;
            if i < s.len() - 1 {
                assert(s.drop_last()[i].0 == k);
            }
        }
    }
}

pub proof fn lemma_pairs_map_index(s: Seq<(Seq<char>, Seq<char>)>, i: int)
    requires
        keys_distinct(s),
        0 <= i < s.len(),
    ensures
        pairs_map(s).contains_key(s[i].0),
        pairs_map(s)[s[i].0] == s[i].1,
    decreases s.len(),
{
    if i < s.len() - 1 {
        let t = s.drop_last();
        assert(keys_distinct(t)) by {
            assert forall|a: int, b: int| 0 <= a < b < t.len() implies #[trigger] t[a].0 != #[trigger] t[b].0 by {
                assert(s[a].0 != s[b].0);
            }
        }
        lemma_pairs_map_index(t, i);
        assert(s[i].0 != s[s.len() - 1].0);
    }
}

/// A map from emoji shortcodes to image URLs, kept as a list without
/// repeated shortcodes.
pub struct EmojiMap {
    entries: Vec<(String, String)>,
}

impl View for EmojiMap {
    type V = Map<Seq<char>, Seq<char>>;

    closed spec fn view(&self) -> Map<Seq<char>, Seq<char>> {
        pairs_map(pairs_view(self.entries@))
    }
}

impl EmojiMap {
    #[verifier::type_invariant]
    closed spec fn inv(self) -> bool {
        keys_distinct(pairs_view(self.entries@))
    }

    /// An empty map.
    pub fn new() -> (m: EmojiMap)
        ensures
            m@ == Map::<Seq<char>, Seq<char>>::empty(),
    {
        let m = EmojiMap { entries: Vec::new() };
        assert(pairs_view(m.entries@) =~= Seq::<(Seq<char>, Seq<char>)>::empty());
        m
    }

    /// Number of shortcodes.
    pub fn len(&self) -> (n: usize)
        ensures
            n == self@.dom().len(),
    {
        proof {
            use_type_invariant(self);
            self.lemma_dom_len();
        }
        self.entries.len()
    }

    pub fn is_empty(&self) -> (r: bool)
        ensures
            r == (self@ == Map::<Seq<char>, Seq<char>>::empty()),
    {
        proof {
            use_type_invariant(self);
            if self.entries@.len() > 0 {
                let s = pairs_view(self.entries@);
                lemma_pairs_map_index(s, 0);
                assert(self@.contains_key(s[0].0));
            } else {
                assert(pairs_view(self.entries@) =~= Seq::<(Seq<char>, Seq<char>)>::empty());
                assert(self@ =~= Map::<Seq<char>, Seq<char>>::empty());
            }
        }
        self.entries.len() == 0
    }

    proof fn lemma_dom_len(&self)
        requires
            keys_distinct(pairs_view(self.entries@)),
        ensures
            self@.dom().len() == self.entries@.len(),
            self@.dom().finite(),
    {
        let s = pairs_view(self.entries@);
        lemma_distinct_dom_len(s);
    }

    /// Index of the entry with the given shortcode.
    fn find(&self, key: &[char]) -> (r: Option<usize>)
        ensures
            r matches Some(i) ==> i < self.entries@.len() && self.entries@[i as int].0@ == key@,
            r is None ==> forall|i: int| 0 <= i < self.entries@.len() ==> self.entries@[i].0@ != key@,
    {
        let mut i: usize = 0;
        while i < self.entries.len()
            invariant
                i <= self.entries@.len(),
                forall|j: int| 0 <= j < i ==> self.entries@[j].0@ != key@,
            decreases self.entries@.len() - i,
        {
            let k = str_chars(self.entries[i].0.as_str());
            if chars_eq(&k, key) {
                return Some(i);
            }
            i = i + 1;
        }
        None
    }

    /// The URL of a shortcode.
    pub fn get(&self, key: &str) -> (r: Option<String>)
        ensures
            r is Some <==> self@.contains_key(key@),
            r matches Some(v) ==> v@ == self@[key@],
    {
        proof {
            use_type_invariant(self);
        }
        let k = str_chars(key);
        let ghost s = pairs_view(self.entries@);
        proof {
            lemma_pairs_map_dom(s, key@);
        }
        match self.find(&k) {
            Some(i) => {
                proof {
                    lemma_pairs_map_index(s, i as int);
                }
                Some(self.entries[i].1.clone())
            },
            None => {
                proof {
                    if self@.contains_key(key@) {
                        let j = choose|j: int| 0 <= j < s.len() && #[trigger] s[j].0 == key@;
                        assert(self.entries@[j].0@ == key@);
                    }
                }
                None
            },
        }
    }

    /// Whether a shortcode is present.
    pub fn contains_key(&self, key: &str) -> (r: bool)
        ensures
            r == self@.contains_key(key@),
    {
        self.get(key).is_some()
    }

    /// Sets the URL of a shortcode, replacing any earlier one.
    pub fn insert(&mut self, key: String, value: String)
        ensures
            final(self)@ == old(self)@.insert(key@, value@),
    {
        proof {
            use_type_invariant(&*self);
        }
        let k = str_chars(key.as_str());
        let ghost old_s = pairs_view(self.entries@);
        let ghost kv = key@;
        let ghost vv = value@;
        match self.find(&k) {
            Some(i) => {
                let mut entries: Vec<(String, String)> = Vec::new();
                std::mem::swap(&mut entries, &mut self.entries);
                entries.set(i, (key, value));
                let ghost new_s = pairs_view(entries@);
                proof {
                    assert(new_s =~= old_s.update(i as int, (kv, vv)));
                    assert(keys_distinct(new_s)) by {
                        assert forall|a: int, b: int| 0 <= a < b < new_s.len() implies #[trigger] new_s[a].0 != #[trigger] new_s[b].0 by {
                            assert(old_s[a].0 != old_s[b].0);
                        }
                    }
                    lemma_pairs_map_update(old_s, i as int, vv);
                }
                self.entries = entries;
            },
            None => {
                let mut entries: Vec<(String, String)> = Vec::new();
                std::mem::swap(&mut entries, &mut self.entries);
                entries.push((key, value));
                let ghost new_s = pairs_view(entries@);
                proof {
                    assert(new_s =~= old_s.push((kv, vv)));
                    assert(new_s.drop_last() =~= old_s);
                    assert(keys_distinct(new_s)) by {
                        assert forall|a: int, b: int| 0 <= a < b < new_s.len() implies #[trigger] new_s[a].0 != #[trigger] new_s[b].0 by {
                            if b < old_s.len() {
                                assert(old_s[a].0 != old_s[b].0);
                            } else {
                                assert(old_s[a].0 == pair_view(old(self).entries@[a]).0);
                            }
                        }
                    }
                }
                self.entries = entries;
            },
        }
    }

    /// The map described by `pairs`, later pairs replacing earlier ones.
    pub fn from_pairs(pairs: &Vec<(String, String)>) -> (m: EmojiMap)
        ensures
            m@ == pairs_map(pairs_view(pairs@)),
    {
        let mut m = EmojiMap::new();
        let mut i: usize = 0;
        while i < pairs.len()
            invariant
                i <= pairs@.len(),
                m@ == pairs_map(pairs_view(pairs@.take(i as int))),
            decreases pairs@.len() - i,
        {
            let k = pairs[i].0.clone();
            let v = pairs[i].1.clone();
            m.insert(k, v);
            proof {
                let t = pairs_view(pairs@.take(i as int + 1));
                assert(t.drop_last() =~= pairs_view(pairs@.take(i as int)));
                assert(t.last() == pair_view(pairs@[i as int]));
            }
            i = i + 1;
        }
        assert(pairs@.take(pairs@.len() as int) =~= pairs@);
        m
    }

    /// Adds every entry of `other`, its URLs replacing those of equal shortcodes.
    pub fn extend(&mut self, other: &EmojiMap)
        ensures
            final(self)@ == old(self)@.union_prefer_right(other@),
    {
        proof {
            use_type_invariant(other);
        }
        let ghost start = self@;
        let ghost os = pairs_view(other.entries@);
        let mut i: usize = 0;
        while i < other.entries.len()
            invariant
                i <= other.entries@.len(),
                os == pairs_view(other.entries@),
                self@ == start.union_prefer_right(pairs_map(os.take(i as int))),
            decreases other.entries@.len() - i,
        {
            let k = other.entries[i].0.clone();
            let v = other.entries[i].1.clone();
            self.insert(k, v);
            proof {
                let t = os.take(i as int + 1);
                assert(t.drop_last() =~= os.take(i as int));
                assert(t.last() == os[i as int]);
                assert(self@ =~= start.union_prefer_right(pairs_map(t)));
            }
            i = i + 1;
        }
        assert(os.take(os.len() as int) =~= os);
    }

    /// The entries as (shortcode, URL) pairs, each shortcode once.
    pub fn to_pairs(&self) -> (r: Vec<(String, String)>)
        ensures
            pairs_map(pairs_view(r@)) == self@,
            keys_distinct(pairs_view(r@)),
            r@.len() == self@.dom().len(),
    {
        proof {
            use_type_invariant(self);
            self.lemma_dom_len();
        }
        let mut r: Vec<(String, String)> = Vec::new();
        let mut i: usize = 0;
        while i < self.entries.len()
            invariant
                i <= self.entries@.len(),
                r@ == self.entries@.take(i as int),
            decreases self.entries@.len() - i,
        {
            let p = (self.entries[i].0.clone(), self.entries[i].1.clone());
            r.push(p);
            assert(self.entries@.take(i as int + 1) =~= self.entries@.take(i as int).push(self.entries@[i as int]));
            i = i + 1;
        }
        assert(self.entries@.take(self.entries@.len() as int) =~= self.entries@);
        r
    }
}

pub proof fn lemma_pairs_map_update(s: Seq<(Seq<char>, Seq<char>)>, i: int, v: Seq<char>)
    requires
        keys_distinct(s),
        0 <= i < s.len(),
    ensures
        pairs_map(s.update(i, (s[i].0, v))) == pairs_map(s).insert(s[i].0, v),
{
    let t = s.update(i, (s[i].0, v));
    assert(keys_distinct(t)) by {
        assert forall|a: int, b: int| 0 <= a < b < t.len() implies #[trigger] t[a].0 != #[trigger] t[b].0 by {
            assert(s[a].0 != s[b].0);
        }
    }
    let lhs = pairs_map(t);
    let rhs = pairs_map(s).insert(s[i].0, v);
    assert forall|k: Seq<char>| lhs.contains_key(k) <==> rhs.contains_key(k) by {
        lemma_pairs_map_dom(t, k);
        lemma_pairs_map_dom(s, k);
        if rhs.contains_key(k) {
            if k == s[i].0 {
                assert(t[i].0 == k);
            } else {
                let j = choose|j: int| 0 <= j < s.len() && #[trigger] s[j].0 == k;
                assert(t[j].0 == k);
            }
        }
        if lhs.contains_key(k) {
            let j = choose|j: int| 0 <= j < t.len() && #[trigger] t[j].0 == k;
            assert(s[j].0 == k);
        }
    }
    assert forall|k: Seq<char>| lhs.contains_key(k) implies lhs[k] == rhs[k] by {
        lemma_pairs_map_dom(t, k);
        let j = choose|j: int| 0 <= j < t.len() && #[trigger] t[j].0 == k;
        lemma_pairs_map_index(t, j);
        if j != i {
            lemma_pairs_map_index(s, j);
        }
    }
    assert(lhs =~= rhs);
}

pub proof fn lemma_distinct_dom_len(s: Seq<(Seq<char>, Seq<char>)>)
    requires
        keys_distinct(s),
    ensures
        pairs_map(s).dom().finite(),
        pairs_map(s).dom().len() == s.len(),
    decreases s.len(),
{
    if s.len() > 0 {
        let t = s.drop_last();
        assert(keys_distinct(t)) by {
            assert forall|a: int, b: int| 0 <= a < b < t.len() implies #[trigger] t[a].0 != #[trigger] t[b].0 by {
                assert(s[a].0 != s[b].0);
            }
        }
        lemma_distinct_dom_len(t);
        lemma_pairs_map_dom(t, s.last().0);
        if pairs_map(t).contains_key(s.last().0) {
            let j = choose|j: int| 0 <= j < t.len() && #[trigger] t[j].0 == s.last().0;
            assert(s[j].0 != s[s.len() - 1].0);
        }
    } else {
        assert(pairs_map(s).dom() =~= Set::<Seq<char>>::empty());
    }
}

} // verus!
