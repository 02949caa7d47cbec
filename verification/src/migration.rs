//! Recognising the files of the old file-based cache, which are moved into
//! the database once: `<64 hex digits>_<anything>.json`, where the suffix
//! `_followed.json` holds a follow list and `_profile.json` a profile.
use vstd::prelude::*;
use crate::text::{str_chars, string_from_chars, chars_slice};

verus! {

/// Lowercase hex digits (`[a-f0-9]`).
pub open spec fn is_hex_lower(c: char) -> bool {
    ('a' <= c && c <= 'f') || ('0' <= c && c <= '9')
}

pub open spec fn dot_json() -> Seq<char> {
    seq!['.', 'j', 's', 'o', 'n']
}

/// From `start`, `.json` follows after characters none of which is a newline
/// (what `.*\.json` matches there).
pub open spec fn json_after(s: Seq<char>, start: int) -> bool
    decreases s.len() - start,
{
    if start < 0 || start > s.len() {
        false
    } else if start + 5 <= s.len() && s.subrange(start, start + 5) == dot_json() {
        true
    } else if start < s.len() && s[start] != '\n' {
        json_after(s, start + 1)
    } else {
        false
    }
}

/// The pattern `([a-f0-9]{64})_.*\.json` matches at `p`.
pub open spec fn key_match_at(s: Seq<char>, p: int) -> bool {
    &&& 0 <= p
    &&& p + 65 <= s.len()
    &&& forall|k: int| 0 <= k < 64 ==> #[trigger] is_hex_lower(s[p + k])
    &&& s[p + 64] == '_'
    &&& json_after(s, p + 65)
}

/// The leftmost position at or after `p` where the pattern matches.
pub open spec fn first_key_match(s: Seq<char>, p: int) -> Option<int>
    decreases s.len() - p,
{
    if p < 0 || p + 65 > s.len() {
        None
    } else if key_match_at(s, p) {
        Some(p)
    } else {
        first_key_match(s, p + 1)
    }
}

/// The public key (hex) a cache file name belongs to: the 64 digits of the
/// leftmost match.
pub open spec fn spec_file_key(s: Seq<char>) -> Option<Seq<char>> {
    match first_key_match(s, 0) {
        Some(p) => Some(s.subrange(p, p + 64)),
        None => None,
    }
}

/// What an old cache file holds.
#[derive(Debug, PartialEq, Eq, Structural, Copy, Clone)]
pub enum CacheFileKind {
    /// `..._followed.json`: a follow list.
    Followed,
    /// `..._profile.json`: a profile.
    Profile,
    /// Anything else; left where it is.
    Other,
}

pub open spec fn followed_suffix() -> Seq<char> {
    seq!['_', 'f', 'o', 'l', 'l', 'o', 'w', 'e', 'd', '.', 'j', 's', 'o', 'n']
}

pub open spec fn profile_suffix() -> Seq<char> {
    seq!['_', 'p', 'r', 'o', 'f', 'i', 'l', 'e', '.', 'j', 's', 'o', 'n']
}

pub open spec fn ends_with(s: Seq<char>, suffix: Seq<char>) -> bool {
    s.len() >= suffix.len() && s.skip(s.len() - suffix.len()) == suffix
}

pub open spec fn spec_file_kind(s: Seq<char>) -> CacheFileKind {
    if ends_with(s, followed_suffix()) {
        CacheFileKind::Followed
    } else if ends_with(s, profile_suffix()) {
        CacheFileKind::Profile
    } else {
        CacheFileKind::Other
    }
}

/// From `from` on, `s` holds no newline up to a `.json` that ends it.
proof fn lemma_json_at_end(s: Seq<char>, from: int)
    requires
        0 <= from,
        from + 5 <= s.len(),
        s.skip(s.len() - 5) == dot_json(),
        forall|i: int| from <= i < s.len() - 5 ==> #[trigger] s[i] != '\n',
    ensures
        json_after(s, from),
    decreases s.len() - from,
{
    if from + 5 == s.len() {
        assert(s.subrange(from, from + 5) =~= s.skip(s.len() - 5));
    } else {
        lemma_json_at_end(s, from + 1);
    }
}

/// The names under which the client wrote a key's follow list and profile
/// (`<key>_followed.json`, `<key>_profile.json`, the key in 64 lowercase hex
/// digits) are recognised, with that key and the right kind.
pub proof fn lemma_cache_file_names(key: Seq<char>)
    requires
        key.len() == 64,
        forall|i: int| 0 <= i < 64 ==> #[trigger] is_hex_lower(key[i]),
    ensures
        spec_file_key(key + followed_suffix()) == Some(key),
        spec_file_kind(key + followed_suffix()) == CacheFileKind::Followed,
        spec_file_key(key + profile_suffix()) == Some(key),
        spec_file_kind(key + profile_suffix()) == CacheFileKind::Profile,
{
    let f = key + followed_suffix();
    let p = key + profile_suffix();
    assert forall|k: int| 0 <= k < 64 implies #[trigger] is_hex_lower(f[0 + k]) by {
        assert(f[k] == key[k]);
    }
    assert forall|k: int| 0 <= k < 64 implies #[trigger] is_hex_lower(p[0 + k]) by {
        assert(p[k] == key[k]);
    }
    assert(f.skip(f.len() - 5) =~= dot_json());
    assert(p.skip(p.len() - 5) =~= dot_json());
    lemma_json_at_end(f, 65);
    lemma_json_at_end(p, 65);
    assert(key_match_at(f, 0));
    assert(key_match_at(p, 0));
    assert(f.subrange(0, 64) =~= key);
    assert(p.subrange(0, 64) =~= key);
    assert(f.skip(f.len() - followed_suffix().len()) =~= followed_suffix());
    assert(p.skip(p.len() - profile_suffix().len()) =~= profile_suffix());
    assert(p.skip(p.len() - followed_suffix().len())[1] == '_');
}

fn json_after_exec(v: &[char], start: usize) -> (r: bool)
    requires
        start <= v@.len(),
    ensures
        r == json_after(v@, start as int),
{
    let n = v.len();
    let mut i = start;
    while i <= n
        invariant
            start <= i,
            n == v@.len(),
            i <= n + 1,
            json_after(v@, start as int) == json_after(v@, i as int),
        decreases n + 1 - i,
    {
        if i < n && n - i >= 5 && v[i] == '.' && v[i + 1] == 'j' && v[i + 2] == 's' && v[i + 3] == 'o' && v[i + 4] == 'n' {
            assert(v@.subrange(i as int, i as int + 5) =~= dot_json());
            return true;
        }
        proof {
            if i + 5 <= n {
                if v@.subrange(i as int, i as int + 5) == dot_json() {
                    assert(v@.subrange(i as int, i as int + 5)[0] == '.');
                    assert(v@.subrange(i as int, i as int + 5)[1] == 'j');
                    assert(v@.subrange(i as int, i as int + 5)[2] == 's');
                    assert(v@.subrange(i as int, i as int + 5)[3] == 'o');
                    assert(v@.subrange(i as int, i as int + 5)[4] == 'n');
                }
            }
        }
        if i < n && v[i] != '\n' {
            i = i + 1;
        } else {
            return false;
        }
    }
    false
}

fn key_match_exec(v: &[char], p: usize) -> (r: bool)
    requires
        p + 65 <= v@.len(),
    ensures
        r == key_match_at(v@, p as int),
{
    let n = v.len();
    let mut k: usize = 0;
    while k < 64
        invariant
            k <= 64,
            n == v@.len(),
            p + 65 <= n,
            forall|j: int| 0 <= j < k ==> #[trigger] is_hex_lower(v@[p + j]),
        decreases 64 - k,
    {
        let c = v[p + k];
        if !(('a' <= c && c <= 'f') || ('0' <= c && c <= '9')) {
            assert(!is_hex_lower(v@[p + k]));
            return false;
        }
        k = k + 1;
    }
    if v[p + 64] != '_' {
        return false;
    }
    json_after_exec(v, p + 65)
}

fn ends_with_exec(v: &[char], suffix: &[char]) -> (r: bool)
    ensures
        r == ends_with(v@, suffix@),
{
    if v.len() < suffix.len() {
        return false;
    }
    let n = v.len();
    let off = n - suffix.len();
    let mut j: usize = 0;
    while j < suffix.len()
        invariant
            j <= suffix@.len(),
            n == v@.len(),
            off + suffix@.len() == n,
            forall|k: int| 0 <= k < j ==> v@[off + k] == suffix@[k],
        decreases suffix@.len() - j,
    {
        if v[off + j] != suffix[j] {
            assert(v@.skip(off as int)[j as int] != suffix@[j as int]);
            return false;
        }
        j = j + 1;
    }
    assert(v@.skip(off as int) =~= suffix@);
    true
}

/// The key and kind of an old cache file name, or `None` when the name is not
/// one of its files.
pub fn classify_cache_file(name: &str) -> (r: Option<(String, CacheFileKind)>)
    ensures
        match r {
            Some((k, kind)) => spec_file_key(name@) == Some(k@) && kind == spec_file_kind(name@),
            None => spec_file_key(name@) is None,
        },
{
    let v = str_chars(name);
    let n = v.len();
    let mut p: usize = 0;
    while p < n && n - p >= 65
        invariant
            n == v@.len(),
            v@ == name@,
            first_key_match(v@, 0) == first_key_match(v@, p as int),
        decreases n - p,
    {
        if key_match_exec(&v, p) {
            let key = chars_slice(&v, p, p + 64);
            let followed: Vec<char> = vec!['_', 'f', 'o', 'l', 'l', 'o', 'w', 'e', 'd', '.', 'j', 's', 'o', 'n'];
            let profile: Vec<char> = vec!['_', 'p', 'r', 'o', 'f', 'i', 'l', 'e', '.', 'j', 's', 'o', 'n'];
            assert(followed@ =~= followed_suffix());
            assert(profile@ =~= profile_suffix());
            let kind = if ends_with_exec(&v, &followed) {
                CacheFileKind::Followed
            } else if ends_with_exec(&v, &profile) {
                CacheFileKind::Profile
            } else {
                CacheFileKind::Other
            };
            return Some((string_from_chars(&key), kind));
        }
        p = p + 1;
    }
    None
}

} // verus!
