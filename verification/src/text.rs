//! Character-level helpers shared by the rest of the library: moving between
//! `str`/`String` and character vectors, lowercase hex and decimal rendering.
use vstd::prelude::*;
use vstd::string::*;

verus! {

/// The lowercase hexadecimal digit for a value below 16.
pub open spec fn hex_digit_lower(d: int) -> char {
    if d == 0 { '0' } else if d == 1 { '1' } else if d == 2 { '2' } else if d == 3 { '3' }
    else if d == 4 { '4' } else if d == 5 { '5' } else if d == 6 { '6' } else if d == 7 { '7' }
    else if d == 8 { '8' } else if d == 9 { '9' } else if d == 10 { 'a' } else if d == 11 { 'b' }
    else if d == 12 { 'c' } else if d == 13 { 'd' } else if d == 14 { 'e' } else { 'f' }
}

/// The uppercase hexadecimal digit for a value below 16.
pub open spec fn hex_digit_upper(d: int) -> char {
    if d == 10 { 'A' } else if d == 11 { 'B' } else if d == 12 { 'C' } else if d == 13 { 'D' }
    else if d == 14 { 'E' } else if d == 15 { 'F' } else { hex_digit_lower(d) }
}

/// Lowercase hex encoding: two digits per byte, high nibble first.
pub open spec fn hex_lower(bytes: Seq<u8>) -> Seq<char>
    decreases bytes.len(),
{
    if bytes.len() == 0 {
        Seq::empty()
    } else {
        let b = bytes.last();
        hex_lower(bytes.drop_last()) + seq![hex_digit_lower((b / 16) as int), hex_digit_lower((b % 16) as int)]
    }
}

/// The decimal digit character for a value below 10.
pub open spec fn decimal_digit(d: int) -> char {
    hex_digit_lower(d)
}

/// Decimal rendering of a natural number, without sign or leading zeros.
pub open spec fn decimal(n: nat) -> Seq<char>
    decreases n,
{
    if n < 10 {
        seq![decimal_digit(n as int)]
    } else {
        decimal(n / 10).push(decimal_digit((n % 10) as int))
    }
}

pub proof fn lemma_hex_lower_len(bytes: Seq<u8>)
    ensures
        hex_lower(bytes).len() == 2 * bytes.len(),
    decreases bytes.len(),
{
    if bytes.len() > 0 {
        lemma_hex_lower_len(bytes.drop_last());
    }
}

fn hex_digit_lower_exec(d: u8) -> (c: char)
    requires
        d < 16,
    ensures
        c == hex_digit_lower(d as int),
{
    match d {
        0 => '0',
        1 => '1',
        2 => '2',
        3 => '3',
        4 => '4',
        5 => '5',
        6 => '6',
        7 => '7',
        8 => '8',
        9 => '9',
        10 => 'a',
        11 => 'b',
        12 => 'c',
        13 => 'd',
        14 => 'e',
        _ => 'f',
    }
}

/// The characters of a string slice, in order.
pub fn str_chars(s: &str) -> (v: Vec<char>)
    ensures
        v@ == s@,
{
    let n = s.unicode_len();
    let mut v: Vec<char> = Vec::new();
    let mut i: usize = 0;
    while i < n
        invariant
            n == s@.len(),
            i <= n,
            v@ == s@.take(i as int),
        decreases n - i,
    {
        let c = s.get_char(i);
        v.push(c);
        assert(s@.take(i as int).push(c) =~= s@.take(i as int + 1));
        i = i + 1;
    }
    assert(s@.take(n as int) =~= s@);
    v
}

/// `String` collected from characters (`FromIterator<char>` for `String`).
#[verifier::external_body]
pub(crate) fn string_from_chars(chars: &[char]) -> (s: String)
    ensures
        s@ == chars@,
{
    chars.iter().collect()
}

/// `String::from_utf8`: `Some` exactly when the bytes are valid UTF-8, holding
/// the decoded characters.
#[verifier::external_body]
pub(crate) fn string_from_utf8(bytes: Vec<u8>) -> (s: Option<String>)
    ensures
        s is Some <==> vstd::utf8::valid_utf8(bytes@),
        s matches Some(t) ==> t@ == vstd::utf8::decode_utf8(bytes@),
{
    String::from_utf8(bytes).ok()
}

/// Appends the characters of `s` to `out`.
pub fn push_str(out: &mut Vec<char>, s: &str)
    ensures
        final(out)@ == old(out)@ + s@,
{
    let cs = str_chars(s);
    push_chars(out, &cs);
}

/// Appends the characters of `cs` to `out`.
pub fn push_chars(out: &mut Vec<char>, cs: &[char])
    ensures
        final(out)@ == old(out)@ + cs@,
{
    let ghost start = out@;
    let mut i: usize = 0;
    while i < cs.len()
        invariant
            i <= cs@.len(),
            out@ == start + cs@.take(i as int),
        decreases cs@.len() - i,
    {
        out.push(cs[i]);
        assert(start + cs@.take(i as int + 1) =~= (start + cs@.take(i as int)).push(cs@[i as int]));
        i = i + 1;
    }
    assert(cs@.take(cs@.len() as int) =~= cs@);
}

/// Lowercase hex encoding of bytes (what `hex::encode` and `{:x}` produce).
pub fn to_hex_lower(bytes: &[u8]) -> (s: String)
    ensures
        s@ == hex_lower(bytes@),
{
    let mut out: Vec<char> = Vec::new();
    let mut i: usize = 0;
    while i < bytes.len()
        invariant
            i <= bytes@.len(),
            out@ == hex_lower(bytes@.take(i as int)),
        decreases bytes@.len() - i,
    {
        let b = bytes[i];
        out.push(hex_digit_lower_exec(b / 16));
        out.push(hex_digit_lower_exec(b % 16));
        assert(bytes@.take(i as int + 1).drop_last() =~= bytes@.take(i as int));
        i = i + 1;
    }
    assert(bytes@.take(bytes@.len() as int) =~= bytes@);
    string_from_chars(&out)
}

/// Appends the decimal rendering of `n` to `out`.
pub fn push_decimal(out: &mut Vec<char>, n: u64)
    ensures
        final(out)@ == old(out)@ + decimal(n as nat),
    decreases n,
{
    if n >= 10 {
        push_decimal(out, n / 10);
    }
    out.push(hex_digit_lower_exec((n % 10) as u8));
    proof {
        if n >= 10 {
            assert(decimal(n as nat) == decimal((n / 10) as nat).push(decimal_digit((n % 10) as int)));
        }
    }
}

/// Decimal rendering of an unsigned integer (what `u64::to_string` produces).
pub fn u64_to_decimal(n: u64) -> (s: String)
    ensures
        s@ == decimal(n as nat),
{
    let mut out: Vec<char> = Vec::new();
    push_decimal(&mut out, n);
    assert(out@ =~= decimal(n as nat));
    string_from_chars(&out)
}

/// Whether two character sequences are equal.
pub fn chars_eq(a: &[char], b: &[char]) -> (r: bool)
    ensures
        r == (a@ == b@),
{
    if a.len() != b.len() {
        return false;
    }
    let mut i: usize = 0;
    while i < a.len()
        invariant
            a@.len() == b@.len(),
            i <= a@.len(),
            forall|j: int| 0 <= j < i ==> a@[j] == b@[j],
        decreases a@.len() - i,
    {
        if a[i] != b[i] {
            return false;
        }
        i = i + 1;
    }
    assert(a@ =~= b@);
    true
}

/// Whether a string slice holds exactly the given characters.
pub fn str_is(s: &str, expected: &[char]) -> (r: bool)
    ensures
        r == (s@ == expected@),
{
    let cs = str_chars(s);
    chars_eq(&cs, expected)
}

/// A copy of the characters `from..to` of `v`.
pub fn chars_slice(v: &[char], from: usize, to: usize) -> (r: Vec<char>)
    requires
        from <= to <= v@.len(),
    ensures
        r@ == v@.subrange(from as int, to as int),
{
    let mut r: Vec<char> = Vec::new();
    let mut i: usize = from;
    while i < to
        invariant
            from <= i <= to,
            to <= v@.len(),
            r@ == v@.subrange(from as int, i as int),
        decreases to - i,
    {
        r.push(v[i]);
        assert(v@.subrange(from as int, i as int + 1) =~= v@.subrange(from as int, i as int).push(v@[i as int]));
        i = i + 1;
    }
    r
}

/// The pieces of `s` between occurrences of `sep` (what `str::split` with a
/// character yields): one more piece than there are separators.
pub open spec fn split_char(s: Seq<char>, sep: char) -> Seq<Seq<char>>
    decreases s.len(),
{
    if s.len() == 0 {
        seq![Seq::empty()]
    } else {
        let rest = split_char(s.drop_last(), sep);
        if s.last() == sep {
            rest.push(Seq::empty())
        } else {
            rest.update(rest.len() - 1, rest.last().push(s.last()))
        }
    }
}

pub proof fn lemma_split_char_nonempty(s: Seq<char>, sep: char)
    ensures
        split_char(s, sep).len() >= 1,
    decreases s.len(),
{
    if s.len() > 0 {
        lemma_split_char_nonempty(s.drop_last(), sep);
    }
}

/// The pieces of `v` between occurrences of `sep`.
pub fn split_chars(v: &[char], sep: char) -> (parts: Vec<Vec<char>>)
    ensures
        parts@.len() == split_char(v@, sep).len(),
        forall|j: int| 0 <= j < parts@.len() ==> #[trigger] parts@[j]@ == split_char(v@, sep)[j],
{
    let mut parts: Vec<Vec<char>> = Vec::new();
    let mut cur: Vec<char> = Vec::new();
    let mut i: usize = 0;
    assert(v@.take(0) =~= Seq::<char>::empty());
    while i < v.len()
        invariant
            i <= v@.len(),
            parts@.len() + 1 == split_char(v@.take(i as int), sep).len(),
            forall|j: int| 0 <= j < parts@.len() ==> #[trigger] parts@[j]@ == split_char(v@.take(i as int), sep)[j],
            cur@ == split_char(v@.take(i as int), sep).last(),
        decreases v@.len() - i,
    {
        let c = v[i];
        let ghost t = v@.take(i as int + 1);
        assert(t.drop_last() =~= v@.take(i as int));
        assert(t.last() == c);
        proof {
            lemma_split_char_nonempty(v@.take(i as int), sep);
        }
        if c == sep {
            let done = cur;
            parts.push(done);
            cur = Vec::new();
        } else {
            cur.push(c);
        }
        i = i + 1;
    }
    assert(v@.take(v@.len() as int) =~= v@);
    proof {
        lemma_split_char_nonempty(v@, sep);
    }
    parts.push(cur);
    parts
}

/// `s` without its leading `c` characters.
pub open spec fn strip_leading(s: Seq<char>, c: char) -> Seq<char>
    decreases s.len(),
{
    if s.len() > 0 && s[0] == c {
        strip_leading(s.skip(1), c)
    } else {
        s
    }
}

/// `s` without its trailing `c` characters.
pub open spec fn strip_trailing(s: Seq<char>, c: char) -> Seq<char>
    decreases s.len(),
{
    if s.len() > 0 && s.last() == c {
        strip_trailing(s.drop_last(), c)
    } else {
        s
    }
}

/// What `str::trim_matches(c)` leaves: leading and trailing `c` removed.
pub open spec fn trim_matches_char(s: Seq<char>, c: char) -> Seq<char> {
    strip_trailing(strip_leading(s, c), c)
}

/// `s` with leading and trailing `c` characters removed.
pub fn trim_matches(v: &[char], c: char) -> (r: Vec<char>)
    ensures
        r@ == trim_matches_char(v@, c),
{
    let mut start: usize = 0;
    assert(v@.skip(0) =~= v@);
    while start < v.len() && v[start] == c
        invariant
            start <= v@.len(),
            strip_leading(v@, c) == strip_leading(v@.skip(start as int), c),
        decreases v@.len() - start,
    {
        assert(v@.skip(start as int).skip(1) =~= v@.skip(start as int + 1));
        start = start + 1;
    }
    assert(strip_leading(v@.skip(start as int), c) == v@.skip(start as int));
    let mut end: usize = v.len();
    assert(v@.subrange(start as int, v@.len() as int) =~= v@.skip(start as int));
    while end > start && v[end - 1] == c
        invariant
            start <= end <= v@.len(),
            strip_trailing(v@.skip(start as int), c) == strip_trailing(v@.subrange(start as int, end as int), c),
        decreases end - start,
    {
        assert(v@.subrange(start as int, end as int).drop_last() =~= v@.subrange(start as int, end as int - 1));
        end = end - 1;
    }
    chars_slice(v, start, end)
}

} // verus!
