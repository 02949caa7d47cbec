//! Zaps (NIP-57): finding the recipient's LNURL endpoint, checking the
//! amount, building the zap request and the invoice callback, and reading
//! zap receipts.
use vstd::prelude::*;
use vstd::utf8::encode_utf8;
use crate::text::{str_chars, str_is, split_chars, split_char, string_from_chars, push_chars, push_str,
    push_decimal, decimal, hex_digit_upper, to_hex_lower, hex_lower};
use crate::keys::{standard_tag, StandardTag, StandardTagView, spec_standard_tag, parse_event_json,
    spec_event_json, parse_public_key, spec_parse_public_key};
use crate::types::{ZapReceipt, ProfileMetadata};
use crate::nip49::spec_base64_encode;
use nostr::JsonUtil;


verus! {

/// Why a zap could not be made, or a receipt not read.
#[derive(Debug, PartialEq, Eq, Structural, Copy, Clone)]
pub enum ZapError {
    /// The lightning address is not `name@domain` (exactly one `@`).
    InvalidLud16,
    /// The amount is outside what the recipient's endpoint accepts; the
    /// bounds are in millisatoshis.
    AmountOutOfRange { min_sendable: u64, max_sendable: u64 },
}

pub open spec fn lnurl_path() -> Seq<char> {
    seq!['/', '.', 'w', 'e', 'l', 'l', '-', 'k', 'n', 'o', 'w', 'n', '/', 'l', 'n', 'u', 'r', 'l', 'p', '/']
}

pub open spec fn https_scheme() -> Seq<char> {
    seq!['h', 't', 't', 'p', 's', ':', '/', '/']
}

/// The LNURL-pay endpoint of a lightning address `name@domain`:
/// `https://domain/.well-known/lnurlp/name`; refused unless the address
/// splits at `@` into exactly two parts.
pub open spec fn spec_lud16_to_lnurl(lud16: Seq<char>) -> Result<Seq<char>, ZapError> {
    let parts = split_char(lud16, '@');
    if parts.len() != 2 {
        Err(ZapError::InvalidLud16)
    } else {
        Ok(https_scheme() + parts[1] + lnurl_path() + parts[0])
    }
}

pub fn lud16_to_lnurl(lud16: &str) -> (r: Result<String, ZapError>)
    ensures
        match r {
            Ok(u) => spec_lud16_to_lnurl(lud16@) == Ok::<Seq<char>, ZapError>(u@),
            Err(e) => spec_lud16_to_lnurl(lud16@) == Err::<Seq<char>, ZapError>(e),
        },
{
    let v = str_chars(lud16);
    let parts = split_chars(&v, '@');
    if parts.len() != 2 {
        return Err(ZapError::InvalidLud16);
    }
    let ghost sp = split_char(lud16@, '@');
    assert(parts@[0]@ == sp[0]);
    assert(parts@[1]@ == sp[1]);
    let mut out: Vec<char> = vec!['h', 't', 't', 'p', 's', ':', '/', '/'];
    push_chars(&mut out, &parts[1]);
    let path: Vec<char> = vec!['/', '.', 'w', 'e', 'l', 'l', '-', 'k', 'n', 'o', 'w', 'n', '/', 'l', 'n', 'u', 'r', 'l', 'p', '/'];
    push_chars(&mut out, &path);
    push_chars(&mut out, &parts[0]);
    assert(out@ =~= https_scheme() + sp[1] + lnurl_path() + sp[0]);
    Ok(string_from_chars(&out))
}

/// A lightning address of the form `name@domain`, neither part holding `@`,
/// has the endpoint `https://domain/.well-known/lnurlp/name`.
pub proof fn lemma_lud16_endpoint(name: Seq<char>, domain: Seq<char>)
    requires
        !name.contains('@'),
        !domain.contains('@'),
    ensures
        spec_lud16_to_lnurl(name + seq!['@'] + domain)
            == Ok::<Seq<char>, ZapError>(https_scheme() + domain + lnurl_path() + name),
{
    lemma_split_without(name, '@');
    lemma_split_join(name, domain, '@');
}

proof fn lemma_split_without(s: Seq<char>, c: char)
    requires
        !s.contains(c),
    ensures
        split_char(s, c) == seq![s],
    decreases s.len(),
{
    if s.len() > 0 {
        let t = s.drop_last();
        assert(!t.contains(c)) by {
            if t.contains(c) {
                let i = choose|i: int| 0 <= i < t.len() && t[i] == c;
                assert(s[i] == c);
            }
        }
        lemma_split_without(t, c);
        assert(s.last() != c) by {
            assert(s[s.len() - 1] == s.last());
        }
        assert(t.push(s.last()) =~= s);
    } else {
        assert(s =~= Seq::<char>::empty());
    }
}

proof fn lemma_split_join(a: Seq<char>, b: Seq<char>, c: char)
    requires
        split_char(a, c) == seq![a],
        !b.contains(c),
    ensures
        split_char(a + seq![c] + b, c) == seq![a, b],
    decreases b.len(),
{
    let s = a + seq![c] + b;
    if b.len() == 0 {
        assert(s =~= a.push(c));
        assert(s.drop_last() =~= a);
        assert(s.last() == c);
        assert(b =~= Seq::<char>::empty());
        assert(split_char(s, c) =~= seq![a, b]);
    } else {
        let t = b.drop_last();
        assert(!t.contains(c)) by {
            if t.contains(c) {
                let i = choose|i: int| 0 <= i < t.len() && t[i] == c;
                assert(b[i] == c);
            }
        }
        lemma_split_join(a, t, c);
        assert(s.drop_last() =~= a + seq![c] + t);
        assert(s.last() == b.last());
        assert(b.last() != c) by {
            assert(b[b.len() - 1] == b.last());
        }
        assert(t.push(b.last()) =~= b);
        assert(split_char(s, c) =~= seq![a, b]);
    }
}

/// The amount in millisatoshis for an amount in satoshis.
pub fn zap_amount_msats(amount_sats: u64) -> (m: u64)
    requires
        amount_sats * 1000 <= u64::MAX,
    ensures
        m == amount_sats * 1000,
{
    amount_sats * 1000
}

/// Accepts an amount (millisatoshis) within the endpoint's bounds.
pub fn check_sendable(amount_msats: u64, min_sendable: u64, max_sendable: u64) -> (r: Result<(), ZapError>)
    ensures
        r is Ok <==> (min_sendable <= amount_msats && amount_msats <= max_sendable),
        r matches Err(e) ==> e == (ZapError::AmountOutOfRange { min_sendable, max_sendable }),
{
    if amount_msats < min_sendable || amount_msats > max_sendable {
        Err(ZapError::AmountOutOfRange { min_sendable, max_sendable })
    } else {
        Ok(())
    }
}

impl ZapError {
    pub open spec fn spec_message(&self) -> Seq<char> {
        match self {
            ZapError::InvalidLud16 => "Invalid lud16 format"@,
            ZapError::AmountOutOfRange { min_sendable, max_sendable } =>
                "Amount must be between "@ + decimal((*min_sendable / 1000) as nat) + " and "@
                    + decimal((*max_sendable / 1000) as nat) + " sats"@,
        }
    }

    /// The message the client reports; bounds are shown in whole satoshis.
    pub fn message(&self) -> (s: String)
        ensures
            s@ == self.spec_message(),
    {
        match self {
            ZapError::InvalidLud16 => String::from_str("Invalid lud16 format"),
            ZapError::AmountOutOfRange { min_sendable, max_sendable } => {
                let mut out: Vec<char> = Vec::new();
                push_str(&mut out, "Amount must be between ");
                push_decimal(&mut out, *min_sendable / 1000);
                push_str(&mut out, " and ");
                push_decimal(&mut out, *max_sendable / 1000);
                push_str(&mut out, " sats");
                string_from_chars(&out)
            },
        }
    }
}

// ---------------------------------------------------------------------------
// Percent-encoding
// ---------------------------------------------------------------------------

/// Bytes left as they are: ASCII letters, digits and `-`, `.`, `_`, `~`.
pub open spec fn is_unreserved(b: u8) -> bool {
    (48 <= b <= 57) || (65 <= b <= 90) || (97 <= b <= 122) || b == 45 || b == 46 || b == 95 || b == 126
}

/// Percent-encoding of bytes: unreserved bytes as themselves, every other
/// byte as `%` and two uppercase hex digits.
pub open spec fn percent_encode(bytes: Seq<u8>) -> Seq<char>
    decreases bytes.len(),
{
    if bytes.len() == 0 {
        Seq::empty()
    } else {
        let b = bytes.last();
        percent_encode(bytes.drop_last()) + (if is_unreserved(b) {
            seq![b as char]
        } else {
            seq!['%', hex_digit_upper((b / 16) as int), hex_digit_upper((b % 16) as int)]
        })
    }
}

/// `urlencoding::encode`. Claimed, as its source shows: every byte of the
/// UTF-8 text except ASCII letters, digits and `-._~` becomes `%XX` with
/// uppercase hex digits; the others are kept.
#[verifier::external_body]
fn url_encode(text: &str) -> (r: String)
    ensures
        r@ == percent_encode(encode_utf8(text@)),
{
    urlencoding::encode(text).into_owned()
}

pub open spec fn amount_query() -> Seq<char> {
    seq!['?', 'a', 'm', 'o', 'u', 'n', 't', '=']
}

pub open spec fn nostr_query() -> Seq<char> {
    seq!['&', 'n', 'o', 's', 't', 'r', '=']
}

/// The LNURL callback that asks for an invoice:
/// `<callback>?amount=<msats>&nostr=<percent-encoded zap request>`.
pub open spec fn spec_callback_url(callback: Seq<char>, amount_msats: u64, zap_request_json: Seq<char>) -> Seq<char> {
    callback + amount_query() + decimal(amount_msats as nat) + nostr_query() + percent_encode(encode_utf8(zap_request_json))
}

pub fn zap_callback_url(callback: &str, amount_msats: u64, zap_request_json: &str) -> (u: String)
    ensures
        u@ == spec_callback_url(callback@, amount_msats, zap_request_json@),
{
    let mut out = str_chars(callback);
    let q: Vec<char> = vec!['?', 'a', 'm', 'o', 'u', 'n', 't', '='];
    push_chars(&mut out, &q);
    push_decimal(&mut out, amount_msats);
    let n: Vec<char> = vec!['&', 'n', 'o', 's', 't', 'r', '='];
    push_chars(&mut out, &n);
    let enc = url_encode(zap_request_json);
    push_str(&mut out, enc.as_str());
    assert(out@ =~= spec_callback_url(callback@, amount_msats, zap_request_json@));
    string_from_chars(&out)
}

// ---------------------------------------------------------------------------
// Zap requests
// ---------------------------------------------------------------------------

/// The relay named in zap requests for the receipt.
pub open spec fn zap_relay() -> Seq<char> {
    seq!['w', 's', 's', ':', '/', '/', 'r', 'e', 'l', 'a', 'y', '.', 'd', 'a', 'm', 'u', 's', '.', 'i', 'o']
}

/// The tags of a zap request: the recipient, the amount, the receipt relay,
/// the LNURL, and the zapped note if there is one.
pub open spec fn spec_zap_request_tags(recipient: Seq<char>, amount_msats: u64, lnurl: Seq<char>, note_id: Option<Seq<char>>) -> Seq<Seq<Seq<char>>> {
    let base = seq![
        seq![seq!['p'], recipient],
        seq![seq!['a', 'm', 'o', 'u', 'n', 't'], decimal(amount_msats as nat)],
        seq![seq!['r', 'e', 'l', 'a', 'y', 's'], zap_relay()],
        seq![seq!['l', 'n', 'u', 'r', 'l'], lnurl],
    ];
    match note_id {
        Some(id) => base.push(seq![seq!['e'], id]),
        None => base,
    }
}

fn pair_tag(name: &[char], value: String) -> (t: Vec<String>)
    ensures
        t.deep_view() == seq![name@, value@],
{
    let mut t: Vec<String> = Vec::new();
    t.push(string_from_chars(name));
    t.push(value);
    assert(t.deep_view() =~= seq![name@, value@]);
    t
}

pub fn zap_request_tags(recipient_hex: &str, amount_msats: u64, lnurl: &str, note_id_hex: Option<&str>) -> (tags: Vec<Vec<String>>)
    ensures
        tags.deep_view() == spec_zap_request_tags(recipient_hex@, amount_msats, lnurl@,
            match note_id_hex { Some(s) => Some(s@), None => None }),
{
    let p: Vec<char> = vec!['p'];
    let rc = str_chars(recipient_hex);
    let t0 = pair_tag(&p, string_from_chars(&rc));
    let amount: Vec<char> = vec!['a', 'm', 'o', 'u', 'n', 't'];
    let mut digits: Vec<char> = Vec::new();
    push_decimal(&mut digits, amount_msats);
    assert(digits@ =~= decimal(amount_msats as nat));
    let t1 = pair_tag(&amount, string_from_chars(&digits));
    let relays: Vec<char> = vec!['r', 'e', 'l', 'a', 'y', 's'];
    let relay: Vec<char> = vec!['w', 's', 's', ':', '/', '/', 'r', 'e', 'l', 'a', 'y', '.', 'd', 'a', 'm', 'u', 's', '.', 'i', 'o'];
    let t2 = pair_tag(&relays, string_from_chars(&relay));
    let ln: Vec<char> = vec!['l', 'n', 'u', 'r', 'l'];
    let lc = str_chars(lnurl);
    let t3 = pair_tag(&ln, string_from_chars(&lc));
    let ghost d0 = t0.deep_view();
    let ghost d1 = t1.deep_view();
    let ghost d2 = t2.deep_view();
    let ghost d3 = t3.deep_view();
    let mut tags: Vec<Vec<String>> = Vec::new();
    tags.push(t0);
    tags.push(t1);
    tags.push(t2);
    tags.push(t3);
    let ghost base = seq![d0, d1, d2, d3];
    assert(p@ =~= seq!['p']);
    assert(amount@ =~= seq!['a', 'm', 'o', 'u', 'n', 't']);
    assert(relays@ =~= seq!['r', 'e', 'l', 'a', 'y', 's']);
    assert(relay@ =~= zap_relay());
    assert(ln@ =~= seq!['l', 'n', 'u', 'r', 'l']);
    assert(d0 == seq![seq!['p'], recipient_hex@]);
    assert(d1 == seq![seq!['a', 'm', 'o', 'u', 'n', 't'], decimal(amount_msats as nat)]);
    assert(d2 == seq![seq!['r', 'e', 'l', 'a', 'y', 's'], zap_relay()]);
    assert(d3 == seq![seq!['l', 'n', 'u', 'r', 'l'], lnurl@]);
    assert(tags.deep_view() =~= base);
    match note_id_hex {
        Some(id) => {
            let e: Vec<char> = vec!['e'];
            let ic = str_chars(id);
            let t4 = pair_tag(&e, string_from_chars(&ic));
            let ghost d4 = t4.deep_view();
            assert(e@ =~= seq!['e']);
            assert(d4 == seq![seq!['e'], id@]);
            tags.push(t4);
            assert(tags.deep_view() =~= base.push(d4));
        },
        None => {},
    }
    assert(tags.deep_view() =~= spec_zap_request_tags(recipient_hex@, amount_msats, lnurl@,
        match note_id_hex { Some(s) => Some(s@), None => None }));
    tags
}

/// Whether the zap button is offered for a post: the author is someone else
/// and has a lightning address.
pub fn can_zap(author_hex: &str, my_pubkey_hex: &str, author_lud16: &str) -> (r: bool)
    ensures
        r == (author_hex@ != my_pubkey_hex@ && author_lud16@.len() > 0),
{
    let me = str_chars(my_pubkey_hex);
    let lud = str_chars(author_lud16);
    !str_is(author_hex, &me) && lud.len() > 0
}

// ---------------------------------------------------------------------------
// Zap receipts
// ---------------------------------------------------------------------------

/// The amount, in millisatoshis, of the BOLT-11 invoice the text encodes, as
/// `lightning_invoice` reads it: `None` if it does not parse or names no amount.
pub uninterp spec fn spec_bolt11_amount_msats(invoice: Seq<char>) -> Option<u64>;

#[verifier::external_type_specification]
#[verifier::external_body]
pub struct ExBolt11Invoice(lightning_invoice::Bolt11Invoice);

/// `lightning_invoice::Bolt11Invoice::from_str` followed by
/// `amount_milli_satoshis`. Claimed: the result is the named one.
#[verifier::external_body]
fn bolt11_amount_msats(invoice: &str) -> (r: Option<u64>)
    ensures
        r == spec_bolt11_amount_msats(invoice@),
{
    invoice.parse::<lightning_invoice::Bolt11Invoice>().ok().and_then(|i| i.amount_milli_satoshis())
}

/// A zap receipt event (kind 9735) as fetched: id in hex, time in Unix seconds.
pub struct ZapReceiptEvent {
    pub id: String,
    pub created_at: u64,
    pub tags: Vec<Vec<String>>,
}

/// Why a zap receipt was skipped.
#[derive(Debug, PartialEq, Eq, Structural, Copy, Clone)]
pub enum ReceiptError {
    /// No `description` tag with a value (the first such tag counts).
    MissingDescription,
    /// The description is not a Nostr event.
    InvalidDescription,
    /// The zap request names no recipient.
    MissingRecipient,
    /// The `P` tag does not hold a public key.
    InvalidZapper,
}

/// What a receipt says, before the recipient's profile is looked up.
pub struct ReceiptFacts {
    pub id: String,
    pub zapper_pubkey: Option<String>,
    pub recipient_pubkey: String,
    pub amount_msats: u64,
    pub created_at: u64,
    pub note: String,
    pub zapped_event_id: Option<String>,
}

pub struct ReceiptView {
    pub zapper: Option<Seq<char>>,
    pub recipient: Seq<char>,
    pub amount_msats: u64,
    pub note: Seq<char>,
    pub zapped: Option<Seq<char>>,
}

pub open spec fn opt_view(o: Option<String>) -> Option<Seq<char>> {
    match o {
        Some(s) => Some(s@),
        None => None,
    }
}

impl ReceiptFacts {
    pub open spec fn facts(&self) -> ReceiptView {
        ReceiptView {
            zapper: opt_view(self.zapper_pubkey),
            recipient: self.recipient_pubkey@,
            amount_msats: self.amount_msats,
            note: self.note@,
            zapped: opt_view(self.zapped_event_id),
        }
    }
}

/// The value of the first tag named `name`, if that tag has a value.
pub open spec fn first_value(tags: Seq<Seq<Seq<char>>>, name: Seq<char>) -> Option<Option<Seq<char>>>
    decreases tags.len(),
{
    if tags.len() == 0 {
        None
    } else if tags[0].len() >= 1 && tags[0][0] == name {
        Some(if tags[0].len() >= 2 { Some(tags[0][1]) } else { None })
    } else {
        first_value(tags.skip(1), name)
    }
}

/// The last recipient key among the zap request's tags (`p` tags as the
/// `nostr` crate reads them).
pub open spec fn last_recipient(tags: Seq<Seq<Seq<char>>>) -> Option<Seq<char>>
    decreases tags.len(),
{
    if tags.len() == 0 {
        None
    } else {
        match spec_standard_tag(tags.last()) {
            StandardTagView::PublicKey(pk) => Some(pk),
            _ => last_recipient(tags.drop_last()),
        }
    }
}

/// The last zapped event id among the zap request's tags (`e` tags as the
/// `nostr` crate reads them).
pub open spec fn last_zapped(tags: Seq<Seq<Seq<char>>>) -> Option<Seq<char>>
    decreases tags.len(),
{
    if tags.len() == 0 {
        None
    } else {
        match spec_standard_tag(tags.last()) {
            StandardTagView::Event(id) => Some(id),
            _ => last_zapped(tags.drop_last()),
        }
    }
}

pub open spec fn word_description() -> Seq<char> {
    seq!['d', 'e', 's', 'c', 'r', 'i', 'p', 't', 'i', 'o', 'n']
}

pub open spec fn word_bolt11() -> Seq<char> {
    seq!['b', 'o', 'l', 't', '1', '1']
}

/// Reading a receipt: the zap request in its first `description` tag gives
/// the note, the recipient and the zapped event; the first `bolt11` tag's
/// invoice gives the amount (0 if none); the first `P` tag, if it has a
/// value, must be the zapper's key.
pub open spec fn spec_read_receipt(tags: Seq<Seq<Seq<char>>>) -> Result<ReceiptView, ReceiptError> {
    match first_value(tags, word_description()) {
        None => Err(ReceiptError::MissingDescription),
        Some(None) => Err(ReceiptError::MissingDescription),
        Some(Some(desc)) => match spec_event_json(desc) {
            None => Err(ReceiptError::InvalidDescription),
            Some((note, req_tags)) => match last_recipient(req_tags) {
                None => Err(ReceiptError::MissingRecipient),
                Some(recipient) => {
                    let amount = match first_value(tags, word_bolt11()) {
                        Some(Some(inv)) => match spec_bolt11_amount_msats(inv) {
                            Some(a) => a,
                            None => 0,
                        },
                        _ => 0,
                    };
                    match first_value(tags, seq!['P']) {
                        Some(Some(pk)) => match spec_parse_public_key(pk) {
                            None => Err(ReceiptError::InvalidZapper),
                            Some(b) => Ok(ReceiptView {
                                zapper: Some(hex_lower(b)),
                                recipient,
                                amount_msats: amount,
                                note,
                                zapped: last_zapped(req_tags),
                            }),
                        },
                        _ => Ok(ReceiptView { zapper: None, recipient, amount_msats: amount, note, zapped: last_zapped(req_tags) }),
                    }
                },
            },
        },
    }
}

fn find_first_value(tags: &Vec<Vec<String>>, name: &[char]) -> (r: Option<Option<String>>)
    ensures
        match r {
            None => first_value(tags.deep_view(), name@) is None,
            Some(None) => first_value(tags.deep_view(), name@) == Some(None::<Seq<char>>),
            Some(Some(v)) => first_value(tags.deep_view(), name@) == Some(Some(v@)),
        },
{
    let ghost tv = tags.deep_view();
    let mut i: usize = 0;
    assert(tv.skip(0) =~= tv);
    while i < tags.len()
        invariant
            i <= tags@.len(),
            tv == tags.deep_view(),
            first_value(tv, name@) == first_value(tv.skip(i as int), name@),
        decreases tags@.len() - i,
    {
        let ghost s = tv.skip(i as int);
        assert(s[0] == tags@[i as int].deep_view());
        assert(s.skip(1) =~= tv.skip(i as int + 1));
        let tag = &tags[i];
        if tag.len() >= 1 && str_is(tag[0].as_str(), name) {
            assert(s[0][0] == tag@[0]@);
            if tag.len() >= 2 {
                assert(s[0][1] == tag@[1]@);
                return Some(Some(tag[1].clone()));
            }
            return Some(None);
        }
        proof {
            if tag@.len() >= 1 {
                assert(s[0][0] == tag@[0]@);
            }
        }
        i = i + 1;
    }
    assert(tv.skip(tags@.len() as int) =~= Seq::<Seq<Seq<char>>>::empty());
    None
}

fn request_recipient_and_target(tags: &Vec<Vec<String>>) -> (r: (Option<String>, Option<String>))
    ensures
        opt_view(r.0) == last_recipient(tags.deep_view()),
        opt_view(r.1) == last_zapped(tags.deep_view()),
{
    let ghost tv = tags.deep_view();
    let mut recipient: Option<String> = None;
    let mut zapped: Option<String> = None;
    let mut i: usize = 0;
    assert(tv.take(0) =~= Seq::<Seq<Seq<char>>>::empty());
    while i < tags.len()
        invariant
            i <= tags@.len(),
            tv == tags.deep_view(),
            opt_view(recipient) == last_recipient(tv.take(i as int)),
            opt_view(zapped) == last_zapped(tv.take(i as int)),
        decreases tags@.len() - i,
    {
        let ghost t = tv.take(i as int + 1);
        assert(t.drop_last() =~= tv.take(i as int));
        assert(t.last() == tags@[i as int].deep_view());
        match standard_tag(&tags[i]) {
            StandardTag::PublicKey { public_key } => {
                recipient = Some(public_key);
            },
            StandardTag::Event { event_id } => {
                zapped = Some(event_id);
            },
            _ => {},
        }
        i = i + 1;
    }
    assert(tv.take(tags@.len() as int) =~= tv);
    (recipient, zapped)
}

/// Reads a zap receipt.
pub fn read_zap_receipt(event: &ZapReceiptEvent) -> (r: Result<ReceiptFacts, ReceiptError>)
    ensures
        match r {
            Ok(f) => {
                &&& spec_read_receipt(event.tags.deep_view()) == Ok::<ReceiptView, ReceiptError>(f.facts())
                &&& f.id@ == event.id@
                &&& f.created_at == event.created_at
            },
            Err(e) => spec_read_receipt(event.tags.deep_view()) == Err::<ReceiptView, ReceiptError>(e),
        },
{
    let description: Vec<char> = vec!['d', 'e', 's', 'c', 'r', 'i', 'p', 't', 'i', 'o', 'n'];
    let bolt11: Vec<char> = vec!['b', 'o', 'l', 't', '1', '1'];
    let big_p: Vec<char> = vec!['P'];
    assert(description@ == word_description());
    assert(bolt11@ == word_bolt11());
    assert(big_p@ == seq!['P']);
    let desc = match find_first_value(&event.tags, &description) {
        Some(Some(d)) => d,
        _ => {
            return Err(ReceiptError::MissingDescription);
        },
    };
    let (note, req_tags) = match parse_event_json(desc.as_str()) {
        Some(p) => p,
        None => {
            return Err(ReceiptError::InvalidDescription);
        },
    };
    let (recipient, zapped) = request_recipient_and_target(&req_tags);
    let recipient = match recipient {
        Some(pk) => pk,
        None => {
            return Err(ReceiptError::MissingRecipient);
        },
    };
    let amount_msats: u64 = match find_first_value(&event.tags, &bolt11) {
        Some(Some(inv)) => match bolt11_amount_msats(inv.as_str()) {
            Some(a) => a,
            None => 0,
        },
        _ => 0,
    };
    let zapper = match find_first_value(&event.tags, &big_p) {
        Some(Some(pk)) => match parse_public_key(pk.as_str()) {
            Some(b) => Some(to_hex_lower(&b)),
            None => {
                return Err(ReceiptError::InvalidZapper);
            },
        },
        _ => None,
    };
    Ok(ReceiptFacts {
        id: event.id.clone(),
        zapper_pubkey: zapper,
        recipient_pubkey: recipient,
        amount_msats,
        created_at: event.created_at,
        note,
        zapped_event_id: zapped,
    })
}

impl ZapReceipt {
    /// The receipt shown in the history, with the recipient's profile.
    pub fn from_facts(facts: ReceiptFacts, recipient_metadata: ProfileMetadata) -> (z: ZapReceipt)
        ensures
            z.id@ == facts.id@,
            opt_view(z.zapper_pubkey) == opt_view(facts.zapper_pubkey),
            z.recipient_pubkey@ == facts.recipient_pubkey@,
            z.recipient_metadata == recipient_metadata,
            z.amount_msats == facts.amount_msats,
            z.created_at == facts.created_at,
            z.note@ == facts.note@,
            opt_view(z.zapped_event_id) == opt_view(facts.zapped_event_id),
    {
        ZapReceipt {
            id: facts.id,
            zapper_pubkey: facts.zapper_pubkey,
            recipient_pubkey: facts.recipient_pubkey,
            recipient_metadata,
            amount_msats: facts.amount_msats,
            created_at: facts.created_at,
            note: facts.note,
            zapped_event_id: facts.zapped_event_id,
        }
    }

    /// Whole satoshis of the amount.
    pub fn amount_sats(&self) -> (s: u64)
        ensures
            s == self.amount_msats / 1000,
    {
        self.amount_msats / 1000
    }
}

// ---------------------------------------------------------------------------
// Paying through the connected wallet (NIP-47)
// ---------------------------------------------------------------------------

/// The JSON of the NIP-47 `pay_invoice` request for an invoice (no id, no
/// amount), as `nostr`'s `Request::as_json` writes it.
pub uninterp spec fn spec_pay_invoice_json(invoice: Seq<char>) -> Seq<char>;

/// `Request::pay_invoice` then `JsonUtil::as_json`. Claimed: the result is
/// the named one.
#[verifier::external_body]
fn pay_invoice_json(invoice: &str) -> (r: String)
    ensures
        r@ == spec_pay_invoice_json(invoice@),
{
    let params = nostr::nips::nip47::PayInvoiceRequest { id: None, invoice: invoice.to_string(), amount: None };
    nostr::nips::nip47::Request::pay_invoice(params).as_json()
}

/// The AES-256-CBC (PKCS#7) encryption of the bytes under the NIP-04 shared
/// key of a secret key and a public key (both 32 bytes), with the IV.
pub uninterp spec fn spec_nip04_seal(secret_key: Seq<u8>, public_key: Seq<u8>, iv: Seq<u8>, plaintext: Seq<u8>) -> Seq<u8>;

/// `t` is a NIP-04 text of the plaintext: Base64 of its encryption under
/// some 16-byte IV, `?iv=`, and Base64 of that IV.
pub open spec fn nip04_sealed_text(t: Seq<char>, secret_key: Seq<u8>, public_key: Seq<u8>, plaintext: Seq<u8>) -> bool {
    exists|iv: Seq<u8>| iv.len() == 16
        && t == spec_base64_encode(#[trigger] spec_nip04_seal(secret_key, public_key, iv, plaintext))
            + seq!['?', 'i', 'v', '='] + spec_base64_encode(iv)
}

/// `nostr::nips::nip04::encrypt` with the keys read by `SecretKey::from_slice`
/// and `PublicKey::from_slice`. Claimed, as its source shows: a text it
/// returns is the Base64 of the encryption of the content's UTF-8 bytes under
/// a random 16-byte IV, `?iv=`, and the Base64 of that IV. The IV comes from
/// `thread_rng`, so nothing more is said of the text; `None` where a key does
/// not read or the call fails.
#[verifier::external_body]
fn nip04_encrypt(secret_key: &[u8], public_key: &[u8], content: &str) -> (r: Option<String>)
    ensures
        r matches Some(t) ==> exists|iv: Seq<u8>| {
            &&& iv.len() == 16
            &&& t@ == spec_base64_encode(#[trigger] spec_nip04_seal(secret_key@, public_key@, iv, encode_utf8(content@)))
                + seq!['?', 'i', 'v', '='] + spec_base64_encode(iv)
        },
{
    let sk = nostr::SecretKey::from_slice(secret_key).ok()?;
    let pk = nostr::PublicKey::from_slice(public_key).ok()?;
    nostr::nips::nip04::encrypt(&sk, &pk, content).ok()
}

/// The content of the wallet request that pays an invoice: the NIP-47
/// `pay_invoice` request for it, NIP-04-encrypted from the connection's
/// secret to the wallet's key. `None` where the encryption refuses the keys.
pub fn wallet_pay_content(connection_secret: &[u8], wallet_pubkey: &[u8], invoice: &str) -> (r: Option<String>)
    ensures
        r matches Some(t) ==> nip04_sealed_text(t@, connection_secret@, wallet_pubkey@,
            encode_utf8(spec_pay_invoice_json(invoice@))),
{
    let json = pay_invoice_json(invoice);
    nip04_encrypt(connection_secret, wallet_pubkey, json.as_str())
}

} // verus!
