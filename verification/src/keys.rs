//! Parsing of Nostr keys, identifiers and tags, done by the `nostr` crate.
use vstd::prelude::*;
use crate::text::hex_lower;
use std::str::FromStr;
use nostr::JsonUtil;

verus! {

/// The 32 secret-key bytes that `nostr::Keys::parse` reads from the text
/// (64 hex digits or a `nsec` bech32 string), or `None` where it fails.
pub uninterp spec fn spec_parse_secret_key(text: Seq<char>) -> Option<Seq<u8>>;

/// `nostr::Keys::parse` followed by `secret_key().to_secret_bytes()`.
/// Claimed: the result is the named one; a key it returns has 32 bytes, and
/// its lowercase hex form parses back to the same bytes (`SecretKey::parse`
/// tries hex first, and secp256k1 reads 64 hex digits of a valid key back to
/// that key).
#[verifier::external_body]
pub(crate) fn parse_secret_key(text: &str) -> (res: Option<Vec<u8>>)
    ensures
        res matches Some(b) ==> spec_parse_secret_key(text@) == Some(b@),
        res is None ==> spec_parse_secret_key(text@) is None,
        res matches Some(b) ==> b@.len() == 32 && spec_parse_secret_key(hex_lower(b@)) == Some(b@),
{
    nostr::Keys::parse(text).ok().map(|k| k.secret_key().to_secret_bytes().to_vec())
}

/// The 32 public-key bytes that `nostr::PublicKey::from_str` reads from the
/// text (hex, `npub` bech32 or a NIP-21 `nostr:` URI), or `None` where it fails.
pub uninterp spec fn spec_parse_public_key(text: Seq<char>) -> Option<Seq<u8>>;

/// `nostr::PublicKey::from_str`, returning the key's bytes. Claimed: the
/// result is the named one, and a key has 32 bytes.
#[verifier::external_body]
pub(crate) fn parse_public_key(text: &str) -> (res: Option<Vec<u8>>)
    ensures
        res matches Some(b) ==> spec_parse_public_key(text@) == Some(b@) && b@.len() == 32,
        res is None ==> spec_parse_public_key(text@) is None,
{
    nostr::PublicKey::from_str(text).ok().map(|k| k.to_bytes().to_vec())
}

/// Whether `nostr::nips::nip47::NostrWalletConnectURI::from_str` accepts the text.
pub uninterp spec fn spec_nwc_uri_valid(text: Seq<char>) -> bool;

/// `NostrWalletConnectURI::from_str`, reduced to whether it succeeds.
#[verifier::external_body]
pub(crate) fn nwc_uri_is_valid(text: &str) -> (r: bool)
    ensures
        r == spec_nwc_uri_valid(text@),
{
    nostr::nips::nip47::NostrWalletConnectURI::from_str(text).is_ok()
}

/// A tag as `nostr::TagStandard::parse` reads it, reduced to the forms the
/// client looks at. Keys and ids are in lowercase hex.
#[derive(Debug)]
pub enum StandardTag {
    /// `p`/`P` tag naming a public key (not a live-event participant).
    PublicKey { public_key: String },
    /// `e` tag naming an event (not a report).
    Event { event_id: String },
    /// NIP-30 `emoji` tag: shortcode and image URL (as the `url` crate prints it).
    Emoji { shortcode: String, url: String },
    /// Any other tag, or one that does not parse.
    Other,
}

pub enum StandardTagView {
    PublicKey(Seq<char>),
    Event(Seq<char>),
    Emoji(Seq<char>, Seq<char>),
    Other,
}

impl View for StandardTag {
    type V = StandardTagView;

    open spec fn view(&self) -> StandardTagView {
        match self {
            StandardTag::PublicKey { public_key } => StandardTagView::PublicKey(public_key@),
            StandardTag::Event { event_id } => StandardTagView::Event(event_id@),
            StandardTag::Emoji { shortcode, url } => StandardTagView::Emoji(shortcode@, url@),
            StandardTag::Other => StandardTagView::Other,
        }
    }
}

/// The form `nostr::TagStandard::parse` gives the tag's fields.
pub uninterp spec fn spec_standard_tag(tag: Seq<Seq<char>>) -> StandardTagView;

/// `nostr::TagStandard::parse` (what `Tag::as_standardized` caches). Claimed:
/// the result is the named form of the tag's fields.
#[verifier::external_body]
pub(crate) fn standard_tag(tag: &Vec<String>) -> (r: StandardTag)
    ensures
        r@ == spec_standard_tag(tag.deep_view()),
{
    match nostr::TagStandard::parse(tag) {
        Ok(nostr::TagStandard::PublicKey { public_key, .. }) => StandardTag::PublicKey { public_key: public_key.to_hex() },
        Ok(nostr::TagStandard::Event { event_id, .. }) => StandardTag::Event { event_id: event_id.to_hex() },
        Ok(nostr::TagStandard::Emoji { shortcode, url }) => StandardTag::Emoji { shortcode, url: url.to_string() },
        _ => StandardTag::Other,
    }
}

/// The content and tags of the event that `nostr::Event::from_json` reads
/// from the text, or `None` where it fails.
pub uninterp spec fn spec_event_json(text: Seq<char>) -> Option<(Seq<char>, Seq<Seq<Seq<char>>>)>;

/// `nostr::Event::from_json`, keeping the event's content and tags. Claimed:
/// the result is the named one.
#[verifier::external_body]
pub(crate) fn parse_event_json(text: &str) -> (r: Option<(String, Vec<Vec<String>>)>)
    ensures
        r matches Some(p) ==> spec_event_json(text@) == Some((p.0@, p.1.deep_view())),
        r is None ==> spec_event_json(text@) is None,
{
    nostr::Event::from_json(text).ok().map(|e| (e.content, e.tags.iter().map(|t| t.as_slice().to_vec()).collect()))
}

} // verus!
