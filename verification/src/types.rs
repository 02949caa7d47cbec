//! The client's data: stored configuration, profiles, posts, zap receipts,
//! cached entries and the appearance settings.
use vstd::prelude::*;
use crate::emoji_map::{EmojiMap, pairs_view};

verus! {

/// The stored account: the secret key and, once a wallet is connected, the
/// Nostr Wallet Connect URI, both as `#nip49:` texts sealed under the app
/// passphrase with the one Base64 salt.
pub struct Config {
    pub encrypted_secret_key: String,
    pub salt: String,
    pub encrypted_nwc_uri: Option<String>,
}

/// The relays the client talks to, by role.
pub struct RelayConfig {
    pub aggregator: Vec<String>,
    pub self_hosted: Vec<String>,
    pub search: Vec<String>,
}

/// The tabs of the main window.
#[derive(Debug, PartialEq, Eq, Structural, Copy, Clone)]
pub enum AppTab {
    Home,
    Relays,
    Wallet,
    Profile,
}

impl AppTab {
    /// Whether the tab is offered: Home always, the others once logged in.
    pub fn is_available(&self, logged_in: bool) -> (r: bool)
        ensures
            r == (*self == AppTab::Home || logged_in),
    {
        match self {
            AppTab::Home => true,
            _ => logged_in,
        }
    }
}

/// A colour as the GUI stores it: red, green, blue, alpha, premultiplied.
#[derive(Debug, PartialEq, Eq, Structural, Copy, Clone)]
pub struct Rgba {
    pub r: u8,
    pub g: u8,
    pub b: u8,
    pub a: u8,
}

/// An opaque colour.
pub open spec fn opaque(r: u8, g: u8, b: u8) -> Rgba {
    Rgba { r, g, b, a: 255 }
}

/// Premultiplied white at the given opacity.
pub open spec fn white_alpha(a: u8) -> Rgba {
    Rgba { r: a, g: a, b: a, a }
}

/// The light and dark appearance.
#[derive(Debug, PartialEq, Eq, Structural, Copy, Clone)]
pub enum AppTheme {
    Light,
    Dark,
}

impl AppTheme {
    pub open spec fn spec_toggled(self) -> AppTheme {
        match self {
            AppTheme::Light => AppTheme::Dark,
            AppTheme::Dark => AppTheme::Light,
        }
    }

    /// The other theme (what the theme button switches to).
    pub fn toggled(&self) -> (t: AppTheme)
        ensures
            t == self.spec_toggled(),
            t != *self,
    {
        match self {
            AppTheme::Light => AppTheme::Dark,
            AppTheme::Dark => AppTheme::Light,
        }
    }

    pub fn card_background_color(&self) -> (c: Rgba)
        ensures
            c == (match self {
                AppTheme::Light => white_alpha(250),
                AppTheme::Dark => opaque(44, 44, 46),
            }),
    {
        match self {
            AppTheme::Light => Rgba { r: 250, g: 250, b: 250, a: 250 },
            AppTheme::Dark => Rgba { r: 44, g: 44, b: 46, a: 255 },
        }
    }

    pub fn text_color(&self) -> (c: Rgba)
        ensures
            c == (match self {
                AppTheme::Light => opaque(0, 0, 0),
                AppTheme::Dark => opaque(255, 255, 255),
            }),
    {
        match self {
            AppTheme::Light => Rgba { r: 0, g: 0, b: 0, a: 255 },
            AppTheme::Dark => Rgba { r: 255, g: 255, b: 255, a: 255 },
        }
    }

    pub fn danger_zone_background_color(&self) -> (c: Rgba)
        ensures
            c == (match self {
                AppTheme::Light => opaque(255, 235, 238),
                AppTheme::Dark => opaque(60, 40, 40),
            }),
    {
        match self {
            AppTheme::Light => Rgba { r: 255, g: 235, b: 238, a: 255 },
            AppTheme::Dark => Rgba { r: 60, g: 40, b: 40, a: 255 },
        }
    }

    pub fn danger_zone_stroke_color(&self) -> (c: Rgba)
        ensures
            c == (match self {
                AppTheme::Light => opaque(255, 180, 180),
                AppTheme::Dark => opaque(120, 60, 60),
            }),
    {
        match self {
            AppTheme::Light => Rgba { r: 255, g: 180, b: 180, a: 255 },
            AppTheme::Dark => Rgba { r: 120, g: 60, b: 60, a: 255 },
        }
    }

    /// Fill and stroke of the frame around a quoted post.
    pub fn quote_colors(&self) -> (c: (Rgba, Rgba))
        ensures
            c == (match self {
                AppTheme::Light => (opaque(240, 240, 240), opaque(220, 220, 220)),
                AppTheme::Dark => (opaque(30, 30, 32), opaque(60, 60, 62)),
            }),
    {
        match self {
            AppTheme::Light => (Rgba { r: 240, g: 240, b: 240, a: 255 }, Rgba { r: 220, g: 220, b: 220, a: 255 }),
            AppTheme::Dark => (Rgba { r: 30, g: 30, b: 32, a: 255 }, Rgba { r: 60, g: 60, b: 62, a: 255 }),
        }
    }
}

/// Switching the theme twice gives the theme back.
pub proof fn lemma_toggle_twice(t: AppTheme)
    ensures
        t.spec_toggled().spec_toggled() == t,
{
}

/// What an image is shown as, which decides its thumbnail size.
#[derive(Debug, PartialEq, Eq, Structural, Copy, Clone)]
pub enum ImageKind {
    Avatar,
    Emoji,
    ProfilePicture,
}

impl ImageKind {
    /// Width and height, in pixels, of the thumbnail kept for the image.
    pub fn thumbnail_size(&self) -> (s: (u32, u32))
        ensures
            s == (match self {
                ImageKind::Avatar => (32u32, 32u32),
                ImageKind::Emoji => (20u32, 20u32),
                ImageKind::ProfilePicture => (100u32, 100u32),
            }),
    {
        match self {
            ImageKind::Avatar => (32, 32),
            ImageKind::Emoji => (20, 20),
            ImageKind::ProfilePicture => (100, 100),
        }
    }
}

/// NIP-01 profile metadata. Fields the client does not know are kept in
/// `extra` as (name, JSON text) pairs.
pub struct ProfileMetadata {
    pub name: String,
    pub about: String,
    pub picture: String,
    pub nip05: String,
    pub emojis: Vec<(String, String)>,
    pub lud16: String,
    pub extra: Vec<(String, String)>,
}

pub struct ProfileView {
    pub name: Seq<char>,
    pub about: Seq<char>,
    pub picture: Seq<char>,
    pub nip05: Seq<char>,
    pub emojis: Seq<(Seq<char>, Seq<char>)>,
    pub lud16: Seq<char>,
    pub extra: Seq<(Seq<char>, Seq<char>)>,
}

impl View for ProfileMetadata {
    type V = ProfileView;

    open spec fn view(&self) -> ProfileView {
        ProfileView {
            name: self.name@,
            about: self.about@,
            picture: self.picture@,
            nip05: self.nip05@,
            emojis: pairs_view(self.emojis@),
            lud16: self.lud16@,
            extra: pairs_view(self.extra@),
        }
    }
}

impl ProfileMetadata {
    pub open spec fn is_empty_profile(&self) -> bool {
        &&& self.name@.len() == 0
        &&& self.about@.len() == 0
        &&& self.picture@.len() == 0
        &&& self.nip05@.len() == 0
        &&& self.emojis@.len() == 0
        &&& self.lud16@.len() == 0
        &&& self.extra@.len() == 0
    }

    /// The profile of someone who has published none.
    pub fn empty() -> (p: ProfileMetadata)
        ensures
            p.is_empty_profile(),
    {
        ProfileMetadata {
            name: String::new(),
            about: String::new(),
            picture: String::new(),
            nip05: String::new(),
            emojis: Vec::new(),
            lud16: String::new(),
            extra: Vec::new(),
        }
    }

    /// A field-by-field copy.
    pub fn duplicate(&self) -> (p: ProfileMetadata)
        ensures
            p@ == self@,
    {
        ProfileMetadata {
            name: self.name.clone(),
            about: self.about.clone(),
            picture: self.picture.clone(),
            nip05: self.nip05.clone(),
            emojis: clone_pairs(&self.emojis),
            lud16: self.lud16.clone(),
            extra: clone_pairs(&self.extra),
        }
    }
}

/// A copy of a list of string pairs.
pub fn clone_pairs(v: &Vec<(String, String)>) -> (r: Vec<(String, String)>)
    ensures
        r@ == v@,
{
    let mut r: Vec<(String, String)> = Vec::new();
    let mut i: usize = 0;
    while i < v.len()
        invariant
            i <= v@.len(),
            r@ == v@.take(i as int),
        decreases v@.len() - i,
    {
        r.push((v[i].0.clone(), v[i].1.clone()));
        assert(v@.take(i as int + 1) =~= v@.take(i as int).push(v@[i as int]));
        i = i + 1;
    }
    assert(v@.take(v@.len() as int) =~= v@);
    r
}

/// A copy of a list of strings.
pub fn clone_strings(v: &Vec<String>) -> (r: Vec<String>)
    ensures
        r@ == v@,
{
    let mut r: Vec<String> = Vec::new();
    let mut i: usize = 0;
    while i < v.len()
        invariant
            i <= v@.len(),
            r@ == v@.take(i as int),
        decreases v@.len() - i,
    {
        r.push(v[i].clone());
        assert(v@.take(i as int + 1) =~= v@.take(i as int).push(v@[i as int]));
        i = i + 1;
    }
    assert(v@.take(v@.len() as int) =~= v@);
    r
}

/// A copy of a list of tags.
pub fn clone_tags(v: &Vec<Vec<String>>) -> (r: Vec<Vec<String>>)
    ensures
        r.deep_view() == v.deep_view(),
{
    let mut r: Vec<Vec<String>> = Vec::new();
    let mut i: usize = 0;
    while i < v.len()
        invariant
            i <= v@.len(),
            r@.len() == i,
            forall|j: int| 0 <= j < i ==> #[trigger] r@[j].deep_view() == v@[j].deep_view(),
        decreases v@.len() - i,
    {
        let t = clone_strings(&v[i]);
        proof {
            assert(t.deep_view() =~= v@[i as int].deep_view());
        }
        r.push(t);
        i = i + 1;
    }
    assert(r.deep_view() =~= v.deep_view());
    r
}

/// A note (or reaction) as the timeline shows it. Ids and keys are lowercase
/// hex; `created_at` is in Unix seconds.
pub struct TimelinePost {
    pub id: String,
    pub kind: u16,
    pub author_pubkey: String,
    pub author_metadata: ProfileMetadata,
    pub content: String,
    pub created_at: u64,
    pub emojis: EmojiMap,
    pub tags: Vec<Vec<String>>,
}

/// A NIP-57 zap receipt the user sent.
pub struct ZapReceipt {
    pub id: String,
    pub zapper_pubkey: Option<String>,
    pub recipient_pubkey: String,
    pub recipient_metadata: ProfileMetadata,
    pub amount_msats: u64,
    pub created_at: u64,
    pub note: String,
    pub zapped_event_id: Option<String>,
}

/// Something ordered on the timeline by its creation time.
pub trait Dated {
    spec fn spec_created_at(&self) -> u64;

    fn created_at(&self) -> (t: u64)
        ensures
            t == self.spec_created_at(),
    ;
}

impl Dated for TimelinePost {
    open spec fn spec_created_at(&self) -> u64 {
        self.created_at
    }

    fn created_at(&self) -> (t: u64) {
        self.created_at
    }
}

impl Dated for ZapReceipt {
    open spec fn spec_created_at(&self) -> u64 {
        self.created_at
    }

    fn created_at(&self) -> (t: u64) {
        self.created_at
    }
}

/// Number of seconds after which a cached entry is stale (24 hours).
pub const CACHE_TTL_SECONDS: i64 = 86400;

/// Whether an entry written at `written_at` is stale at `now` (Unix seconds):
/// strictly more than 24 hours have passed.
pub open spec fn spec_is_expired(written_at: i64, now: i64) -> bool {
    now - written_at > CACHE_TTL_SECONDS
}

/// The current time: `chrono::Utc::now().timestamp()`. Nothing is claimed of
/// the value, which is the system clock's.
#[verifier::external_body]
pub(crate) fn unix_now() -> (t: i64) {
    chrono::Utc::now().timestamp()
}

/// A cached value with the time (Unix seconds) it was written.
pub struct Cache<T> {
    pub timestamp: i64,
    pub data: T,
}

impl<T> Cache<T> {
    /// Wraps `data` with the current time.
    pub fn new(data: T) -> (c: Cache<T>)
        ensures
            c.data == data,
    {
        Cache { timestamp: unix_now(), data }
    }

    /// Wraps `data` with the given time.
    pub fn new_at(data: T, timestamp: i64) -> (c: Cache<T>)
        ensures
            c.data == data,
            c.timestamp == timestamp,
            !spec_is_expired(c.timestamp, timestamp),
    {
        Cache { timestamp, data }
    }

    /// Whether the entry is stale at `now`.
    pub fn is_expired_at(&self, now: i64) -> (r: bool)
        ensures
            r == spec_is_expired(self.timestamp, now),
    {
        (now as i128) - (self.timestamp as i128) > (CACHE_TTL_SECONDS as i128)
    }

    /// Whether the entry is stale now (by the system clock).
    pub fn is_expired(&self) -> (r: bool)
        ensures
            exists|now: i64| r == spec_is_expired(self.timestamp, now),
    {
        let now = unix_now();
        self.is_expired_at(now)
    }
}

/// Why a cached entry was not used.
#[derive(Debug, PartialEq, Eq, Structural, Copy, Clone)]
pub enum CacheError {
    /// Older than 24 hours.
    Expired,
}

impl<T> Cache<T> {
    /// The entry if it is still fresh at `now`.
    pub fn fresh_at(self, now: i64) -> (r: Result<Cache<T>, CacheError>)
        ensures
            r is Err <==> spec_is_expired(self.timestamp, now),
            r matches Ok(c) ==> c == self,
    {
        if self.is_expired_at(now) {
            Err(CacheError::Expired)
        } else {
            Ok(self)
        }
    }
}

/// A cache entry is fresh at the moment it is written, and stays fresh for
/// 24 hours.
pub proof fn lemma_fresh_for_a_day(written_at: i64, now: i64)
    requires
        written_at <= now <= written_at + CACHE_TTL_SECONDS,
    ensures
        !spec_is_expired(written_at, now),
{
}

} // verus!
