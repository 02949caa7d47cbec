//! Verified core of a Nostr status-sharing client: key storage (NIP-49),
//! custom emoji discovery (NIP-30/51), timelines, zaps (NIP-57) and the
//! rules the client applies to posts and relay lists.
pub mod text;
pub mod nip49;
pub mod keys;
pub mod emoji_map;
pub mod types;
pub mod account;
pub mod emoji_loader;
pub mod timeline;
pub mod post;
pub mod zap;
pub mod image_cache;
pub mod relays;
pub mod migration;
pub mod content;
