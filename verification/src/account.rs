//! Registering a secret key, unlocking the stored account with the
//! passphrase, and attaching a wallet connection to it.
use vstd::prelude::*;
use vstd::utf8::{valid_utf8, decode_utf8, encode_utf8, encode_utf8_decode_utf8, encode_utf8_valid_utf8};
use crate::text::{hex_lower, to_hex_lower, str_chars, chars_eq, string_from_utf8};
use crate::nip49::{self, Nip49Error, spec_decrypt, bytes_result, chacha_accepts_len};
use crate::keys::{parse_secret_key, spec_parse_secret_key, nwc_uri_is_valid, spec_nwc_uri_valid};
use crate::types::Config;

verus! {

/// Why registration, login or wallet setup was refused.
#[derive(Debug, Clone, Copy, PartialEq, Eq)]
pub enum AccountError {
    /// The passphrase and its confirmation differ.
    PassphraseMismatch,
    /// The passphrase is empty.
    EmptyPassphrase,
    /// The text is not a secret key the `nostr` crate accepts.
    InvalidSecretKey,
    /// The text is not a Nostr Wallet Connect URI.
    InvalidNwcUri,
    /// The decrypted wallet URI is not UTF-8.
    InvalidUtf8,
    /// Encryption or decryption failed.
    Crypto(Nip49Error),
}

/// What unlocking the stored account gives: the secret key in lowercase hex
/// and, if a wallet is connected, its URI.
pub struct UnlockedAccount {
    pub secret_key_hex: String,
    pub nwc_uri: Option<String>,
}

pub open spec fn opt_text(o: Option<String>) -> Option<Seq<char>> {
    match o {
        Some(s) => Some(s@),
        None => None,
    }
}

pub open spec fn unlocked_view(r: Result<UnlockedAccount, AccountError>) -> Result<(Seq<char>, Option<Seq<char>>), AccountError> {
    match r {
        Ok(u) => Ok((u.secret_key_hex@, opt_text(u.nwc_uri))),
        Err(e) => Err(e),
    }
}

/// The wallet URI stored as `encrypted`, decrypted under the passphrase and salt.
pub open spec fn spec_unlock_nwc(encrypted: Seq<char>, passphrase: Seq<char>, salt: Seq<char>) -> Result<Seq<char>, AccountError> {
    match spec_decrypt(encrypted, passphrase, salt) {
        Err(e) => Err(AccountError::Crypto(e)),
        Ok(b) => if !valid_utf8(b) {
            Err(AccountError::InvalidUtf8)
        } else if !spec_nwc_uri_valid(decode_utf8(b)) {
            Err(AccountError::InvalidNwcUri)
        } else {
            Ok(decode_utf8(b))
        },
    }
}

/// Unlocking: decrypt the secret key, check that its hex form is a key, then
/// decrypt and check the wallet URI if there is one.
pub open spec fn spec_unlock(config: Config, passphrase: Seq<char>) -> Result<(Seq<char>, Option<Seq<char>>), AccountError> {
    match spec_decrypt(config.encrypted_secret_key@, passphrase, config.salt@) {
        Err(e) => Err(AccountError::Crypto(e)),
        Ok(sk) => if spec_parse_secret_key(hex_lower(sk)) is None {
            Err(AccountError::InvalidSecretKey)
        } else {
            match config.encrypted_nwc_uri {
                None => Ok((hex_lower(sk), None)),
                Some(enc) => match spec_unlock_nwc(enc@, passphrase, config.salt@) {
                    Err(e) => Err(e),
                    Ok(uri) => Ok((hex_lower(sk), Some(uri))),
                },
            }
        },
    }
}

/// Unlocks the stored account with the passphrase.
pub fn unlock(config: &Config, passphrase: &str) -> (res: Result<UnlockedAccount, AccountError>)
    ensures
        unlocked_view(res) == spec_unlock(*config, passphrase@),
{
    let sk = match nip49::decrypt(config.encrypted_secret_key.as_str(), passphrase, config.salt.as_str()) {
        Ok(b) => b,
        Err(e) => {
            return Err(AccountError::Crypto(e));
        },
    };
    let hex = to_hex_lower(&sk);
    if parse_secret_key(hex.as_str()).is_none() {
        return Err(AccountError::InvalidSecretKey);
    }
    match &config.encrypted_nwc_uri {
        None => Ok(UnlockedAccount { secret_key_hex: hex, nwc_uri: None }),
        Some(enc) => {
            let uri = match nip49::decrypt(enc.as_str(), passphrase, config.salt.as_str()) {
                Ok(b) => b,
                Err(e) => {
                    return Err(AccountError::Crypto(e));
                },
            };
            let text = match string_from_utf8(uri) {
                Some(t) => t,
                None => {
                    return Err(AccountError::InvalidUtf8);
                },
            };
            if !nwc_uri_is_valid(text.as_str()) {
                return Err(AccountError::InvalidNwcUri);
            }
            Ok(UnlockedAccount { secret_key_hex: hex, nwc_uri: Some(text) })
        },
    }
}

fn same_text(a: &str, b: &str) -> (r: bool)
    ensures
        r == (a@ == b@),
{
    let x = str_chars(a);
    let y = str_chars(b);
    chars_eq(&x, &y)
}

/// Registers a secret key (hex or `nsec`) under a new passphrase: the key is
/// sealed with a fresh salt and nonce, and no wallet is connected yet.
pub fn register(secret_key_input: &str, passphrase: &str, confirm_passphrase: &str) -> (res: Result<Config, AccountError>)
    ensures
        res matches Err(e) ==> (e == AccountError::PassphraseMismatch <==> passphrase@ != confirm_passphrase@),
        res matches Err(e) ==> (e == AccountError::PassphraseMismatch || e == AccountError::InvalidSecretKey),
        res is Ok <==> (passphrase@ == confirm_passphrase@ && spec_parse_secret_key(secret_key_input@) is Some),
        res matches Ok(c) ==> c.encrypted_nwc_uri is None,
        res matches Ok(c) ==> spec_unlock(c, passphrase@)
            == Ok::<(Seq<char>, Option<Seq<char>>), AccountError>((hex_lower(spec_parse_secret_key(secret_key_input@).unwrap()), None)),
{
    if !same_text(passphrase, confirm_passphrase) {
        return Err(AccountError::PassphraseMismatch);
    }
    let sk = match parse_secret_key(secret_key_input) {
        Some(b) => b,
        None => {
            return Err(AccountError::InvalidSecretKey);
        },
    };
    assert(chacha_accepts_len(sk@.len()));
    match nip49::encrypt(&sk, passphrase) {
        Ok((text, salt)) => {
            let c = Config { encrypted_secret_key: text, salt, encrypted_nwc_uri: None };
            assert(spec_decrypt(c.encrypted_secret_key@, passphrase@, c.salt@) == Ok::<Seq<u8>, Nip49Error>(sk@));
            Ok(c)
        },
        Err(e) => Err(AccountError::Crypto(e)),
    }
}

/// Connects a wallet: checks the passphrase against the stored secret key,
/// then seals the Nostr Wallet Connect URI under it with the stored salt.
pub fn attach_nwc(config: &Config, nwc_uri: &str, passphrase: &str) -> (res: Result<Config, AccountError>)
    ensures
        res matches Err(e) ==> (e == AccountError::EmptyPassphrase <==> passphrase@.len() == 0),
        res matches Err(e) ==> (e == AccountError::InvalidNwcUri
            <==> (passphrase@.len() != 0 && !spec_nwc_uri_valid(nwc_uri@))),
        res matches Err(e) ==> (e is Crypto <==> (passphrase@.len() != 0 && spec_nwc_uri_valid(nwc_uri@))),
        res matches Err(e) ==> (e == AccountError::EmptyPassphrase || e == AccountError::InvalidNwcUri || e is Crypto),
        res is Ok <==> {
            &&& passphrase@.len() != 0
            &&& spec_nwc_uri_valid(nwc_uri@)
            &&& spec_decrypt(config.encrypted_secret_key@, passphrase@, config.salt@) is Ok
            &&& chacha_accepts_len(encode_utf8(nwc_uri@).len())
        },
        res matches Ok(c) ==> {
            &&& c.encrypted_secret_key@ == config.encrypted_secret_key@
            &&& c.salt@ == config.salt@
            &&& c.encrypted_nwc_uri is Some
            &&& spec_unlock_nwc(c.encrypted_nwc_uri.unwrap()@, passphrase@, c.salt@)
                == Ok::<Seq<char>, AccountError>(nwc_uri@)
        },
        res matches Ok(c) ==> (spec_unlock(*config, passphrase@) matches Ok(u) ==> spec_unlock(c, passphrase@)
            == Ok::<(Seq<char>, Option<Seq<char>>), AccountError>((u.0, Some(nwc_uri@)))),
{
    if passphrase.is_empty() {
        return Err(AccountError::EmptyPassphrase);
    }
    if !nwc_uri_is_valid(nwc_uri) {
        return Err(AccountError::InvalidNwcUri);
    }
    match nip49::decrypt(config.encrypted_secret_key.as_str(), passphrase, config.salt.as_str()) {
        Ok(_) => {},
        Err(e) => {
            return Err(AccountError::Crypto(e));
        },
    }
    let uri_bytes = nwc_uri.as_bytes();
    proof {
        encode_utf8_valid_utf8(nwc_uri@);
        encode_utf8_decode_utf8(nwc_uri@);
    }
    match nip49::encrypt_with_salt(uri_bytes, passphrase, config.salt.as_str()) {
        Ok(text) => {
            let c = Config {
                encrypted_secret_key: config.encrypted_secret_key.clone(),
                salt: config.salt.clone(),
                encrypted_nwc_uri: Some(text),
            };
            Ok(c)
        },
        Err(e) => Err(AccountError::Crypto(e)),
    }
}

} // verus!
