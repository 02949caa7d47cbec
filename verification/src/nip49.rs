//! Passphrase encryption of secrets in the `#nip49:` text format.
//!
//! A secret is sealed with ChaCha20-Poly1305 under a key derived from the
//! passphrase with PBKDF2-HMAC-SHA256 (100 000 rounds, 32-byte key) and a
//! 16-byte salt. The stored text is `#nip49:` followed by the standard Base64
//! encoding of the sealed bytes (ciphertext and tag) with the 12-byte nonce
//! appended; the salt is kept beside it, Base64-encoded.
use vstd::prelude::*;
use vstd::utf8::*;
use crate::text::{str_chars, push_chars, push_str, push_decimal, decimal, string_from_chars, chars_slice, chars_eq};
use base64::Engine;
use chacha20poly1305::aead::{Aead, KeyInit};
use rand::Rng;

verus! {

pub const PBKDF2_ROUNDS: u32 = 100_000;
pub const SALT_LEN: usize = 16;
pub const NONCE_LEN: usize = 12;
pub const KEY_LEN: usize = 32;
/// Number of characters of the `#nip49:` prefix.
pub const PREFIX_LEN: usize = 7;

/// Why the `base64` crate refused a text (its `DecodeError`, held as plain
/// values): offsets are byte offsets into the text.
#[derive(Debug, PartialEq, Eq, Structural, Copy, Clone)]
pub enum Base64Fault {
    /// A byte outside the alphabet (or misplaced padding).
    InvalidByte { offset: usize, byte: u8 },
    /// The number of Base64 symbols is impossible.
    InvalidLength { length: usize },
    /// The last symbol has bits set that decoding would drop.
    InvalidLastSymbol { offset: usize, byte: u8 },
    /// The padding is absent or not canonical.
    InvalidPadding,
}

impl Base64Fault {
    /// The text of the fault, as the `base64` crate displays its `DecodeError`.
    pub open spec fn spec_message(&self) -> Seq<char> {
        match self {
            Base64Fault::InvalidByte { offset, byte } =>
                "Invalid symbol "@ + decimal(*byte as nat) + ", offset "@ + decimal(*offset as nat) + "."@,
            Base64Fault::InvalidLength { length } => "Invalid input length: "@ + decimal(*length as nat),
            Base64Fault::InvalidLastSymbol { offset, byte } =>
                "Invalid last symbol "@ + decimal(*byte as nat) + ", offset "@ + decimal(*offset as nat) + "."@,
            Base64Fault::InvalidPadding => "Invalid padding"@,
        }
    }

    pub fn message(&self) -> (s: String)
        ensures
            s@ == self.spec_message(),
    {
        let mut out: Vec<char> = Vec::new();
        match self {
            Base64Fault::InvalidByte { offset, byte } => {
                push_str(&mut out, "Invalid symbol ");
                push_decimal(&mut out, *byte as u64);
                push_str(&mut out, ", offset ");
                push_decimal(&mut out, *offset as u64);
                push_str(&mut out, ".");
            },
            Base64Fault::InvalidLength { length } => {
                push_str(&mut out, "Invalid input length: ");
                push_decimal(&mut out, *length as u64);
            },
            Base64Fault::InvalidLastSymbol { offset, byte } => {
                push_str(&mut out, "Invalid last symbol ");
                push_decimal(&mut out, *byte as u64);
                push_str(&mut out, ", offset ");
                push_decimal(&mut out, *offset as u64);
                push_str(&mut out, ".");
            },
            Base64Fault::InvalidPadding => {
                push_str(&mut out, "Invalid padding");
            },
        }
        string_from_chars(&out)
    }
}

/// Why an encryption or a decryption was refused.
#[derive(Debug, Clone, Copy, PartialEq, Eq)]
pub enum Nip49Error {
    /// The text does not start with `#nip49:`.
    InvalidFormat,
    /// The salt or the payload is not valid standard Base64.
    Base64Decode(Base64Fault),
    /// The decoded payload is shorter than a nonce.
    InvalidPayload,
    /// The cipher refused the plaintext (it is too long).
    EncryptionFailed,
    /// Authentication failed: wrong passphrase or corrupted data.
    DecryptionFailed,
}

impl Nip49Error {
    /// The message the client shows for this error.
    pub fn message(&self) -> (s: String)
        ensures
            s@ == self.spec_message(),
    {
        match self {
            Nip49Error::InvalidFormat => String::from_str("Invalid NIP-49 format"),
            Nip49Error::Base64Decode(fault) => fault.message(),
            Nip49Error::InvalidPayload => String::from_str("Invalid NIP-49 payload"),
            Nip49Error::EncryptionFailed => String::from_str("NIP-49 encryption error: Error"),
            Nip49Error::DecryptionFailed => String::from_str("Incorrect passphrase or corrupted data"),
        }
    }

    pub open spec fn spec_message(&self) -> Seq<char> {
        match self {
            Nip49Error::InvalidFormat => "Invalid NIP-49 format"@,
            Nip49Error::Base64Decode(fault) => fault.spec_message(),
            Nip49Error::InvalidPayload => "Invalid NIP-49 payload"@,
            Nip49Error::EncryptionFailed => "NIP-49 encryption error: Error"@,
            Nip49Error::DecryptionFailed => "Incorrect passphrase or corrupted data"@,
        }
    }
}

// ---------------------------------------------------------------------------
// Outside functions
// ---------------------------------------------------------------------------

/// What `base64::engine::general_purpose::STANDARD.encode` returns for the bytes.
pub uninterp spec fn spec_base64_encode(data: Seq<u8>) -> Seq<char>;

/// What `base64::engine::general_purpose::STANDARD.decode` returns for the
/// text: the bytes, or the error it reports.
pub uninterp spec fn spec_base64_decode(text: Seq<char>) -> Result<Seq<u8>, Base64Fault>;

/// The length of the padded standard Base64 text of `n` bytes: four
/// characters for each started group of three bytes.
pub open spec fn base64_len(n: nat) -> nat {
    4 * ((n + 2) / 3)
}

/// A decoding that gives these bytes.
pub open spec fn decodes_to(r: Result<Seq<u8>, Base64Fault>, bytes: Seq<u8>) -> bool {
    r matches Ok(d) && d == bytes
}

/// A decoding that fails with this fault.
pub open spec fn fails_with(r: Result<Seq<u8>, Base64Fault>, fault: Base64Fault) -> bool {
    r matches Err(g) && g == fault
}

/// `general_purpose::STANDARD.encode` of the `base64` crate (padded standard
/// alphabet). Claimed: the result is the named encoding of the bytes, the
/// same engine decodes it back to the bytes, and it has the length that the
/// crate's `encoded_len` computes with padding.
#[verifier::external_body]
fn base64_encode(data: &[u8]) -> (res: String)
    ensures
        res@ == spec_base64_encode(data@),
        decodes_to(spec_base64_decode(res@), data@),
        res@.len() == base64_len(data@.len()),
{
    base64::engine::general_purpose::STANDARD.encode(data)
}

/// `general_purpose::STANDARD.decode` of the `base64` crate, its
/// `DecodeError` given as the same variant of `Base64Fault`. Claimed: the
/// result is the named one.
#[verifier::external_body]
fn base64_decode(text: &str) -> (res: Result<Vec<u8>, Base64Fault>)
    ensures
        match res {
            Ok(v) => decodes_to(spec_base64_decode(text@), v@),
            Err(f) => fails_with(spec_base64_decode(text@), f),
        },
{
    match base64::engine::general_purpose::STANDARD.decode(text) {
        Ok(v) => Ok(v),
        Err(base64::DecodeError::InvalidByte(offset, byte)) => Err(Base64Fault::InvalidByte { offset, byte }),
        Err(base64::DecodeError::InvalidLength(length)) => Err(Base64Fault::InvalidLength { length }),
        Err(base64::DecodeError::InvalidLastSymbol(offset, byte)) => Err(Base64Fault::InvalidLastSymbol { offset, byte }),
        Err(base64::DecodeError::InvalidPadding) => Err(Base64Fault::InvalidPadding),
    }
}

/// What `pbkdf2::pbkdf2_hmac::<sha2::Sha256>` writes into an output buffer of
/// `len` bytes.
pub uninterp spec fn spec_pbkdf2_hmac_sha256(password: Seq<u8>, salt: Seq<u8>, rounds: u32, len: nat) -> Seq<u8>;

/// `pbkdf2::pbkdf2_hmac::<Sha256>` into a fresh buffer of `len` bytes. Claimed:
/// the derived key is the named value of password, salt, rounds and length,
/// and has that length (the function fills the buffer it is given and does
/// not panic for HMAC).
#[verifier::external_body]
fn pbkdf2_hmac_sha256(password: &[u8], salt: &[u8], rounds: u32, len: usize) -> (res: Vec<u8>)
    ensures
        res@ == spec_pbkdf2_hmac_sha256(password@, salt@, rounds, len as nat),
        res@.len() == len,
{
    let mut out = vec![0u8; len];
    pbkdf2::pbkdf2_hmac::<sha2::Sha256>(password, salt, rounds, &mut out);
    out
}

/// What `ChaCha20Poly1305::encrypt` returns (ciphertext followed by the tag)
/// for a 32-byte key, a 12-byte nonce and a plaintext it accepts.
pub uninterp spec fn spec_chacha20poly1305_seal(key: Seq<u8>, nonce: Seq<u8>, plaintext: Seq<u8>) -> Seq<u8>;

/// What `ChaCha20Poly1305::decrypt` returns: `None` where authentication fails.
pub uninterp spec fn spec_chacha20poly1305_open(key: Seq<u8>, nonce: Seq<u8>, sealed: Seq<u8>) -> Option<Seq<u8>>;

/// The plaintext lengths that the cipher accepts: fewer than `u32::MAX`
/// 64-byte blocks (the stream counter must not overflow).
pub open spec fn chacha_accepts_len(len: nat) -> bool {
    len / 64 < 4294967295
}

#[verifier::external_type_specification]
#[verifier::external_body]
pub struct ExAeadError(chacha20poly1305::Error);

/// `ChaCha20Poly1305::new(key).encrypt(nonce, plaintext)`. Claimed: it fails
/// exactly when the plaintext has `u32::MAX` blocks of 64 bytes or more (the
/// check in the crate's `encrypt_in_place_detached`); otherwise the output is
/// the named sealing, 16 bytes longer than the plaintext (the tag is
/// appended), and decrypting it with the same key and nonce gives back the
/// plaintext (the defining property of the AEAD).
#[verifier::external_body]
fn chacha20poly1305_encrypt(key: &[u8], nonce: &[u8], plaintext: &[u8]) -> (res: Result<Vec<u8>, chacha20poly1305::Error>)
    requires
        key@.len() == 32,
        nonce@.len() == 12,
    ensures
        res is Ok <==> chacha_accepts_len(plaintext@.len()),
        res matches Ok(c) ==> {
            &&& c@ == spec_chacha20poly1305_seal(key@, nonce@, plaintext@)
            &&& c@.len() == plaintext@.len() + 16
            &&& spec_chacha20poly1305_open(key@, nonce@, c@) == Some(plaintext@)
        },
{
    let cipher = chacha20poly1305::ChaCha20Poly1305::new(chacha20poly1305::Key::from_slice(key));
    cipher.encrypt(chacha20poly1305::Nonce::from_slice(nonce), plaintext)
}

/// `ChaCha20Poly1305::new(key).decrypt(nonce, sealed)`. Claimed: it succeeds
/// exactly when the named opening is defined, with that plaintext.
#[verifier::external_body]
fn chacha20poly1305_decrypt(key: &[u8], nonce: &[u8], sealed: &[u8]) -> (res: Result<Vec<u8>, chacha20poly1305::Error>)
    requires
        key@.len() == 32,
        nonce@.len() == 12,
    ensures
        res is Ok <==> spec_chacha20poly1305_open(key@, nonce@, sealed@) is Some,
        res matches Ok(p) ==> spec_chacha20poly1305_open(key@, nonce@, sealed@) == Some(p@),
{
    let cipher = chacha20poly1305::ChaCha20Poly1305::new(chacha20poly1305::Key::from_slice(key));
    cipher.decrypt(chacha20poly1305::Nonce::from_slice(nonce), sealed)
}

/// `rand::rngs::OsRng.fill` on a fresh buffer of `len` bytes. Only the length
/// is claimed: the bytes come from the operating system's generator (which
/// panics if the operating system cannot provide randomness).
#[verifier::external_body]
fn os_random_bytes(len: usize) -> (res: Vec<u8>)
    ensures
        res@.len() == len,
{
    let mut out = vec![0u8; len];
    rand::rngs::OsRng.fill(&mut out[..]);
    out
}

// ---------------------------------------------------------------------------
// The format
// ---------------------------------------------------------------------------

pub open spec fn nip49_prefix() -> Seq<char> {
    seq!['#', 'n', 'i', 'p', '4', '9', ':']
}

/// The key derived from a passphrase (its UTF-8 bytes) and a salt.
pub open spec fn derived_key(passphrase: Seq<char>, salt: Seq<u8>) -> Seq<u8> {
    spec_pbkdf2_hmac_sha256(encode_utf8(passphrase), salt, PBKDF2_ROUNDS, KEY_LEN as nat)
}

/// The stored text for sealed bytes and the nonce that sealed them.
pub open spec fn nip49_text(sealed: Seq<u8>, nonce: Seq<u8>) -> Seq<char> {
    nip49_prefix() + spec_base64_encode(sealed + nonce)
}

/// What encrypting `plaintext` under `passphrase` gives for a given salt and nonce.
pub open spec fn spec_seal_text(plaintext: Seq<u8>, passphrase: Seq<char>, salt: Seq<u8>, nonce: Seq<u8>) -> Result<Seq<char>, Nip49Error> {
    if chacha_accepts_len(plaintext.len()) {
        Ok(nip49_text(spec_chacha20poly1305_seal(derived_key(passphrase, salt), nonce, plaintext), nonce))
    } else {
        Err(Nip49Error::EncryptionFailed)
    }
}

/// Decryption of `encoded` under `passphrase` with the Base64 `salt_text`,
/// checked in this order: the prefix, the salt, the payload's Base64, the
/// payload's length, then authentication.
pub open spec fn spec_decrypt(encoded: Seq<char>, passphrase: Seq<char>, salt_text: Seq<char>) -> Result<Seq<u8>, Nip49Error> {
    if !(encoded.len() >= PREFIX_LEN && encoded.take(PREFIX_LEN as int) == nip49_prefix()) {
        Err(Nip49Error::InvalidFormat)
    } else {
        match spec_base64_decode(salt_text) {
            Err(f) => Err(Nip49Error::Base64Decode(f)),
            Ok(salt) => match spec_base64_decode(encoded.skip(PREFIX_LEN as int)) {
                Err(f) => Err(Nip49Error::Base64Decode(f)),
                Ok(data) => if data.len() < NONCE_LEN {
                    Err(Nip49Error::InvalidPayload)
                } else {
                    let split = data.len() - NONCE_LEN;
                    match spec_chacha20poly1305_open(derived_key(passphrase, salt), data.skip(split), data.take(split)) {
                        None => Err(Nip49Error::DecryptionFailed),
                        Some(p) => Ok(p),
                    }
                },
            },
        }
    }
}

pub open spec fn bytes_result<E>(r: Result<Vec<u8>, E>) -> Result<Seq<u8>, E> {
    match r {
        Ok(v) => Ok(v@),
        Err(e) => Err(e),
    }
}

pub open spec fn text_result<E>(r: Result<String, E>) -> Result<Seq<char>, E> {
    match r {
        Ok(s) => Ok(s@),
        Err(e) => Err(e),
    }
}

/// The sealed part (ciphertext and tag) is 16 bytes longer than the plaintext.
pub open spec fn sealed_len_ok(plaintext: Seq<u8>, passphrase: Seq<char>, salt: Seq<u8>, nonce: Seq<u8>) -> bool {
    spec_chacha20poly1305_seal(derived_key(passphrase, salt), nonce, plaintext).len() == plaintext.len() + 16
}

/// The key that seals and opens is PBKDF2-HMAC-SHA256, 100 000 rounds, 32
/// bytes, of the UTF-8 bytes of the whole passphrase and the salt: every byte
/// of the passphrase counts.
pub proof fn lemma_key_from_whole_passphrase(passphrase: Seq<char>, salt: Seq<u8>)
    ensures
        derived_key(passphrase, salt) == spec_pbkdf2_hmac_sha256(encode_utf8(passphrase), salt, 100000u32, 32nat),
{
}

/// A text in the `#nip49:` format (Base64 of the sealed bytes followed by the
/// 12-byte nonce), with a salt given in Base64, opens with the key derived
/// from the whole passphrase: decryption gives what the cipher opens under
/// that key and nonce, or `DecryptionFailed`.
pub proof fn lemma_decrypt_opens_with_whole_passphrase(sealed: Seq<u8>, nonce: Seq<u8>, salt: Seq<u8>,
    salt_text: Seq<char>, passphrase: Seq<char>)
    requires
        nonce.len() == 12,
        decodes_to(spec_base64_decode(salt_text), salt),
        decodes_to(spec_base64_decode(spec_base64_encode(sealed + nonce)), sealed + nonce),
    ensures
        spec_decrypt(seq!['#', 'n', 'i', 'p', '4', '9', ':'] + spec_base64_encode(sealed + nonce), passphrase, salt_text)
            == (match spec_chacha20poly1305_open(
                spec_pbkdf2_hmac_sha256(encode_utf8(passphrase), salt, 100000u32, 32nat), nonce, sealed) {
                Some(p) => Ok::<Seq<u8>, Nip49Error>(p),
                None => Err::<Seq<u8>, Nip49Error>(Nip49Error::DecryptionFailed),
            }),
{
    let t = seq!['#', 'n', 'i', 'p', '4', '9', ':'] + spec_base64_encode(sealed + nonce);
    assert(t.take(7) =~= nip49_prefix());
    assert(t.skip(7) =~= spec_base64_encode(sealed + nonce));
    let data = sealed + nonce;
    assert(data.skip(data.len() - 12) =~= nonce);
    assert(data.take(data.len() - 12) =~= sealed);
}

fn passphrase_key(passphrase: &str, salt: &[u8]) -> (key: Vec<u8>)
    ensures
        key@ == derived_key(passphrase@, salt@),
        key@ == spec_pbkdf2_hmac_sha256(encode_utf8(passphrase@), salt@, 100000u32, 32nat),
        key@.len() == KEY_LEN,
{
    let pw = passphrase.as_bytes();
    pbkdf2_hmac_sha256(pw, salt, PBKDF2_ROUNDS, KEY_LEN)
}

/// Seals `plaintext` with the given salt bytes and nonce and renders the
/// `#nip49:` text. The text decrypts back to the plaintext under the same
/// passphrase and the Base64 form of the same salt.
pub fn encrypt_with_salt_and_nonce(plaintext: &[u8], passphrase: &str, salt: &[u8], nonce: &[u8]) -> (res: Result<String, Nip49Error>)
    requires
        nonce@.len() == NONCE_LEN,
    ensures
        text_result(res) == spec_seal_text(plaintext@, passphrase@, salt@, nonce@),
        res is Ok ==> sealed_len_ok(plaintext@, passphrase@, salt@, nonce@),
        res matches Ok(t) ==> t@.len() == PREFIX_LEN + base64_len((plaintext@.len() + 16 + NONCE_LEN) as nat),
        res matches Ok(t) ==> forall|salt_text: Seq<char>| spec_base64_decode(salt_text) == Ok::<Seq<u8>, Base64Fault>(salt@)
            ==> #[trigger] spec_decrypt(t@, passphrase@, salt_text) == Ok::<Seq<u8>, Nip49Error>(plaintext@),
{
    let key = passphrase_key(passphrase, salt);
    let sealed = match chacha20poly1305_encrypt(&key, nonce, plaintext) {
        Ok(c) => c,
        Err(_) => {
            return Err(Nip49Error::EncryptionFailed);
        },
    };
    let mut data = sealed;
    let ghost sealed_view = data@;
    let mut i: usize = 0;
    while i < nonce.len()
        invariant
            i <= nonce@.len(),
            data@ == sealed_view + nonce@.take(i as int),
        decreases nonce@.len() - i,
    {
        data.push(nonce[i]);
        assert(sealed_view + nonce@.take(i as int + 1) =~= (sealed_view + nonce@.take(i as int)).push(nonce@[i as int]));
        i = i + 1;
    }
    assert(nonce@.take(nonce@.len() as int) =~= nonce@);
    let body = base64_encode(&data);
    let mut out: Vec<char> = vec!['#', 'n', 'i', 'p', '4', '9', ':'];
    let body_chars = str_chars(body.as_str());
    push_chars(&mut out, &body_chars);
    let text = string_from_chars(&out);
    proof {
        let t = text@;
        assert(t == nip49_prefix() + body@);
        assert(t.take(PREFIX_LEN as int) =~= nip49_prefix());
        assert(t.skip(PREFIX_LEN as int) =~= body@);
        let split = data@.len() - NONCE_LEN;
        assert(data@.skip(split) =~= nonce@);
        assert(data@.take(split) =~= sealed_view);
        assert forall|salt_text: Seq<char>| spec_base64_decode(salt_text) == Ok::<Seq<u8>, Base64Fault>(salt@)
            implies #[trigger] spec_decrypt(t, passphrase@, salt_text) == Ok::<Seq<u8>, Nip49Error>(plaintext@) by {
        }
    }
    Ok(text)
}

/// Encrypts `plaintext` under `passphrase` with a fresh random salt and nonce.
/// Returns the `#nip49:` text and the Base64 salt; the text decrypts back to
/// the plaintext under the same passphrase and that salt.
pub fn encrypt(plaintext: &[u8], passphrase: &str) -> (res: Result<(String, String), Nip49Error>)
    ensures
        res is Ok <==> chacha_accepts_len(plaintext@.len()),
        res matches Err(e) ==> e == Nip49Error::EncryptionFailed,
        res matches Ok((text, salt_text)) ==> exists|salt: Seq<u8>, nonce: Seq<u8>| {
            &&& salt.len() == SALT_LEN
            &&& nonce.len() == NONCE_LEN
            &&& salt_text@ == spec_base64_encode(salt)
            &&& #[trigger] spec_seal_text(plaintext@, passphrase@, salt, nonce) == Ok::<Seq<char>, Nip49Error>(text@)
            &&& sealed_len_ok(plaintext@, passphrase@, salt, nonce)
        },
        res matches Ok((text, salt_text)) ==> {
            &&& salt_text@.len() == base64_len(SALT_LEN as nat)
            &&& text@.len() == PREFIX_LEN + base64_len((plaintext@.len() + 16 + NONCE_LEN) as nat)
        },
        res matches Ok((text, salt_text)) ==> spec_decrypt(text@, passphrase@, salt_text@) == Ok::<Seq<u8>, Nip49Error>(plaintext@),
{
    let salt = os_random_bytes(SALT_LEN);
    let salt_text = base64_encode(&salt);
    let nonce = os_random_bytes(NONCE_LEN);
    match encrypt_with_salt_and_nonce(plaintext, passphrase, &salt, &nonce) {
        Ok(text) => {
            assert(spec_seal_text(plaintext@, passphrase@, salt@, nonce@) == Ok::<Seq<char>, Nip49Error>(text@));
            assert(spec_base64_decode(salt_text@) == Ok::<Seq<u8>, Base64Fault>(salt@));
            assert(spec_decrypt(text@, passphrase@, salt_text@) == Ok::<Seq<u8>, Nip49Error>(plaintext@));
            Ok((text, salt_text))
        },
        Err(e) => Err(e),
    }
}

/// Encrypts `plaintext` under `passphrase` with the salt already stored beside
/// another secret (Base64 `salt_text`) and a fresh random nonce.
pub fn encrypt_with_salt(plaintext: &[u8], passphrase: &str, salt_text: &str) -> (res: Result<String, Nip49Error>)
    ensures
        res is Ok <==> (spec_base64_decode(salt_text@) is Ok && chacha_accepts_len(plaintext@.len())),
        res matches Err(e) ==> match spec_base64_decode(salt_text@) {
            Err(f) => e == Nip49Error::Base64Decode(f),
            Ok(_) => e == Nip49Error::EncryptionFailed,
        },
        res matches Ok(text) ==> exists|nonce: Seq<u8>| {
            &&& nonce.len() == NONCE_LEN
            &&& #[trigger] spec_seal_text(plaintext@, passphrase@, spec_base64_decode(salt_text@)->Ok_0, nonce) == Ok::<Seq<char>, Nip49Error>(text@)
            &&& sealed_len_ok(plaintext@, passphrase@, spec_base64_decode(salt_text@)->Ok_0, nonce)
        },
        res matches Ok(text) ==> text@.len() == PREFIX_LEN + base64_len((plaintext@.len() + 16 + NONCE_LEN) as nat),
        res matches Ok(text) ==> spec_decrypt(text@, passphrase@, salt_text@) == Ok::<Seq<u8>, Nip49Error>(plaintext@),
{
    let salt = match base64_decode(salt_text) {
        Ok(s) => s,
        Err(f) => {
            return Err(Nip49Error::Base64Decode(f));
        },
    };
    let nonce = os_random_bytes(NONCE_LEN);
    match encrypt_with_salt_and_nonce(plaintext, passphrase, &salt, &nonce) {
        Ok(text) => {
            assert(spec_seal_text(plaintext@, passphrase@, salt@, nonce@) == Ok::<Seq<char>, Nip49Error>(text@));
            assert(spec_decrypt(text@, passphrase@, salt_text@) == Ok::<Seq<u8>, Nip49Error>(plaintext@));
            Ok(text)
        },
        Err(e) => Err(e),
    }
}

/// Decrypts a `#nip49:` text with the passphrase and the Base64 salt.
pub fn decrypt(encoded: &str, passphrase: &str, salt_text: &str) -> (res: Result<Vec<u8>, Nip49Error>)
    ensures
        bytes_result(res) == spec_decrypt(encoded@, passphrase@, salt_text@),
{
    let chars = str_chars(encoded);
    let prefix: Vec<char> = vec!['#', 'n', 'i', 'p', '4', '9', ':'];
    if chars.len() < PREFIX_LEN {
        return Err(Nip49Error::InvalidFormat);
    }
    let head = chars_slice(&chars, 0, PREFIX_LEN);
    if !chars_eq(&head, &prefix) {
        return Err(Nip49Error::InvalidFormat);
    }
    assert(head@ == encoded@.take(PREFIX_LEN as int));
    let salt = match base64_decode(salt_text) {
        Ok(s) => s,
        Err(f) => {
            return Err(Nip49Error::Base64Decode(f));
        },
    };
    let key = passphrase_key(passphrase, &salt);
    let rest = chars_slice(&chars, PREFIX_LEN, chars.len());
    let body = string_from_chars(&rest);
    assert(body@ == encoded@.skip(PREFIX_LEN as int));
    let data = match base64_decode(body.as_str()) {
        Ok(d) => d,
        Err(f) => {
            return Err(Nip49Error::Base64Decode(f));
        },
    };
    if data.len() < NONCE_LEN {
        return Err(Nip49Error::InvalidPayload);
    }
    let split = data.len() - NONCE_LEN;
    let sealed = bytes_slice(&data, 0, split);
    let nonce = bytes_slice(&data, split, data.len());
    assert(sealed@ == data@.take(split as int));
    assert(nonce@ == data@.skip(split as int));
    match chacha20poly1305_decrypt(&key, &nonce, &sealed) {
        Ok(p) => Ok(p),
        Err(_) => Err(Nip49Error::DecryptionFailed),
    }
}

/// A copy of the bytes `from..to` of `v`.
pub fn bytes_slice(v: &[u8], from: usize, to: usize) -> (r: Vec<u8>)
    requires
        from <= to <= v@.len(),
    ensures
        r@ == v@.subrange(from as int, to as int),
{
    let mut r: Vec<u8> = Vec::new();
    let mut i: usize = from;
    while i < to
        invariant
            from <= i <= to,
            to <= v@.len(),
            r@ == v@.subrange(from as int, i as int),
        decreases to - i,
    {
        r.push(v[i]);
        assert(v@.subrange(from as int, i as int + 1) =~= v@.subrange(from as int, i as int).push(v@[i as int]));
        i = i + 1;
    }
    r
}

} // verus!
