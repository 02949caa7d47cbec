use nau::account::{attach_nwc, register, unlock, AccountError};
use nau::nip49::{decrypt, encrypt, encrypt_with_salt, encrypt_with_salt_and_nonce, Base64Fault, Nip49Error};
use nau::types::Config;

use base64::Engine;
use chacha20poly1305::aead::{Aead, KeyInit};

const SECRET_HEX: &str = "6b911fd37cdf5c81d4c0adb1ab7fa822ed253ab0ad9aa18d77257c88b29b718e";
const NWC_URI: &str = "nostr+walletconnect://b889ff5b1513b641e2a139f661a661364979c5beee91842f8f0ef42ab558e9d4?relay=wss%3A%2F%2Frelay.damus.io&secret=71a8c14c1407c113601079c4302dab36460f0ccd0ad506f1f2dc73b5100e4f3c";

#[test]
fn encrypt_then_decrypt_gives_back_plaintext() {
    let plaintext = b"a very secret key";
    let (text, salt) = encrypt(plaintext, "pass phrase").unwrap();
    assert!(text.starts_with("#nip49:"));
    assert_eq!(base64::engine::general_purpose::STANDARD.decode(&salt).unwrap().len(), 16);
    assert_eq!(decrypt(&text, "pass phrase", &salt).unwrap(), plaintext.to_vec());
}

#[test]
fn decrypt_with_wrong_passphrase_fails() {
    let (text, salt) = encrypt(b"data", "right").unwrap();
    assert_eq!(decrypt(&text, "wrong", &salt), Err(Nip49Error::DecryptionFailed));
}

#[test]
fn decrypt_refuses_missing_prefix() {
    assert_eq!(decrypt("nip49:AAAA", "p", "AAAAAAAAAAAAAAAAAAAAAA=="), Err(Nip49Error::InvalidFormat));
    assert_eq!(decrypt("", "p", "AAAA"), Err(Nip49Error::InvalidFormat));
}

#[test]
fn decrypt_refuses_bad_base64() {
    assert!(matches!(decrypt("#nip49:AAAA", "p", "not base64!"), Err(Nip49Error::Base64Decode(_))));
    assert_eq!(
        decrypt("#nip49:@@@@", "p", "AAAAAAAAAAAAAAAAAAAAAA=="),
        Err(Nip49Error::Base64Decode(Base64Fault::InvalidByte { offset: 0, byte: b'@' }))
    );
}

#[test]
fn decrypt_refuses_short_payload() {
    let short = base64::engine::general_purpose::STANDARD.encode([1u8, 2, 3, 4, 5]);
    let text = format!("#nip49:{}", short);
    assert_eq!(decrypt(&text, "p", "AAAAAAAAAAAAAAAAAAAAAA=="), Err(Nip49Error::InvalidPayload));
}

#[test]
fn encrypt_with_salt_keeps_the_salt() {
    let (_, salt) = encrypt(b"first", "pw").unwrap();
    let second = encrypt_with_salt(b"second secret", "pw", &salt).unwrap();
    assert_eq!(decrypt(&second, "pw", &salt).unwrap(), b"second secret".to_vec());
}

#[test]
fn encrypt_with_salt_refuses_bad_salt() {
    assert!(matches!(encrypt_with_salt(b"x", "pw", "%%%"), Err(Nip49Error::Base64Decode(_))));
}

#[test]
fn sealed_text_matches_the_cipher() {
    let salt = [7u8; 16];
    let nonce = [9u8; 12];
    let text = encrypt_with_salt_and_nonce(b"hello", "pw", &salt, &nonce).unwrap();
    let mut key = [0u8; 32];
    pbkdf2::pbkdf2_hmac::<sha2::Sha256>(b"pw", &salt, 100_000, &mut key);
    let cipher = chacha20poly1305::ChaCha20Poly1305::new(chacha20poly1305::Key::from_slice(&key));
    let mut expected = cipher.encrypt(chacha20poly1305::Nonce::from_slice(&nonce), &b"hello"[..]).unwrap();
    expected.extend_from_slice(&nonce);
    let expected_text = format!("#nip49:{}", base64::engine::general_purpose::STANDARD.encode(&expected));
    assert_eq!(text, expected_text);
    let salt_text = base64::engine::general_purpose::STANDARD.encode(salt);
    assert_eq!(decrypt(&text, "pw", &salt_text).unwrap(), b"hello".to_vec());
}

#[test]
fn error_messages() {
    assert_eq!(Nip49Error::InvalidFormat.message(), "Invalid NIP-49 format");
    assert_eq!(Nip49Error::DecryptionFailed.message(), "Incorrect passphrase or corrupted data");
    assert_eq!(Nip49Error::InvalidPayload.message(), "Invalid NIP-49 payload");
    assert_eq!(Nip49Error::EncryptionFailed.message(), "NIP-49 encryption error: Error");
    assert_eq!(
        Nip49Error::Base64Decode(Base64Fault::InvalidLength { length: 5 }).message(),
        "Invalid input length: 5"
    );
    assert_eq!(Base64Fault::InvalidPadding.message(), "Invalid padding");
}

#[test]
fn base64_errors_read_as_the_decoder_writes_them() {
    for text in ["not base64!", "%%%", "A", "AB=C", "AB==AB==", "AAB=", "@@@@"] {
        let expected = base64::engine::general_purpose::STANDARD.decode(text).unwrap_err().to_string();
        match decrypt("#nip49:AAAA", "p", text) {
            Err(e @ Nip49Error::Base64Decode(_)) => assert_eq!(e.message(), expected),
            other => panic!("unexpected result for {:?}: {:?}", text, other),
        }
    }
    let debug_of_aead_error = format!("NIP-49 encryption error: {:?}", chacha20poly1305::Error);
    assert_eq!(Nip49Error::EncryptionFailed.message(), debug_of_aead_error);
}

#[test]
fn register_then_unlock_gives_back_the_key() {
    let config = register(SECRET_HEX, "pw", "pw").unwrap();
    assert!(config.encrypted_nwc_uri.is_none());
    let unlocked = unlock(&config, "pw").unwrap();
    assert_eq!(unlocked.secret_key_hex, SECRET_HEX);
    assert!(unlocked.nwc_uri.is_none());
}

#[test]
fn register_accepts_nsec() {
    let keys = nostr::Keys::parse(SECRET_HEX).unwrap();
    let nsec = nostr::nips::nip19::ToBech32::to_bech32(keys.secret_key()).unwrap();
    let config = register(&nsec, "pw", "pw").unwrap();
    assert_eq!(unlock(&config, "pw").unwrap().secret_key_hex, SECRET_HEX);
}

#[test]
fn register_refuses_mismatched_passphrases() {
    assert_eq!(register(SECRET_HEX, "a", "b").err(), Some(AccountError::PassphraseMismatch));
}

#[test]
fn register_refuses_bad_key() {
    assert_eq!(register("not a key", "a", "a").err(), Some(AccountError::InvalidSecretKey));
}

#[test]
fn unlock_with_wrong_passphrase_fails() {
    let config = register(SECRET_HEX, "pw", "pw").unwrap();
    assert_eq!(unlock(&config, "other").err(), Some(AccountError::Crypto(Nip49Error::DecryptionFailed)));
}

#[test]
fn attach_nwc_then_unlock_gives_back_the_uri() {
    let config = register(SECRET_HEX, "pw", "pw").unwrap();
    let with_wallet = attach_nwc(&config, NWC_URI, "pw").unwrap();
    assert_eq!(with_wallet.encrypted_secret_key, config.encrypted_secret_key);
    assert_eq!(with_wallet.salt, config.salt);
    let unlocked = unlock(&with_wallet, "pw").unwrap();
    assert_eq!(unlocked.secret_key_hex, SECRET_HEX);
    assert_eq!(unlocked.nwc_uri.as_deref(), Some(NWC_URI));
}

#[test]
fn attach_nwc_errors() {
    let config = register(SECRET_HEX, "pw", "pw").unwrap();
    assert_eq!(attach_nwc(&config, NWC_URI, "").err(), Some(AccountError::EmptyPassphrase));
    assert_eq!(attach_nwc(&config, "https://example.com", "pw").err(), Some(AccountError::InvalidNwcUri));
    assert_eq!(attach_nwc(&config, NWC_URI, "bad").err(), Some(AccountError::Crypto(Nip49Error::DecryptionFailed)));
}

#[test]
fn unlock_refuses_bad_config() {
    let config = Config { encrypted_secret_key: "plain".to_string(), salt: "AAAA".to_string(), encrypted_nwc_uri: None };
    assert_eq!(unlock(&config, "pw").err(), Some(AccountError::Crypto(Nip49Error::InvalidFormat)));
}

#[test]
fn unlock_refuses_non_key_plaintext() {
    let (text, salt) = encrypt(b"short", "pw").unwrap();
    let config = Config { encrypted_secret_key: text, salt, encrypted_nwc_uri: None };
    assert_eq!(unlock(&config, "pw").err(), Some(AccountError::InvalidSecretKey));
}

#[test]
fn sealed_text_has_the_documented_shape() {
    for n in [0usize, 1, 32, 100] {
        let plaintext = vec![7u8; n];
        let (text, salt) = encrypt(&plaintext, "pw").unwrap();
        assert_eq!(salt.len(), 24);
        assert!(text.starts_with("#nip49:"));
        let body_bytes = n + 16 + 12;
        assert_eq!(text.len(), 7 + 4 * ((body_bytes + 2) / 3));
    }
}
