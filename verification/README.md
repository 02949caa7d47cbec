# nau

A Nostr client for sharing short statuses, with its rules proved by Verus.

- `src/` is the verified library: passphrase sealing of the secret key
  (NIP-49 text format), account registration and unlocking, the post length
  rule and custom-emoji tags, how notes and statuses are shown, the timeline
  order, custom-emoji discovery from relay messages, NIP-65 relay lists,
  zap requests and zap receipts (NIP-57), cache freshness and the names of
  the old cache files. Calls into outside crates (`nostr`, `base64`,
  `chacha20poly1305`, `pbkdf2`, `sha2`, `urlencoding`, `lightning-invoice`,
  `regex-syntax`, `rand`, `chrono`) sit behind small trusted wrappers whose
  contracts say what the library relies on.
- Custom emojis are kept in `EmojiMap`, a list with distinct shortcodes
  whose contents are a `Map`: vstd's `HashMap` specifications hold only for
  key types known to obey its key model (integers, `bool` and boxes of
  them), and `String` is not one, so a map whose behaviour is proved here
  stands in for the `HashMap<String, String>` a client would otherwise use.
- `app/` is the command-line program around it: configuration file, LMDB
  cache, relay connections, LNURL requests and the wallet connection.
- `tests/` exercises the library on concrete values.
