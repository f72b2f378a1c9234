# seqr

End-to-end encrypted messaging between friends: a desktop core (accounts in an
encrypted vault, friend tokens, 1:1 and group conversations, sealed and signed frames,
chunked encrypted attachments) and a store-and-forward mailbox service that parks
ciphertext for offline recipients.

- `src/` is the verified library. `crypto/` states the primitives (ChaCha20-Poly1305,
  X25519, HKDF-SHA256, Argon2id, Ed25519, SHA-256) through a small set of trusted
  wrappers in `crypto/primitives.rs`; everything built on them is proved.
  `protocol/` holds the wire types and their signing bytes, `mailbox/` the service's
  admission decisions and its on-disk naming, `desktop/` the client core, `matrix/`
  the bridge's plain-data logic.
- `app/` is the mailbox service binary (axum, tokio) and the file and network plumbing
  of the desktop core (vault file, attachment files, mailbox HTTP client), with the
  serde copies of the library's types.
- `tests/` exercises the library from outside.

The desktop shell (Tauri), the peer-to-peer transport (iroh) and the Matrix client
(matrix-sdk) are not part of this crate: together they exceed what the build here can
fetch, so the command, transport and sync plumbing that wraps them is absent. What
those layers decide (the commands' effects on the vault, what an incoming message,
invitation, key update or attachment header and chunk does, which timeline events
become history) is in `src/`. Friend requests are not carried: their packet and signing
bytes were never defined.
