# smn-crypto-core

The cryptographic core of a mesh VPN node, written in Rust and verified with Verus.

- `src/engine.rs`: the engine and its operations
- `src/store.rs`: what an engine keeps
- `src/replay.rs`, `src/sessions.rs`: replay windows, and the cache of the sessions they belong to
- `src/packet.rs`: the packet format, encryption and decryption
- `src/key_update.rs`: identities, and the key updates that they sign
- `src/handshake.rs`: session keys
- `src/bytes.rs`: byte strings and big-endian integers
- `src/history.rs`: histories of operations, and the handles they give out
- `src/laws.rs`: what holds across several operations
- `src/primitives.rs`: the cryptographic primitives, whose contracts are trusted
- `app/`: the engine behind a lock, for use from several threads

A packet is an eight-byte big-endian counter, a nonce of 24 bytes, and the
XChaCha20-Poly1305 ciphertext with its tag. The counter is authenticated with the
caller's associated data. A session lets each counter in once, as long as it is
less than 2048 below the highest counter that arrived; the sessions used last,
10000 of them, are remembered.
