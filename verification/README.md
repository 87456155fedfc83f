# vcbc

A small blockchain whose blocks carry Merkle-Patricia tries, written in
Verus: the library's logic is executable Rust with `requires` / `ensures`
contracts that Verus proves.

## Layout

- `src/mpt/` — the Merkle-Patricia trie. Its view is a map from keys to
  values; insertion, removal, lookup and the sorted listing are proved
  against that map, and the root hash is the SHA-256 digest of the root
  node's JSON text.
- `src/blockchain/` — blocks, proof-of-work mining, and the chain: a new
  chain is valid, adding a mined block keeps it valid, and validation
  checks exactly the hash, proof of work and linkage of every block.
- `src/proofs/` — Merkle proofs of a key's value in a block, their
  verification and the detection of tampered proofs.
- `src/config/` — node configuration, network authorities and bootnode
  certificates; a certificate signed with an authority's key passes the
  check against that authority.
- `src/network/` — peer identities, the handshake that keeps networks
  apart, the set of connected peers and the handling of protocol messages.
- `src/storage/`, `src/cli/` — the checks made when a chain is saved or
  loaded, and the command front end.
- `src/digest.rs`, `src/crypto.rs`, `src/clock.rs`, `src/text.rs` — the
  calls into sha2, hex, base64, ed25519-dalek, rand, uuid and chrono, each
  behind a small trusted function whose contract names what it returns.
- `app/` — the program: argument parsing, files, SQLite, JSON, the HTTP and
  peer-to-peer plumbing, all of which hand plain values to the library.
- `tests/` — tests of the library on concrete values.
