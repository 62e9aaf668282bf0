# insub

A peer-to-peer messenger core whose logic is verified with Verus.

- `src/` is the verified library: packet, payload, message and record
  formats; identities, device certificates and signed device lists; the
  keychain; X25519 key agreement, HKDF, the double ratchet and Noise-IK
  sessions; the Kademlia routing table, DHT node and iterative lookups;
  fragmentation, acknowledgements, retransmission and duplicate filtering;
  relay registries and frame routing; and the session table that handshake
  and message packets are dispatched to. Calls into outside crates (snow,
  ed25519-dalek, x25519-dalek, chacha20poly1305, hkdf, sha2, argon2, bip39,
  hex, rand) sit behind small trusted wrappers whose contracts are stated in
  their doc comments.
- `app/` is the program around it: sockets, threads, files and the command
  line. It hands packets and times to the library and does what it answers.
- `tests/` runs the library against concrete values and against the outside
  crates themselves.
