# silent

The contact book and message encryption of a small peer-to-peer messenger,
verified with Verus.

- `src/user.rs`: the user and the contacts; search, add, remove, and the merge
  of the contacts kept in the user file, with the laws that these keep.
- `src/store.rs`: the user file's line format (`@:name:uuid:ip` for a contact,
  `$:name:uuid:ip` for the user), read and written, and the permission check.
- `src/command.rs`: the commands typed at the prompt.
- `src/text.rs`, `src/address.rs`, `src/ident.rs`: characters, IPv4 addresses
  and UUIDs as the file holds them.
- `src/crypto.rs`, `src/message.rs`: X25519 key agreement and
  ChaCha20-Poly1305 sealing of a message, through `ring`.
- `app/`: the program: the prompt, the file and the network interface.
