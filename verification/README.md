# kitsune

Domain rules of Kitsune, a capture-the-flag and workshop platform, written in
Verus. Every executable function in `src/` carries a contract; Verus proves
each of them except the small trusted wrappers around outside crates, whose
contracts are believed and documented beside each one.

- `src/` — the verified library: identities, authorization, events,
  challenges and answer checking, scoring and the scoreboard, instance
  lifecycles, the four game modes (`modes/`), SMTP notification policy, and
  the rules the persistence layer applies around its queries (`records/`).
  Calls into `sha2`, `hmac`, `subtle`, `base64`, `regex`, `uuid` and
  `lettre` (mailbox parsing) stand behind trusted wrappers in `digest.rs`,
  `encoding.rs`, `pattern.rs`, `identity.rs` and `smtp.rs`, each documented
  with what it claims; `text.rs` holds the std lowercasing wrapper.
- `tests/` — executable tests of the library.
- `app/` — unverified adapters: displayable errors, JSON game-mode
  registration, asynchronous infrastructure ports, and SMTP delivery through
  `lettre`.

The PostgreSQL persistence layer itself (queries and transactions through
`sqlx`) is not part of this crate, neither in `src/` nor in `app/`: only the
decisions it makes around its queries are, in `src/records/`.

Instants are microseconds since the Unix epoch; identifiers are the 128 bits
of their UUIDs.
