# plaza_security

The security subsystem of PlazaVM as a Verus-verified library.

- `src/rbac.rs` — roles, principals and permission checks; built-in `admin`,
  `operator` and `viewer` roles.
- `src/audit.rs` — append-only audit log with bounded retention and
  newest-first queries.
- `src/encryption.rs` — SHA-256 key stretching, hexadecimal hashing and a
  keystream cipher that is its own inverse.
- `src/sandbox.rs` — default-deny capability profiles with enforcement modes.
- `src/iam.rs` — identities with unique usernames, and service accounts.
- `src/network_policy.rs` — priority-ordered traffic rules.
- `src/tpm.rs` — PCR measurements and attestation reports.
- `src/store.rs` — the text-keyed map the engines keep their state in.
- `src/trusted.rs` — the calls into `sha2`, `uuid` and `chrono`, with the
  contracts the proofs rely on.

The engines are plain values with `&mut self` operations. `app/` shares them
between tasks behind `tokio` read-write locks, fills in the platform name for
attestation reports, and provides `serde` forms of the data types.
