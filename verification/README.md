# secpass

A local password vault: entries are kept in a file encrypted with
AES-256-GCM under a key that Argon2id derives from the master password. The
vault also holds TOTP secrets and comes with a password generator.

## Layout

- `src/` is the library, written in Verus and verified:
  - `crypto.rs`: KDF parameters, the versioned binary format of an encrypted
    blob (and the legacy one it still reads), Base64 framing, encryption and
    decryption.
  - `totp.rs`: normalizing raw Base32 secrets and `otpauth://` URIs, percent
    decoding, code generation and the 30-second window.
  - `password_gen.rs`: random passwords over the enabled character classes.
  - `vault.rs`: entries, search, entry operations, the vault file format and
    the master-password policy.
  - `session.rs`: the checks the desktop front end makes on its input, and
    its auto-lock and clipboard timers.
  - `text.rs`: character-level helpers shared by the modules above.
  - `clock.rs`: the system clock, read through small trusted wrappers.
- `tests/` runs the library on concrete values.
- `app/` is the desktop program: the egui front end, JSON serialization of
  the vault data, and the file system (atomic private writes).

Calls into outside crates (argon2, aes-gcm, base64, rand, rand_chacha,
totp-rs, uuid, zeroize) and std's clock go through small trusted wrappers whose contracts are
stated next to them in `src/`.

## Secrets in memory

Verus does not verify `Drop` impls, so the library cannot wipe secrets
automatically when they are dropped (the way `secrecy::SecretString` or a
zeroizing `Drop` impl would). It wipes them explicitly instead, with
`zeroize`, in verified code:

- the derived key, as soon as encryption or decryption has used it;
- the old master password, when `Vault::set_password` replaces it;
- the secrets (password, notes, TOTP secret) of an entry that
  `Vault::update_entry` replaces or `Vault::delete_entry` removes;
- the master password and every entry's secrets on `Vault::lock`, which the
  desktop program calls before it drops an unlocked vault;
- an entry's secrets on `Entry::wipe_secrets`, which the desktop program
  calls before it discards the entry being edited.

A secret that is dropped any other way (for example a vault or an entry
dropped without these calls) is not wiped. The record types in `app/` that
carry the serde derives keep a zeroizing `Drop` and a `Debug` that redacts
the password, notes and TOTP secret.
