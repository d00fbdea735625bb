//! SecPass: a local password vault with an encrypted, versioned file format,
//! TOTP support and a password generator.
pub mod clock;
pub mod crypto;
pub mod text;
pub mod totp;
pub mod password_gen;
pub mod vault;
pub mod session;
