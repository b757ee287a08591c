//! Record protection and key derivation.

pub mod aead;
pub mod cipher;
pub mod hkdf;
pub mod key_schedule;
pub mod suites;
pub mod tls13;
