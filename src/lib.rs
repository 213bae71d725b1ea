//! A file-backed store of named credentials, each kept with its secret
//! encrypted under a passphrase.

pub mod cipher;
pub mod error;
pub mod json;
pub mod record;
pub mod repo;
