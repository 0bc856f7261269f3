//! Threshold proxy re-encryption over the BLS12-381 pairing.
//!
//! Key makers each hold a secret scalar; their shares of the encryption key add up in Gt.
//! For a recipient they make key slivers along shared values derived from a label; an
//! author sums the slivers into key fragments; proxies pair a capsule with a fragment; the
//! recipient interpolates any threshold of the capsule fragments back to the symmetric key.
pub mod author;
pub mod encryptor;
pub mod error;
pub mod field;
pub mod group;
pub mod keymaker;
pub mod params;
pub mod proxy;
pub mod recipient;

pub use author::{generate_kfrags, KeyFrag};
pub use encryptor::{encrypt, encrypt_with, Capsule, SymmetricKey};
pub use error::TpreError;
pub use field::Fr;
pub use keymaker::{EncryptionKey, KeyMaker, KeySliver};
pub use params::Params;
pub use proxy::{reencrypt, CapsuleFrag};
pub use recipient::{decrypt, RecipientPublicKey, RecipientSecretKey};
