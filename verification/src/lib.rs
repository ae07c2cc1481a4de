//! Passphrase-keyed, reversible text obfuscation.
//!
//! A message is turned into a transportable ciphertext and back with a
//! passphrase as the only secret. Every byte is doubled with its complement
//! to a 16-bit unit whose bits are moved by a permutation drawn from a
//! seekable keystream; an envelope carries a marker, the encrypted starting
//! position of the keystream and the encrypted message.
//!
//! This is obfuscation with a check against damage and wrong keys, not
//! authenticated encryption: the complement check is no MAC, and a wrong key
//! is noticed with overwhelming likelihood, not with certainty.
//!
//! Every function is stateless: what it returns depends on its arguments
//! alone, but for `encrypt`, which asks the operating system for a random
//! starting position.

pub mod bits;
pub mod cipher;
pub mod encoding;
pub mod error;
pub mod frame;
pub mod keystream;
pub mod permutation;
pub mod unit;

pub use cipher::{decrypt_raw, encrypt_raw, random_indicies, shuffle_bits, unshuffle_bits};
pub use error::{failure_report, DecryptError, ErrorKind};
pub use frame::{
    decode_from_base64, decrypt_base64, decrypt_envelope, encode_base64, encrypt, encrypt_base64,
    encrypt_with,
};
pub use keystream::{derive_seed, Keystream};
pub use permutation::PermutationTable;
pub use unit::{decode_unit, encode_unit};
