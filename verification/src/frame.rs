//! The envelope: a marker, the encrypted starting position of the keystream,
//! and the encrypted message, carried as base64 text.
//!
//! | field              | bytes   | content                                           |
//! |--------------------|---------|---------------------------------------------------|
//! | marker             | 6       | `RCrypt`                                          |
//! | encrypted position | 32      | the 16 big-endian bytes of the position, at 0     |
//! | encrypted message  | 2 × n   | the n bytes of the message, at the position       |

use crate::cipher::{
    bytes_outcome, decrypt_raw, encrypt_raw, key_seed, lemma_raw_bit_flip_is_corrupt,
    lemma_raw_round_trip, raw_decrypted, raw_encrypted,
};
use crate::encoding::{
    base64_decode, base64_decoded, base64_encode, base64_encoded, be_bytes, be_value,
    lemma_be_round_trip, lemma_be_value_fits, position_from_bytes, position_to_bytes,
    string_from_utf8, MAX_TRANSPORT_BYTES,
};
use crate::error::{DecryptError, ErrorKind};
use rand::rngs::OsRng;
use rand::RngCore;
use vstd::prelude::*;
use vstd::array::array_as_slice;
use vstd::slice::slice_subrange;
use vstd::string::StringSliceAdditionalSpecFns;
use vstd::utf8::{decode_utf8, encode_utf8, valid_utf8};

verus! {

/// The marker that every envelope starts with: `RCrypt`.
pub const MAGIC: [u8; 6] = [82, 67, 114, 121, 112, 116];

/// Number of bytes of the marker.
pub const MAGIC_LEN: usize = 6;

/// Number of bytes of the encrypted position: twice the sixteen of the
/// position.
pub const OFFSET_LEN: usize = 32;

/// Number of bytes before the encrypted message.
pub const HEADER_LEN: usize = 38;

/// The marker as a byte string.
pub open spec fn marker() -> Seq<u8> {
    seq![82u8, 67u8, 114u8, 121u8, 112u8, 116u8]
}

/// The envelope of a message that is encrypted from `offset`.
pub open spec fn envelope(seed: Seq<u8>, offset: u128, message: Seq<u8>) -> Seq<u8> {
    marker() + raw_encrypted(seed, 0, be_bytes(offset)) + raw_encrypted(seed, offset, message)
}

/// The message bytes that an envelope holds: too short below 38 bytes, no
/// magic where the marker is not in front, and then whatever decrypting first
/// the position, at 0, and then the message, at that position, runs into.
pub open spec fn opened(seed: Seq<u8>, sealed: Seq<u8>) -> Result<Seq<u8>, ErrorKind> {
    if sealed.len() < 38 {
        Err(ErrorKind::TooShort)
    } else if sealed.subrange(0, 6) != marker() {
        Err(ErrorKind::NoMagic)
    } else {
        match raw_decrypted(seed, 0, sealed.subrange(6, 38)) {
            Err(kind) => Err(kind),
            Ok(position) => raw_decrypted(
                seed,
                be_value(position) as u128,
                sealed.subrange(38, sealed.len() as int),
            ),
        }
    }
}

/// The text that message bytes encode, if they are UTF-8.
pub open spec fn text_of(bytes: Seq<u8>) -> Result<Seq<char>, ErrorKind> {
    if valid_utf8(bytes) {
        Ok(decode_utf8(bytes))
    } else {
        Err(ErrorKind::InvalidUTF8)
    }
}

/// The message that an envelope holds under a key.
pub open spec fn opened_text(key: Seq<char>, sealed: Seq<u8>) -> Result<Seq<char>, ErrorKind> {
    match opened(key_seed(key), sealed) {
        Err(kind) => Err(kind),
        Ok(bytes) => text_of(bytes),
    }
}

/// The ciphertext of a message that is encrypted under a key from `offset`.
pub open spec fn ciphertext(key: Seq<char>, offset: u128, message: Seq<char>) -> Seq<char> {
    base64_encoded(envelope(key_seed(key), offset, encode_utf8(message)))
}

/// What a ciphertext decrypts to under a key.
pub open spec fn decrypted(key: Seq<char>, text: Seq<char>) -> Result<Seq<char>, ErrorKind> {
    match base64_decoded(text) {
        None => Err(ErrorKind::InvalidEncoding),
        Some(sealed) => opened_text(key, sealed),
    }
}

/// The ciphertext of a message in the bare format: no marker, no position,
/// the keystream at 0.
pub open spec fn bare_ciphertext(key: Seq<char>, message: Seq<char>) -> Seq<char> {
    base64_encoded(raw_encrypted(key_seed(key), 0, encode_utf8(message)))
}

/// What a ciphertext in the bare format decrypts to under a key.
pub open spec fn bare_decrypted(key: Seq<char>, text: Seq<char>) -> Result<Seq<char>, ErrorKind> {
    match base64_decoded(text) {
        None => Err(ErrorKind::InvalidEncoding),
        Some(raw) => match raw_decrypted(key_seed(key), 0, raw) {
            Err(kind) => Err(kind),
            Ok(bytes) => text_of(bytes),
        },
    }
}

/// Whether a text, or a failure, is what was expected.
pub open spec fn text_outcome(
    res: Result<String, DecryptError>,
    expected: Result<Seq<char>, ErrorKind>,
) -> bool {
    match expected {
        Ok(text) => res matches Ok(s) && s@ == text,
        Err(kind) => res matches Err(e) && e.spec_kind() == kind,
    }
}

/// An envelope opens, with the seed it was made with, to the message it was
/// made of.
pub proof fn lemma_envelope_round_trip(seed: Seq<u8>, offset: u128, message: Seq<u8>)
    ensures
        opened(seed, envelope(seed, offset, message)) == Ok::<Seq<u8>, ErrorKind>(message),
{
    let sealed = envelope(seed, offset, message);
    assert(sealed.subrange(0, 6) =~= marker());
    assert(sealed.subrange(6, 38) =~= raw_encrypted(seed, 0, be_bytes(offset)));
    assert(sealed.subrange(38, sealed.len() as int) =~= raw_encrypted(seed, offset, message));
    lemma_raw_round_trip(seed, 0, be_bytes(offset));
    lemma_be_round_trip(offset);
    lemma_raw_round_trip(seed, offset, message);
}

/// An envelope with any single bit of its encrypted message flipped is
/// rejected as corrupt.
pub proof fn lemma_envelope_bit_flip_is_corrupt(
    seed: Seq<u8>,
    offset: u128,
    message: Seq<u8>,
    i: int,
    b: u8,
)
    requires
        38 <= i < envelope(seed, offset, message).len(),
        b < 8,
    ensures
        opened(
            seed,
            envelope(seed, offset, message).update(
                i,
                envelope(seed, offset, message)[i] ^ (1u8 << b),
            ),
        ) == Err::<Seq<u8>, ErrorKind>(ErrorKind::Corrupt),
{
    let sealed = envelope(seed, offset, message);
    let altered = sealed.update(i, sealed[i] ^ (1u8 << b));
    let payload = raw_encrypted(seed, offset, message);
    assert(altered.subrange(0, 6) =~= marker());
    assert(altered.subrange(6, 38) =~= raw_encrypted(seed, 0, be_bytes(offset)));
    assert(sealed[i] == payload[i - 38]);
    assert(altered.subrange(38, altered.len() as int) =~= payload.update(
        i - 38,
        payload[i - 38] ^ (1u8 << b),
    ));
    lemma_raw_round_trip(seed, 0, be_bytes(offset));
    lemma_be_round_trip(offset);
    lemma_raw_bit_flip_is_corrupt(seed, offset, message, i - 38, b);
}

/// A ciphertext decrypts, under the key it was made with, to the message it
/// was made of, once its base64 text is known to decode to its envelope.
proof fn lemma_round_trip(key: Seq<char>, offset: u128, message: Seq<char>)
    requires
        base64_decoded(ciphertext(key, offset, message)) == Some(
            envelope(key_seed(key), offset, encode_utf8(message)),
        ),
    ensures
        decrypted(key, ciphertext(key, offset, message)) == Ok::<Seq<char>, ErrorKind>(message),
{
    lemma_envelope_round_trip(key_seed(key), offset, encode_utf8(message));
    vstd::utf8::encode_utf8_valid_utf8(message);
    vstd::utf8::encode_utf8_decode_utf8(message);
}

/// The 16 bytes that `OsRng::try_fill_bytes` fills from the random source of
/// the operating system, or nothing where the source fails. Nothing is
/// claimed of the bytes.
#[verifier::external_body]
fn os_random_bytes() -> (res: Option<[u8; 16]>) {
    let mut buffer = [0u8; 16];
    match OsRng.try_fill_bytes(&mut buffer) {
        Ok(()) => Some(buffer),
        Err(_) => None,
    }
}

fn append(target: &mut Vec<u8>, bytes: &[u8])
    ensures
        final(target)@ == old(target)@ + bytes@,
{
    let mut i: usize = 0;
    while i < bytes.len()
        invariant
            i <= bytes@.len(),
            target@ == old(target)@ + bytes@.subrange(0, i as int),
        decreases bytes@.len() - i,
    {
        target.push(bytes[i]);
        assert(target@ =~= old(target)@ + bytes@.subrange(0, (i + 1) as int));
        i = i + 1;
    }
    assert(bytes@.subrange(0, bytes@.len() as int) =~= bytes@);
}

fn has_marker(sealed: &[u8]) -> (found: bool)
    requires
        sealed@.len() >= 6,
    ensures
        found == (sealed@.subrange(0, 6) == marker()),
{
    let mut i: usize = 0;
    while i < MAGIC_LEN
        invariant
            i <= 6,
            sealed@.len() >= 6,
            forall|k: int| 0 <= k < i ==> sealed@[k] == marker()[k],
        decreases 6 - i,
    {
        if sealed[i] != MAGIC[i] {
            assert(sealed@.subrange(0, 6)[i as int] != marker()[i as int]);
            return false;
        }
        i = i + 1;
    }
    assert(sealed@.subrange(0, 6) =~= marker());
    true
}

/// Builds the envelope of a message: the marker, the position encrypted at
/// 0, the message encrypted at the position.
pub fn seal(key: &str, offset: u128, message: &[u8]) -> (sealed: Vec<u8>)
    ensures
        sealed@ == envelope(key_seed(key@), offset, message@),
        sealed@.len() == 38 + 2 * message@.len(),
        opened(key_seed(key@), sealed@) == Ok::<Seq<u8>, ErrorKind>(message@),
{
    let position = position_to_bytes(offset);
    let encrypted_offset = encrypt_raw(key, 0, position.as_slice());
    let encrypted_text = encrypt_raw(key, offset, message);
    let mut all: Vec<u8> = Vec::new();
    append(&mut all, array_as_slice(&MAGIC));
    assert(all@ =~= marker());
    append(&mut all, encrypted_offset.as_slice());
    append(&mut all, encrypted_text.as_slice());
    proof {
        lemma_envelope_round_trip(key_seed(key@), offset, message@);
    }
    all
}

/// Opens an envelope: checks length and marker, decrypts the position at 0,
/// then the message at that position.
pub fn open(key: &str, sealed: &[u8]) -> (res: Result<Vec<u8>, DecryptError>)
    ensures
        bytes_outcome(res, opened(key_seed(key@), sealed@)),
{
    if sealed.len() < HEADER_LEN {
        return Err(DecryptError::TooShort);
    }
    if !has_marker(sealed) {
        return Err(DecryptError::NoMagic);
    }
    let offset_data = slice_subrange(sealed, MAGIC_LEN, MAGIC_LEN + OFFSET_LEN);
    let position = match decrypt_raw(key, 0, offset_data) {
        Ok(position) => position,
        Err(e) => {
            return Err(e);
        },
    };
    proof {
        lemma_be_value_fits(position@);
    }
    let offset = position_from_bytes(position.as_slice());
    let message_data = slice_subrange(sealed, HEADER_LEN, sealed.len());
    decrypt_raw(key, offset, message_data)
}

/// Opens an envelope and reads the message in it as text.
pub fn decrypt_envelope(key: &str, sealed: &[u8]) -> (res: Result<String, DecryptError>)
    ensures
        text_outcome(res, opened_text(key@, sealed@)),
{
    match open(key, sealed) {
        Ok(bytes) => match string_from_utf8(bytes) {
            Ok(text) => Ok(text),
            Err(e) => Err(DecryptError::InvalidUTF8(e)),
        },
        Err(e) => Err(e),
    }
}

/// Encrypts a message under a key from a chosen starting position, and
/// renders the envelope as base64 text. The same three arguments always give
/// the same text, and the text decrypts under the key to the message.
pub fn encrypt_base64(key: &str, offset: u128, message: &str) -> (text: String)
    requires
        38 + 2 * message.spec_bytes().len() <= MAX_TRANSPORT_BYTES,
    ensures
        text@ == ciphertext(key@, offset, message@),
        decrypted(key@, text@) == Ok::<Seq<char>, ErrorKind>(message@),
{
    let all = seal(key, offset, message.as_bytes());
    let text = base64_encode(all.as_slice());
    proof {
        lemma_round_trip(key@, offset, message@);
    }
    text
}

/// Decrypts a ciphertext under a key: decodes the base64 text, opens the
/// envelope and reads the message as text. A text that was made under
/// another key, or altered, is corrupt or not UTF-8, or by chance another
/// message.
pub fn decrypt_base64(key: &str, message: &str) -> (res: Result<String, DecryptError>)
    requires
        message.spec_bytes().len() <= MAX_TRANSPORT_BYTES,
    ensures
        text_outcome(res, decrypted(key@, message@)),
{
    match base64_decode(message) {
        Ok(bytes) => decrypt_envelope(key, bytes.as_slice()),
        Err(e) => Err(DecryptError::Base64Decode(e)),
    }
}

/// Encrypts a message under a key from a starting position that the random
/// source of the operating system picks, uniformly among all 128-bit values,
/// so that two encryptions under one key hardly ever use the same part of
/// the keystream. A narrow range of positions, a few dozen values, would
/// repeat them often and show which messages are equal; it is not offered.
/// Callers that bring a position of their own use `encrypt_base64`.
///
/// There is no text where the random source fails.
pub fn encrypt(key: &str, message: &str) -> (res: Option<String>)
    requires
        38 + 2 * message.spec_bytes().len() <= MAX_TRANSPORT_BYTES,
    ensures
        res matches Some(text) ==> {
            &&& exists|offset: u128| text@ == #[trigger] ciphertext(key@, offset, message@)
            &&& decrypted(key@, text@) == Ok::<Seq<char>, ErrorKind>(message@)
        },
{
    encrypt_with(key, message, os_random_bytes())
}

/// Encrypts a message under a key from the starting position that sixteen
/// random bytes spell, most significant byte first. This is what `encrypt`
/// does with what the random source gave it: without random bytes there is
/// no text, and with them there always is one.
pub fn encrypt_with(key: &str, message: &str, random: Option<[u8; 16]>) -> (res: Option<String>)
    requires
        38 + 2 * message.spec_bytes().len() <= MAX_TRANSPORT_BYTES,
    ensures
        match random {
            Some(bytes) => {
                &&& res matches Some(text)
                &&& text@ == ciphertext(key@, be_value(bytes@) as u128, message@)
                &&& decrypted(key@, text@) == Ok::<Seq<char>, ErrorKind>(message@)
            },
            None => res is None,
        },
{
    match random {
        Some(bytes) => {
            proof {
                lemma_be_value_fits(bytes@);
            }
            let offset = position_from_bytes(array_as_slice(&bytes));
            Some(encrypt_base64(key, offset, message))
        },
        None => None,
    }
}

/// Encrypts a message in the bare format: no marker and no position, the
/// keystream at 0. Equal messages give equal texts under one key.
pub fn encode_base64(key: &str, message: &str) -> (text: String)
    requires
        2 * message.spec_bytes().len() <= MAX_TRANSPORT_BYTES,
    ensures
        text@ == bare_ciphertext(key@, message@),
        bare_decrypted(key@, text@) == Ok::<Seq<char>, ErrorKind>(message@),
{
    let out_bytes = encrypt_raw(key, 0, message.as_bytes());
    let text = base64_encode(out_bytes.as_slice());
    proof {
        lemma_raw_round_trip(key_seed(key@), 0, encode_utf8(message@));
        vstd::utf8::encode_utf8_valid_utf8(message@);
        vstd::utf8::encode_utf8_decode_utf8(message@);
    }
    text
}

/// Decrypts a ciphertext in the bare format.
pub fn decode_from_base64(key: &str, encoded: &str) -> (res: Result<String, DecryptError>)
    requires
        encoded.spec_bytes().len() <= MAX_TRANSPORT_BYTES,
    ensures
        text_outcome(res, bare_decrypted(key@, encoded@)),
{
    let decoded = match base64_decode(encoded) {
        Ok(decoded) => decoded,
        Err(e) => {
            return Err(DecryptError::Base64Decode(e));
        },
    };
    match decrypt_raw(key, 0, decoded.as_slice()) {
        Ok(bytes) => match string_from_utf8(bytes) {
            Ok(text) => Ok(text),
            Err(e) => Err(DecryptError::InvalidUTF8(e)),
        },
        Err(e) => Err(e),
    }
}

} // verus!
