//! The encodings at the edge of the cipher: the starting position as sixteen
//! big-endian bytes, the envelope as base64 text, the message as UTF-8.

use vstd::arithmetic::div_mod::{lemma_div_denominator, lemma_fundamental_div_mod};
use vstd::prelude::*;
use vstd::utf8::{decode_utf8, valid_utf8};

verus! {

/// Number of bytes of an encoded position.
pub const POSITION_BYTES: usize = 16;

/// The longest byte string, and the longest text, that is handed to the
/// base64 coder: its buffer sizes are computed in `usize`.
pub const MAX_TRANSPORT_BYTES: usize = usize::MAX / 4;

/// `256` to the power `k`.
pub open spec fn pow256(k: nat) -> nat
    decreases k,
{
    if k == 0 {
        1
    } else {
        256 * pow256((k - 1) as nat)
    }
}

/// The sixteen bytes of a position, most significant byte first.
pub open spec fn be_bytes(value: u128) -> Seq<u8> {
    Seq::new(16, |i: int| ((value as nat / pow256((15 - i) as nat)) % 256) as u8)
}

/// The number that the first `k` bytes spell, most significant byte first.
pub open spec fn be_prefix_value(bytes: Seq<u8>, k: nat) -> nat
    decreases k,
{
    if k == 0 {
        0
    } else {
        be_prefix_value(bytes, (k - 1) as nat) * 256 + bytes[k - 1] as nat
    }
}

/// The number that bytes spell, most significant byte first.
pub open spec fn be_value(bytes: Seq<u8>) -> nat {
    be_prefix_value(bytes, bytes.len())
}

proof fn lemma_pow256_positive(k: nat)
    ensures
        pow256(k) > 0,
        pow256(k + 1) == 256 * pow256(k),
    decreases k,
{
    if k > 0 {
        lemma_pow256_positive((k - 1) as nat);
    }
}

proof fn lemma_pow256_16()
    ensures
        pow256(16) == 0x1_0000_0000_0000_0000_0000_0000_0000_0000,
{
    assert(pow256(4) == 0x1_0000_0000) by {
        reveal_with_fuel(pow256, 5);
    }
    assert(pow256(8) == 0x1_0000_0000_0000_0000) by {
        reveal_with_fuel(pow256, 5);
    }
    assert(pow256(12) == 0x1_0000_0000_0000_0000_0000_0000) by {
        reveal_with_fuel(pow256, 5);
    }
    assert(pow256(16) == 0x1_0000_0000_0000_0000_0000_0000_0000_0000) by {
        reveal_with_fuel(pow256, 5);
    }
}

/// `k` bytes spell a number below `256` to the power `k`.
proof fn lemma_be_prefix_bound(bytes: Seq<u8>, k: nat)
    ensures
        be_prefix_value(bytes, k) < pow256(k),
    decreases k,
{
    if k > 0 {
        lemma_be_prefix_bound(bytes, (k - 1) as nat);
        lemma_pow256_positive((k - 1) as nat);
    }
}

proof fn lemma_be_prefix_of_bytes(value: u128, k: nat)
    requires
        k <= 16,
    ensures
        be_prefix_value(be_bytes(value), k) == value as nat / pow256((16 - k) as nat),
    decreases k,
{
    let v = value as nat;
    if k == 0 {
        lemma_pow256_16();
    } else {
        lemma_be_prefix_of_bytes(value, (k - 1) as nat);
        let low = pow256((16 - k) as nat);
        lemma_pow256_positive((16 - k) as nat);
        let y = v / low;
        assert(be_bytes(value)[k - 1] == (y % 256) as u8);
        assert(pow256((17 - k) as nat) == 256 * low);
        lemma_div_denominator(v as int, low as int, 256);
        assert(v / (low * 256) == y / 256);
        assert(low * 256 == 256 * low) by (nonlinear_arith);
        lemma_fundamental_div_mod(y as int, 256);
    }
}

/// The sixteen bytes of a position spell the position.
pub proof fn lemma_be_round_trip(value: u128)
    ensures
        be_bytes(value).len() == 16,
        be_value(be_bytes(value)) == value,
{
    lemma_be_prefix_of_bytes(value, 16);
    assert(pow256(0) == 1);
    assert(be_bytes(value).len() == 16);
    assert(be_prefix_value(be_bytes(value), 16) == value as nat / pow256((16 - 16) as nat));
    assert(value as nat / 1 == value as nat);
}

/// Up to sixteen bytes spell a number that fits a position.
pub proof fn lemma_be_value_fits(bytes: Seq<u8>)
    requires
        bytes.len() <= 16,
    ensures
        be_value(bytes) <= u128::MAX,
{
    lemma_be_prefix_bound(bytes, bytes.len());
    lemma_pow256_16();
    lemma_pow256_monotonic(bytes.len(), 16);
}

/// Writes a position as sixteen bytes, most significant byte first.
pub fn position_to_bytes(value: u128) -> (out: Vec<u8>)
    ensures
        out@ == be_bytes(value),
        out@.len() == 16,
{
    let mut out: Vec<u8> = Vec::new();
    let mut k: usize = 0;
    while k < POSITION_BYTES
        invariant
            k <= 16,
            out@.len() == k,
            forall|i: int| 0 <= i < k ==> out@[i] == 0u8,
        decreases 16 - k,
    {
        out.push(0u8);
        k = k + 1;
    }
    let mut rest: u128 = value;
    let mut done: usize = 0;
    assert(pow256(0) == 1);
    while done < POSITION_BYTES
        invariant
            done <= 16,
            out@.len() == 16,
            rest as nat == value as nat / pow256(done as nat),
            forall|i: int| 16 - done <= i < 16 ==> out@[i] == be_bytes(value)[i],
        decreases 16 - done,
    {
        let digit: u8 = (rest % 256) as u8;
        out.set(POSITION_BYTES - 1 - done, digit);
        proof {
            let low = pow256(done as nat);
            lemma_pow256_positive(done as nat);
            lemma_div_denominator(value as int, low as int, 256);
            assert(low * 256 == 256 * low) by (nonlinear_arith);
        }
        rest = rest / 256;
        done = done + 1;
    }
    assert(out@ =~= be_bytes(value));
    out
}

/// Reads up to sixteen bytes, most significant byte first, as a position.
/// More bytes than sixteen may spell a number that no position holds.
pub fn position_from_bytes(bytes: &[u8]) -> (value: u128)
    requires
        bytes@.len() <= 16,
    ensures
        value == be_value(bytes@),
{
    let mut value: u128 = 0;
    let mut k: usize = 0;
    while k < bytes.len()
        invariant
            k <= bytes@.len() <= 16,
            value as nat == be_prefix_value(bytes@, k as nat),
        decreases bytes@.len() - k,
    {
        proof {
            lemma_be_prefix_bound(bytes@, (k + 1) as nat);
            lemma_pow256_16();
            lemma_pow256_monotonic((k + 1) as nat, 16);
        }
        value = value * 256 + bytes[k] as u128;
        k = k + 1;
    }
    value
}

proof fn lemma_pow256_monotonic(a: nat, b: nat)
    requires
        a <= b,
    ensures
        pow256(a) <= pow256(b),
    decreases b - a,
{
    if a < b {
        lemma_pow256_monotonic(a, (b - 1) as nat);
        lemma_pow256_positive((b - 1) as nat);
    }
}

/// The base64 text of a byte string: standard alphabet, padded.
pub uninterp spec fn base64_encoded(bytes: Seq<u8>) -> Seq<char>;

/// The byte string that a base64 text stands for, if it is one: standard
/// alphabet, padded.
pub uninterp spec fn base64_decoded(text: Seq<char>) -> Option<Seq<u8>>;

/// `base64::encode`: the padded base64 text of the bytes, which `base64::decode`
/// turns back into the same bytes. It panics where the size of the text does
/// not fit `usize`, which `requires` leaves out.
#[verifier::external_body]
pub(crate) fn base64_encode(bytes: &[u8]) -> (text: String)
    requires
        bytes@.len() <= MAX_TRANSPORT_BYTES,
    ensures
        text@ == base64_encoded(bytes@),
        base64_decoded(text@) == Some(bytes@),
{
    base64::encode(bytes)
}

/// `base64::decode`: the bytes of a padded base64 text, or the error of the
/// first byte or length that is not base64. It panics where the size of its
/// buffer does not fit `usize`, which `requires` leaves out.
#[verifier::external_body]
pub(crate) fn base64_decode(text: &str) -> (res: Result<Vec<u8>, base64::DecodeError>)
    requires
        vstd::utf8::encode_utf8(text@).len() <= MAX_TRANSPORT_BYTES,
    ensures
        match res {
            Ok(bytes) => base64_decoded(text@) == Some(bytes@),
            Err(_) => base64_decoded(text@) is None,
        },
{
    base64::decode(text)
}

/// `String::from_utf8`: the text that the bytes encode, where they are valid
/// UTF-8, and an error where they are not. Validity and decoding are those
/// that `vstd::utf8` defines: well-formed sequences of one to four bytes, none
/// overlong, no surrogate, nothing above U+10FFFF.
#[verifier::external_body]
pub(crate) fn string_from_utf8(bytes: Vec<u8>) -> (res: Result<String, std::string::FromUtf8Error>)
    ensures
        match res {
            Ok(text) => valid_utf8(bytes@) && text@ == decode_utf8(bytes@),
            Err(_) => !valid_utf8(bytes@),
        },
{
    String::from_utf8(bytes)
}

} // verus!
