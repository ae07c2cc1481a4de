//! The cipher on one unit: a byte, doubled with its complement to sixteen
//! bits, has its bits moved along a permutation table.

use crate::bits::{
    bit_at, is_permutation, lemma_bits_determine, lemma_gather_bit, lemma_unpermute_permute,
    permuted, unpermuted,
};
use crate::error::DecryptError;
use crate::permutation::PermutationTable;
use vstd::prelude::*;

verus! {

/// The unit of a byte: the byte in the low half, its complement in the high
/// half.
pub open spec fn doubled(byte: u8) -> u16 {
    (byte as u16) | (((!byte) as u16) << 8)
}

/// The high half of a unit.
pub open spec fn high_byte(u: u16) -> u8 {
    (u >> 8) as u8
}

/// The low half of a unit.
pub open spec fn low_byte(u: u16) -> u8 {
    (u & 0xff) as u8
}

/// The unit that two bytes make, the first one the high half.
pub open spec fn unit_of(first: u8, second: u8) -> u16 {
    ((first as u16) << 8) | (second as u16)
}

/// The complement check: the high half is the complement of the low half.
pub open spec fn plausible(u: u16) -> bool {
    high_byte(u) == !low_byte(u)
}

/// The two bytes that a byte is encoded to under a table, high half first.
pub open spec fn encoded_unit(table: Seq<u8>, byte: u8) -> Seq<u8> {
    let w = permuted(table, doubled(byte));
    seq![high_byte(w), low_byte(w)]
}

/// The byte that two bytes decode to under a table, if the complement check
/// accepts them.
pub open spec fn decoded_unit(table: Seq<u8>, first: u8, second: u8) -> Option<u8> {
    let u = unpermuted(table, unit_of(first, second));
    if plausible(u) {
        Some(low_byte(u))
    } else {
        None
    }
}

/// Each half of a unit fits a byte, and the two halves make the unit.
proof fn lemma_halves(u: u16)
    ensures
        (u >> 8) < 256,
        (u & 0xff) < 256,
        unit_of(high_byte(u), low_byte(u)) == u,
{
    assert((u >> 8) < 256) by (bit_vector);
    assert((u & 0xff) < 256) by (bit_vector);
    assert(((((u >> 8) as u8) as u16) << 8) | (((u & 0xff) as u8) as u16) == u) by (bit_vector);
}

/// The unit of a byte passes the complement check and holds the byte in its
/// low half.
proof fn lemma_doubled(byte: u8)
    ensures
        plausible(doubled(byte)),
        low_byte(doubled(byte)) == byte,
{
    assert(((((byte as u16) | (((!byte) as u16) << 8)) >> 8) as u8) == !((((byte as u16) | (((
    !byte) as u16) << 8)) & 0xff) as u8)) by (bit_vector);
    assert(((((byte as u16) | (((!byte) as u16) << 8)) & 0xff) as u8) == byte) by (bit_vector);
}

/// The two bytes of an encoded unit make the permuted unit of the byte.
pub proof fn lemma_encoded_unit_word(table: Seq<u8>, byte: u8)
    ensures
        encoded_unit(table, byte).len() == 2,
        unit_of(encoded_unit(table, byte)[0], encoded_unit(table, byte)[1]) == permuted(
            table,
            doubled(byte),
        ),
        plausible(doubled(byte)),
        low_byte(doubled(byte)) == byte,
{
    lemma_halves(permuted(table, doubled(byte)));
    lemma_doubled(byte);
}

/// Decoding the two bytes that a byte was encoded to, under the same table,
/// gives the byte.
pub proof fn lemma_decode_encode(table: Seq<u8>, byte: u8)
    requires
        is_permutation(table),
    ensures
        encoded_unit(table, byte).len() == 2,
        decoded_unit(table, encoded_unit(table, byte)[0], encoded_unit(table, byte)[1]) == Some(
            byte,
        ),
{
    lemma_halves(permuted(table, doubled(byte)));
    lemma_doubled(byte);
    lemma_unpermute_permute(table, doubled(byte));
}

/// Flipping bit `b` of one of the two bytes of a unit flips one bit of the
/// unit: bit `b + 8` for the first byte, bit `b` for the second.
pub proof fn lemma_flip_in_pair(first: u8, second: u8, b: u8)
    requires
        b < 8,
    ensures
        unit_of(first ^ (1u8 << b), second) == unit_of(first, second) ^ (1u16 << ((b + 8) as u16)),
        unit_of(first, second ^ (1u8 << b)) == unit_of(first, second) ^ (1u16 << (b as u16)),
{
    let k: u16 = (b + 8) as u16;
    let l: u16 = b as u16;
    assert((((first ^ (1u8 << b)) as u16) << 8) | (second as u16) == (((first as u16) << 8) | (
    second as u16)) ^ (1u16 << k)) by (bit_vector)
        requires
            b < 8,
            k == b + 8,
    ;
    assert(((first as u16) << 8) | ((second ^ (1u8 << b)) as u16) == (((first as u16) << 8) | (
    second as u16)) ^ (1u16 << l)) by (bit_vector)
        requires
            b < 8,
            l == b,
    ;
}

/// A unit that passes the complement check fails it once any single bit is
/// flipped.
pub proof fn lemma_flip_breaks_complement(u: u16, i: u16)
    requires
        i < 16,
        plausible(u),
    ensures
        !plausible(u ^ (1u16 << i)),
{
    assert(!(((u ^ (1u16 << i)) >> 8) as u8 == !(((u ^ (1u16 << i)) & 0xff) as u8))) by (bit_vector)
        requires
            i < 16,
            (u >> 8) as u8 == !((u & 0xff) as u8),
    ;
}

proof fn lemma_flip_bit(w: u16, j: u16, k: u16)
    requires
        j < 16,
        k < 16,
    ensures
        (((w ^ (1u16 << j)) >> k) & 1 == 1) == (if k == j {
            !((w >> k) & 1 == 1)
        } else {
            (w >> k) & 1 == 1
        }),
{
    assert((((w ^ (1u16 << j)) >> k) & 1 == 1) == (if k == j {
        !((w >> k) & 1 == 1)
    } else {
        (w >> k) & 1 == 1
    })) by (bit_vector)
        requires
            j < 16,
            k < 16,
    ;
}

/// Flipping one bit of a permuted unit flips exactly one bit of what it is
/// moved back to: the bit whose table entry names the flipped position.
pub proof fn lemma_unpermute_flip(table: Seq<u8>, w: u16, i: int)
    requires
        is_permutation(table),
        0 <= i < 16,
    ensures
        unpermuted(table, w ^ (1u16 << (table[i] as u16))) == unpermuted(table, w) ^ (1u16 << (
        i as u16)),
{
    let j = table[i] as u16;
    let flipped = w ^ (1u16 << j);
    let a = unpermuted(table, flipped);
    let b = unpermuted(table, w) ^ (1u16 << (i as u16));
    assert forall|k: int| 0 <= k < 16 implies bit_at(a, k) == bit_at(b, k) by {
        lemma_gather_bit(table, flipped, 16, k);
        lemma_gather_bit(table, w, 16, k);
        lemma_flip_bit(w, j, table[k] as u16);
        lemma_flip_bit(unpermuted(table, w), i as u16, k as u16);
        if k != i {
            if k < i {
                assert(table[k] != table[i]);
            } else {
                assert(table[i] != table[k]);
            }
        }
    }
    lemma_bits_determine(a, b);
}

/// Encodes one byte under a table: the byte and its complement make a unit,
/// every bit `i` of the unit moves to position `table[i]`, and the result is
/// written high half first.
pub fn encode_unit(table: &PermutationTable, byte: u8) -> (out: [u8; 2])
    ensures
        out@ == encoded_unit(table@, byte),
        decoded_unit(table@, out@[0], out@[1]) == Some(byte),
        is_permutation(table@),
{
    let dup: u16 = (byte as u16) | (((!byte) as u16) << 8);
    let shuffled: u16 = table.permute(dup);
    proof {
        lemma_halves(shuffled);
        lemma_decode_encode(table@, byte);
    }
    let out: [u8; 2] = [(shuffled >> 8) as u8, (shuffled & 0xff) as u8];
    assert(out@ =~= encoded_unit(table@, byte));
    out
}

/// Decodes two bytes under a table: bit `i` of the unit is read from position
/// `table[i]`; the low half is the byte if the high half is its complement,
/// and the unit is corrupt otherwise.
pub fn decode_unit(table: &PermutationTable, pair: [u8; 2]) -> (res: Result<u8, DecryptError>)
    ensures
        match decoded_unit(table@, pair@[0], pair@[1]) {
            Some(byte) => res == Ok::<u8, DecryptError>(byte),
            None => res == Err::<u8, DecryptError>(DecryptError::Corrupt),
        },
        is_permutation(table@),
{
    let word: u16 = ((pair[0] as u16) << 8) | (pair[1] as u16);
    let unshuffled: u16 = table.unpermute(word);
    proof {
        lemma_halves(unshuffled);
    }
    let left: u8 = (unshuffled >> 8) as u8;
    let right: u8 = (unshuffled & 0xff) as u8;
    if left == !right {
        Ok(right)
    } else {
        Err(DecryptError::Corrupt)
    }
}

} // verus!
