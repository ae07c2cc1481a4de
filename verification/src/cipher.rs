//! The cipher on byte strings: every byte is a unit with a table of its own,
//! drawn from the keystream where the unit before it stopped.

use crate::bits::{
    is_permutation, lemma_permutation_is_onto, lemma_unpermute_permute, permuted, unpermuted,
};
use crate::error::{DecryptError, ErrorKind};
use crate::keystream::{derive_seed, draw_end, draw_value, seed_of, Keystream, WORD_POSITIONS};
use crate::permutation::{
    lemma_table_from_draws_is_permutation, table_from_draws, valid_draws, PermutationTable,
};
use crate::unit::{
    decode_unit, decoded_unit, doubled, encode_unit, encoded_unit, lemma_decode_encode,
    lemma_encoded_unit_word, lemma_flip_breaks_complement, lemma_flip_in_pair,
    lemma_unpermute_flip, unit_of,
};
use vstd::prelude::*;
use vstd::string::StringSliceAdditionalSpecFns;

verus! {

/// The word position of a keystream after the first `k` draws of a unit that
/// starts at `start`. Draw `i` of a unit is made below `16 - i`.
pub open spec fn position_after_draws(seed: Seq<u8>, start: nat, k: nat) -> nat
    decreases k,
{
    if k == 0 {
        start
    } else {
        draw_end(seed, position_after_draws(seed, start, (k - 1) as nat), (17 - k) as u64)
    }
}

/// The sixteen draws of the unit that starts at `start`.
pub open spec fn unit_draws(seed: Seq<u8>, start: nat) -> Seq<u64> {
    Seq::new(
        16,
        |k: int| draw_value(seed, position_after_draws(seed, start, k as nat), (16 - k) as u64),
    )
}

/// The table of the unit that starts at `start`.
pub open spec fn unit_table(seed: Seq<u8>, start: nat) -> Seq<u8> {
    table_from_draws(unit_draws(seed, start))
}

/// The word position at which the unit after the one at `start` starts.
pub open spec fn unit_end(seed: Seq<u8>, start: nat) -> nat {
    position_after_draws(seed, start, 16)
}

/// The word position at which unit `j` starts when unit 0 starts at `first`.
pub open spec fn unit_start(seed: Seq<u8>, first: nat, j: nat) -> nat
    decreases j,
{
    if j == 0 {
        first
    } else {
        unit_end(seed, unit_start(seed, first, (j - 1) as nat))
    }
}

/// The word position that a keystream is at after it was moved to `offset`.
pub open spec fn first_position(offset: u128) -> nat {
    (offset % WORD_POSITIONS) as nat
}

/// The table of unit `j` of a byte string that is processed from `offset`.
pub open spec fn table_at(seed: Seq<u8>, offset: u128, j: int) -> Seq<u8> {
    unit_table(seed, unit_start(seed, first_position(offset), j as nat))
}

/// The ciphertext of `data`: two bytes for every byte, in order.
pub open spec fn raw_encrypted(seed: Seq<u8>, offset: u128, data: Seq<u8>) -> Seq<u8> {
    Seq::new(
        2 * data.len(),
        |i: int| encoded_unit(table_at(seed, offset, i / 2), data[i / 2])[i % 2],
    )
}

/// What unit `j` of a ciphertext decodes to, if anything.
pub open spec fn unit_decoded(seed: Seq<u8>, offset: u128, data: Seq<u8>, j: int) -> Option<u8> {
    decoded_unit(table_at(seed, offset, j), data[2 * j], data[2 * j + 1])
}

/// What a ciphertext decrypts to: a length mismatch if its length is odd, a
/// corrupt input if any of its units fails the complement check, and else
/// one byte for every unit.
pub open spec fn raw_decrypted(seed: Seq<u8>, offset: u128, data: Seq<u8>) -> Result<
    Seq<u8>,
    ErrorKind,
> {
    if data.len() % 2 != 0 {
        Err(ErrorKind::LengthMismatch)
    } else if exists|j: int| 0 <= j < data.len() / 2 && unit_decoded(seed, offset, data, j) is None {
        Err(ErrorKind::Corrupt)
    } else {
        Ok(Seq::new(data.len() / 2, |j: int| unit_decoded(seed, offset, data, j).unwrap()))
    }
}

/// The seed of the keystream of a key.
pub open spec fn key_seed(key: Seq<char>) -> Seq<u8> {
    seed_of(vstd::utf8::encode_utf8(key))
}

/// Whether bytes, or a failure, are what was expected.
pub open spec fn bytes_outcome(
    res: Result<Vec<u8>, DecryptError>,
    expected: Result<Seq<u8>, ErrorKind>,
) -> bool {
    match expected {
        Ok(bytes) => res matches Ok(v) && v@ == bytes,
        Err(kind) => res matches Err(e) && e.spec_kind() == kind,
    }
}

/// The draws of every unit fit the shrinking pool, so every unit has a
/// bijection for a table.
pub proof fn lemma_unit_table_is_permutation(seed: Seq<u8>, start: nat)
    ensures
        valid_draws(unit_draws(seed, start)),
        is_permutation(unit_table(seed, start)),
{
    let draws = unit_draws(seed, start);
    assert forall|k: int| 0 <= k < 16 implies #[trigger] draws[k] < 16 - k by {
        let x = crate::keystream::uniform_draw(
            seed,
            0,
            position_after_draws(seed, start, k as nat),
            (16 - k) as u64,
        ).0;
        vstd::arithmetic::div_mod::lemma_mod_bound(x as int, 16 - k);
    }
    lemma_table_from_draws_is_permutation(draws);
}

/// Decrypting what was encrypted, with the same seed and at the same offset,
/// gives the bytes that were encrypted.
pub proof fn lemma_raw_round_trip(seed: Seq<u8>, offset: u128, data: Seq<u8>)
    ensures
        raw_decrypted(seed, offset, raw_encrypted(seed, offset, data)) == Ok::<Seq<u8>, ErrorKind>(
            data,
        ),
{
    let sealed = raw_encrypted(seed, offset, data);
    assert forall|j: int| 0 <= j < data.len() implies unit_decoded(seed, offset, sealed, j)
        == Some(data[j]) by {
        let table = table_at(seed, offset, j);
        lemma_unit_table_is_permutation(seed, unit_start(seed, first_position(offset), j as nat));
        lemma_decode_encode(table, data[j]);
        assert((2 * j) / 2 == j && (2 * j) % 2 == 0);
        assert((2 * j + 1) / 2 == j && (2 * j + 1) % 2 == 1);
        assert(sealed[2 * j] == encoded_unit(table, data[j])[0]);
        assert(sealed[2 * j + 1] == encoded_unit(table, data[j])[1]);
    }
    assert(sealed.len() / 2 == data.len() && sealed.len() % 2 == 0);
    assert(Seq::new(sealed.len() / 2, |j: int| unit_decoded(seed, offset, sealed, j).unwrap())
        =~= data);
}

/// Encryption is a function of seed, offset and data: two results for the
/// same three are the same bytes.
pub proof fn lemma_encrypt_raw_deterministic(
    key: Seq<char>,
    offset: u128,
    data: Seq<u8>,
    first: Seq<u8>,
    second: Seq<u8>,
)
    requires
        first == raw_encrypted(key_seed(key), offset, data),
        second == raw_encrypted(key_seed(key), offset, data),
    ensures
        first == second,
{
}

/// A ciphertext with any single bit flipped is rejected as corrupt: the
/// flipped bit lands on one bit of one unit, whose halves are then no longer
/// complements.
pub proof fn lemma_raw_bit_flip_is_corrupt(
    seed: Seq<u8>,
    offset: u128,
    data: Seq<u8>,
    i: int,
    b: u8,
)
    requires
        0 <= i < 2 * data.len(),
        b < 8,
    ensures
        raw_decrypted(
            seed,
            offset,
            raw_encrypted(seed, offset, data).update(
                i,
                raw_encrypted(seed, offset, data)[i] ^ (1u8 << b),
            ),
        ) == Err::<Seq<u8>, ErrorKind>(ErrorKind::Corrupt),
{
    let sealed = raw_encrypted(seed, offset, data);
    let altered = sealed.update(i, sealed[i] ^ (1u8 << b));
    let j = i / 2;
    let table = table_at(seed, offset, j);
    lemma_unit_table_is_permutation(seed, unit_start(seed, first_position(offset), j as nat));
    lemma_encoded_unit_word(table, data[j]);
    assert((2 * j) / 2 == j && (2 * j) % 2 == 0);
    assert((2 * j + 1) / 2 == j && (2 * j + 1) % 2 == 1);
    let first = sealed[2 * j];
    let second = sealed[2 * j + 1];
    assert(first == encoded_unit(table, data[j])[0]);
    assert(second == encoded_unit(table, data[j])[1]);
    let word = unit_of(first, second);
    let at: int = if i == 2 * j { b + 8 } else { b as int };
    lemma_flip_in_pair(first, second, b);
    let altered_word = unit_of(altered[2 * j], altered[2 * j + 1]);
    assert(altered_word == word ^ (1u16 << (at as u16)));
    lemma_permutation_is_onto(table, at);
    let source = choose|k: int| 0 <= k < 16 && #[trigger] table[k] == at;
    lemma_unpermute_flip(table, word, source);
    lemma_unpermute_permute(table, doubled(data[j]));
    lemma_flip_breaks_complement(unpermuted(table, word), source as u16);
    assert(unit_decoded(seed, offset, altered, j) is None);
    assert(altered.len() % 2 == 0 && 0 <= j < altered.len() / 2);
}

/// Draws the table of the next unit: sixteen draws, below 16, 15, ... 1, each
/// of which removes the entry it indexes from the pool `0..16` and appends it
/// to the table.
pub fn random_indicies(stream: &mut Keystream) -> (table: PermutationTable)
    ensures
        table@ == unit_table(old(stream).seed(), old(stream).position()),
        is_permutation(table@),
        final(stream).seed() == old(stream).seed(),
        final(stream).position() == unit_end(old(stream).seed(), old(stream).position()),
{
    let ghost seed = stream.seed();
    let ghost start = stream.position();
    let mut draws: Vec<u64> = Vec::new();
    let mut k: u64 = 0;
    while k < 16
        invariant
            k <= 16,
            draws@.len() == k,
            stream.seed() == seed,
            stream.position() == position_after_draws(seed, start, k as nat),
            forall|m: int| 0 <= m < k ==> #[trigger] draws@[m] == unit_draws(seed, start)[m],
        decreases 16 - k,
    {
        let d: u64 = stream.next_bounded(16 - k);
        draws.push(d);
        k = k + 1;
    }
    assert(draws@ =~= unit_draws(seed, start));
    proof {
        lemma_unit_table_is_permutation(seed, start);
    }
    match PermutationTable::from_draws(draws.as_slice()) {
        Some(table) => table,
        None => vstd::pervasive::unreached(),
    }
}

/// Moves the bits of a unit along the table of the next unit of the
/// keystream.
pub fn shuffle_bits(stream: &mut Keystream, bytes: u16) -> (res: u16)
    ensures
        res == permuted(unit_table(old(stream).seed(), old(stream).position()), bytes),
        final(stream).seed() == old(stream).seed(),
        final(stream).position() == unit_end(old(stream).seed(), old(stream).position()),
{
    let table = random_indicies(stream);
    table.permute(bytes)
}

/// Moves the bits of a unit back along the table of the next unit of the
/// keystream.
pub fn unshuffle_bits(stream: &mut Keystream, bytes: u16) -> (res: u16)
    ensures
        res == unpermuted(unit_table(old(stream).seed(), old(stream).position()), bytes),
        final(stream).seed() == old(stream).seed(),
        final(stream).position() == unit_end(old(stream).seed(), old(stream).position()),
{
    let table = random_indicies(stream);
    table.unpermute(bytes)
}

/// Encrypts bytes with no framing: the keystream of the key is moved to
/// `offset`, and every byte, in order, is encoded under a table of its own.
/// The result has two bytes for every byte of `data`.
pub fn encrypt_raw(key: &str, offset: u128, data: &[u8]) -> (out: Vec<u8>)
    ensures
        out@ == raw_encrypted(key_seed(key@), offset, data@),
        out@.len() == 2 * data@.len(),
{
    let seed = derive_seed(key.as_bytes());
    let mut stream = Keystream::new(&seed);
    stream.seek(offset);
    let ghost s = key_seed(key@);
    let ghost expected = raw_encrypted(s, offset, data@);
    let mut out: Vec<u8> = Vec::new();
    let mut i: usize = 0;
    while i < data.len()
        invariant
            i <= data@.len(),
            out@.len() == 2 * i,
            stream.seed() == s,
            stream.position() == unit_start(s, first_position(offset), i as nat),
            expected == raw_encrypted(s, offset, data@),
            forall|k: int| 0 <= k < 2 * i ==> #[trigger] out@[k] == expected[k],
        decreases data@.len() - i,
    {
        let table = random_indicies(&mut stream);
        let pair = encode_unit(&table, data[i]);
        out.push(pair[0]);
        out.push(pair[1]);
        assert forall|k: int| 0 <= k < 2 * (i + 1) implies #[trigger] out@[k] == expected[k] by {
            if k >= 2 * i {
                assert(k / 2 == i as int);
                assert(table@ == table_at(s, offset, i as int));
            }
        }
        i = i + 1;
    }
    assert(out@ =~= expected);
    out
}

/// Decrypts bytes with no framing. An odd length is a length mismatch.
/// Otherwise the keystream of the key is moved to `offset` and every pair of
/// bytes, in order, is decoded under a table of its own; the first unit that
/// fails its complement check ends the call as corrupt.
pub fn decrypt_raw(key: &str, offset: u128, data: &[u8]) -> (res: Result<Vec<u8>, DecryptError>)
    ensures
        bytes_outcome(res, raw_decrypted(key_seed(key@), offset, data@)),
{
    if data.len() % 2 != 0 {
        return Err(DecryptError::LengthMismatch);
    }
    let seed = derive_seed(key.as_bytes());
    let mut stream = Keystream::new(&seed);
    stream.seek(offset);
    let ghost s = key_seed(key@);
    let units: usize = data.len() / 2;
    let mut out: Vec<u8> = Vec::new();
    let mut j: usize = 0;
    while j < units
        invariant
            s == key_seed(key@),
            2 * units == data@.len(),
            units == data@.len() / 2,
            data@.len() % 2 == 0,
            data@.len() <= usize::MAX,
            j <= units,
            out@.len() == j,
            stream.seed() == s,
            stream.position() == unit_start(s, first_position(offset), j as nat),
            forall|k: int| 0 <= k < j ==> #[trigger] unit_decoded(s, offset, data@, k) == Some(out@[k]),
        decreases units - j,
    {
        let table = random_indicies(&mut stream);
        assert(table@ == table_at(s, offset, j as int));
        let pair: [u8; 2] = [data[2 * j], data[2 * j + 1]];
        assert(pair@[0] == data@[2 * j] && pair@[1] == data@[2 * j + 1]);
        match decode_unit(&table, pair) {
            Ok(byte) => {
                out.push(byte);
            },
            Err(e) => {
                assert(unit_decoded(s, offset, data@, j as int) is None);
                assert(e == DecryptError::Corrupt);
                return Err(e);
            },
        }
        j = j + 1;
    }
    assert(out@ =~= Seq::new(data@.len() / 2, |k: int| unit_decoded(s, offset, data@, k).unwrap()));
    Ok(out)
}

} // verus!
