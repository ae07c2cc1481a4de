//! Key derivation and the seekable keystream.
//!
//! The keystream is the ChaCha20 generator of `rand_chacha`, seeded with the
//! BLAKE3 digest of the passphrase. What the generator computes is not
//! restated here: its state and its draws are named, and the functions of
//! this module say how the names relate.

use rand::distributions::Uniform;
use rand::Rng;
use rand::SeedableRng;
use rand_chacha::ChaCha20Rng;
use vstd::prelude::*;

verus! {

/// Number of word positions of a keystream: sixteen words in each of
/// 2<sup>64</sup> blocks. Positions are counted modulo this number.
pub const WORD_POSITIONS: u128 = 0x10_0000_0000_0000_0000;

/// The ChaCha20 generator. Its fields are not read; three names stand for the
/// state that decides every later output.
#[verifier::external_type_specification]
#[verifier::external_body]
pub struct ExChaCha20Rng(ChaCha20Rng);

/// The 32 bytes that a generator was seeded with (`get_seed`).
pub uninterp spec fn generator_seed(generator: ChaCha20Rng) -> Seq<u8>;

/// The stream number of a generator (`get_stream`).
pub uninterp spec fn generator_stream(generator: ChaCha20Rng) -> nat;

/// The offset of a generator from the start of its stream, in 32-bit words
/// (`get_word_pos`).
pub uninterp spec fn generator_word_pos(generator: ChaCha20Rng) -> nat;

/// What `Uniform::new(0, n)` samples from a generator with the given seed
/// and stream number at the given word position, and the word position of
/// the generator after that.
pub uninterp spec fn uniform_draw(seed: Seq<u8>, stream: nat, word_pos: nat, n: u64) -> (u64, nat);

/// The BLAKE3 digest of a byte string.
pub uninterp spec fn blake3_digest(input: Seq<u8>) -> Seq<u8>;

/// `blake3::hash`: the 32-byte digest of the input. The contract only names
/// the digest.
#[verifier::external_body]
fn blake3_hash(input: &[u8]) -> (digest: [u8; 32])
    ensures
        digest@ == blake3_digest(input@),
{
    *blake3::hash(input).as_bytes()
}

/// `ChaCha20Rng::from_seed`: a generator with the given seed, on stream 0, at
/// the start of the stream.
#[verifier::external_body]
fn generator_from_seed(seed: &[u8; 32]) -> (generator: ChaCha20Rng)
    ensures
        generator_seed(generator) == seed@,
        generator_stream(generator) == 0,
        generator_word_pos(generator) == 0,
{
    ChaCha20Rng::from_seed(*seed)
}

/// `ChaCha20Rng::set_word_pos`: moves the generator to a word offset, of which
/// the block counter keeps the low 68 bits; seed and stream number stay.
#[verifier::external_body]
fn generator_set_word_pos(generator: &mut ChaCha20Rng, word_offset: u128)
    ensures
        generator_seed(*final(generator)) == generator_seed(*old(generator)),
        generator_stream(*final(generator)) == generator_stream(*old(generator)),
        generator_word_pos(*final(generator)) == word_offset % WORD_POSITIONS,
    no_unwind
{
    generator.set_word_pos(word_offset)
}

/// `Rng::sample` with `Uniform::new(0, n)` on 64-bit integers: a value below
/// `n`, decided, like the word position afterwards, by seed, stream number
/// and word position before the call. The sampler takes 64 bits of the
/// stream, and takes the next 64 in the rare case that it rejects them, so
/// that the word position moves on by two or more. `Uniform::new` panics on
/// an empty range, which `requires` leaves out. Seed and stream number stay,
/// and a word position is always below 2<sup>68</sup>.
#[verifier::external_body]
fn generator_sample_below(generator: &mut ChaCha20Rng, n: u64) -> (value: u64)
    requires
        n > 0,
    ensures
        value < n,
        value == uniform_draw(
            generator_seed(*old(generator)),
            generator_stream(*old(generator)),
            generator_word_pos(*old(generator)),
            n,
        ).0,
        generator_word_pos(*final(generator)) == uniform_draw(
            generator_seed(*old(generator)),
            generator_stream(*old(generator)),
            generator_word_pos(*old(generator)),
            n,
        ).1,
        generator_word_pos(*final(generator)) < WORD_POSITIONS,
        generator_seed(*final(generator)) == generator_seed(*old(generator)),
        generator_stream(*final(generator)) == generator_stream(*old(generator)),
    no_unwind
{
    generator.sample(Uniform::new(0u64, n))
}

/// `ChaCha20Rng::clone`: a generator with the same seed, on the same stream,
/// at the same word position.
#[verifier::external_body]
fn generator_clone(generator: &ChaCha20Rng) -> (copy: ChaCha20Rng)
    ensures
        generator_seed(copy) == generator_seed(*generator),
        generator_stream(copy) == generator_stream(*generator),
        generator_word_pos(copy) == generator_word_pos(*generator),
{
    generator.clone()
}

/// The seed that a passphrase gives: its BLAKE3 digest.
pub open spec fn seed_of(passphrase: Seq<u8>) -> Seq<u8> {
    blake3_digest(passphrase)
}

/// The value that a keystream with this seed draws below `n` at a word
/// position. The remainder changes no draw, as every draw is below its
/// bound; it lets what is stated of draws hold of every seed and position.
pub open spec fn draw_value(seed: Seq<u8>, position: nat, n: u64) -> u64 {
    uniform_draw(seed, 0, position, n).0 % n
}

/// The word position of a keystream with this seed after it has drawn below
/// `n` at a word position.
pub open spec fn draw_end(seed: Seq<u8>, position: nat, n: u64) -> nat {
    uniform_draw(seed, 0, position, n).1
}

/// Reduces a passphrase to the seed of its keystream. Every byte string is
/// accepted, the empty one too, and the same passphrase always gives the
/// same seed.
pub fn derive_seed(passphrase: &[u8]) -> (seed: [u8; 32])
    ensures
        seed@ == seed_of(passphrase@),
        seed@.len() == 32,
{
    blake3_hash(passphrase)
}

/// A deterministic source of bounded draws that can be moved to any word
/// position of its stream. Seed and word position decide every draw.
pub struct Keystream {
    generator: ChaCha20Rng,
}

impl Clone for Keystream {
    /// A second keystream that draws what this one is about to draw.
    fn clone(&self) -> (copy: Keystream)
        ensures
            copy.seed() == self.seed(),
            copy.position() == self.position(),
    {
        proof {
            use_type_invariant(self);
        }
        Keystream { generator: generator_clone(&self.generator) }
    }
}

impl Keystream {
    #[verifier::type_invariant]
    spec fn on_first_stream(&self) -> bool {
        generator_stream(self.generator) == 0
    }

    /// The seed that the keystream was made from.
    pub closed spec fn seed(&self) -> Seq<u8> {
        generator_seed(self.generator)
    }

    /// The word position that the next draw starts at.
    pub closed spec fn position(&self) -> nat {
        generator_word_pos(self.generator)
    }

    /// A keystream for a seed, at word position 0.
    pub fn new(seed: &[u8; 32]) -> (stream: Keystream)
        ensures
            stream.seed() == seed@,
            stream.position() == 0,
    {
        Keystream { generator: generator_from_seed(seed) }
    }

    /// Moves the keystream to an absolute word position, whatever it has
    /// drawn before. Positions are counted modulo `WORD_POSITIONS`.
    pub fn seek(&mut self, position: u128)
        ensures
            final(self).seed() == old(self).seed(),
            final(self).position() == position % WORD_POSITIONS,
    {
        proof {
            use_type_invariant(&*self);
        }
        generator_set_word_pos(&mut self.generator, position);
    }

    /// Draws a value below `n` and advances the keystream.
    pub fn next_bounded(&mut self, n: u64) -> (value: u64)
        requires
            n > 0,
        ensures
            value < n,
            value == draw_value(old(self).seed(), old(self).position(), n),
            final(self).seed() == old(self).seed(),
            final(self).position() == draw_end(old(self).seed(), old(self).position(), n),
            final(self).position() < WORD_POSITIONS,
    {
        proof {
            use_type_invariant(&*self);
        }
        let value = generator_sample_below(&mut self.generator, n);
        proof {
            vstd::arithmetic::div_mod::lemma_small_mod(value as nat, n as nat);
        }
        value
    }
}

} // verus!
