//! Moving the sixteen bits of a unit along a permutation table.

use vstd::prelude::*;

verus! {

/// Number of bits in a unit, and so the number of entries of a table.
pub const UNIT_BITS: usize = 16;

/// Bit `i` of `v`, counted from the least significant one.
pub open spec fn bit_at(v: u16, i: int) -> bool {
    (v >> (i as u16)) & 1 == 1
}

/// A table is a bijection on the bit positions `0..16`: sixteen entries,
/// each a position, no position twice.
pub open spec fn is_permutation(table: Seq<u8>) -> bool {
    &&& table.len() == 16
    &&& forall|i: int| 0 <= i < 16 ==> #[trigger] table[i] < 16
    &&& forall|i: int, j: int| 0 <= i < j < 16 ==> #[trigger] table[i] != #[trigger] table[j]
}

/// The first `n` bits of `v`, each moved from its position `i` to
/// position `table[i]`.
pub open spec fn scatter(table: Seq<u8>, v: u16, n: nat) -> u16
    decreases n,
{
    if n == 0 {
        0
    } else {
        let i = (n - 1) as int;
        scatter(table, v, i as nat) | (((v >> (i as u16)) & 1) << (table[i] as u16))
    }
}

/// The first `n` bits of the result, bit `i` read from position `table[i]`
/// of `w`.
pub open spec fn gather(table: Seq<u8>, w: u16, n: nat) -> u16
    decreases n,
{
    if n == 0 {
        0
    } else {
        let i = (n - 1) as int;
        gather(table, w, i as nat) | (((w >> (table[i] as u16)) & 1) << (i as u16))
    }
}

/// `v` with every bit `i` moved to position `table[i]`.
pub open spec fn permuted(table: Seq<u8>, v: u16) -> u16 {
    scatter(table, v, 16)
}

/// The inverse placement: bit `i` of the result is bit `table[i]` of `w`.
pub open spec fn unpermuted(table: Seq<u8>, w: u16) -> u16 {
    gather(table, w, 16)
}

proof fn lemma_or_bit(acc: u16, b: u16, k: u16, j: u16)
    requires
        k < 16,
        j < 16,
        b == 0 || b == 1,
    ensures
        ((acc | (b << k)) >> j) & 1 == (if j == k {
            ((acc >> j) & 1) | b
        } else {
            (acc >> j) & 1
        }),
        ((acc >> j) & 1) == 0 || ((acc >> j) & 1) == 1,
{
    assert(((acc | (b << k)) >> j) & 1 == (if j == k {
        ((acc >> j) & 1) | b
    } else {
        (acc >> j) & 1
    })) by (bit_vector)
        requires
            k < 16,
            j < 16,
            b == 0 || b == 1,
    ;
    assert(((acc >> j) & 1) == 0 || ((acc >> j) & 1) == 1) by (bit_vector);
}

proof fn lemma_low_bit(v: u16, s: u16)
    ensures
        (v >> s) & 1 == 0 || (v >> s) & 1 == 1,
        (0u16 >> s) & 1 == 0,
        0u16 | 1u16 == 1,
        0u16 | 0u16 == 0,
        1u16 | 0u16 == 1,
{
    assert((v >> s) & 1 == 0 || (v >> s) & 1 == 1) by (bit_vector);
    assert((0u16 >> s) & 1 == 0) by (bit_vector);
    assert(0u16 | 1u16 == 1) by (bit_vector);
    assert(0u16 | 0u16 == 0) by (bit_vector);
    assert(1u16 | 0u16 == 1) by (bit_vector);
}

/// Two units with the same sixteen bits are the same unit.
pub proof fn lemma_bits_determine(a: u16, b: u16)
    requires
        forall|j: int| 0 <= j < 16 ==> bit_at(a, j) == bit_at(b, j),
    ensures
        a == b,
{
    assert(bit_at(a, 0) == bit_at(b, 0));
    assert(bit_at(a, 1) == bit_at(b, 1));
    assert(bit_at(a, 2) == bit_at(b, 2));
    assert(bit_at(a, 3) == bit_at(b, 3));
    assert(bit_at(a, 4) == bit_at(b, 4));
    assert(bit_at(a, 5) == bit_at(b, 5));
    assert(bit_at(a, 6) == bit_at(b, 6));
    assert(bit_at(a, 7) == bit_at(b, 7));
    assert(bit_at(a, 8) == bit_at(b, 8));
    assert(bit_at(a, 9) == bit_at(b, 9));
    assert(bit_at(a, 10) == bit_at(b, 10));
    assert(bit_at(a, 11) == bit_at(b, 11));
    assert(bit_at(a, 12) == bit_at(b, 12));
    assert(bit_at(a, 13) == bit_at(b, 13));
    assert(bit_at(a, 14) == bit_at(b, 14));
    assert(bit_at(a, 15) == bit_at(b, 15));
    assert(a == b) by (bit_vector)
        requires
            ((a >> 0u16) & 1 == 1) == ((b >> 0u16) & 1 == 1),
            ((a >> 1u16) & 1 == 1) == ((b >> 1u16) & 1 == 1),
            ((a >> 2u16) & 1 == 1) == ((b >> 2u16) & 1 == 1),
            ((a >> 3u16) & 1 == 1) == ((b >> 3u16) & 1 == 1),
            ((a >> 4u16) & 1 == 1) == ((b >> 4u16) & 1 == 1),
            ((a >> 5u16) & 1 == 1) == ((b >> 5u16) & 1 == 1),
            ((a >> 6u16) & 1 == 1) == ((b >> 6u16) & 1 == 1),
            ((a >> 7u16) & 1 == 1) == ((b >> 7u16) & 1 == 1),
            ((a >> 8u16) & 1 == 1) == ((b >> 8u16) & 1 == 1),
            ((a >> 9u16) & 1 == 1) == ((b >> 9u16) & 1 == 1),
            ((a >> 10u16) & 1 == 1) == ((b >> 10u16) & 1 == 1),
            ((a >> 11u16) & 1 == 1) == ((b >> 11u16) & 1 == 1),
            ((a >> 12u16) & 1 == 1) == ((b >> 12u16) & 1 == 1),
            ((a >> 13u16) & 1 == 1) == ((b >> 13u16) & 1 == 1),
            ((a >> 14u16) & 1 == 1) == ((b >> 14u16) & 1 == 1),
            ((a >> 15u16) & 1 == 1) == ((b >> 15u16) & 1 == 1),
    ;
}

/// Bit `i` of what `gather` has built from `n` entries is bit `table[i]` of
/// the input where `i < n`, and clear above.
pub proof fn lemma_gather_bit(table: Seq<u8>, w: u16, n: nat, i: int)
    requires
        table.len() == 16,
        forall|k: int| 0 <= k < 16 ==> #[trigger] table[k] < 16,
        n <= 16,
        0 <= i < 16,
    ensures
        bit_at(gather(table, w, n), i) == (i < n && bit_at(w, table[i] as int)),
    decreases n,
{
    if n == 0 {
        lemma_low_bit(w, i as u16);
    } else {
        let k = (n - 1) as int;
        let acc = gather(table, w, k as nat);
        let b = (w >> (table[k] as u16)) & 1;
        lemma_gather_bit(table, w, k as nat, i);
        lemma_low_bit(w, table[k] as u16);
        lemma_or_bit(acc, b, k as u16, i as u16);
        lemma_low_bit(acc, i as u16);
    }
}

/// What `scatter` has built from `n` entries holds bit `i` of the input at
/// position `table[i]` where `i < n`, and nothing at a position that none of
/// the first `n` entries names.
pub proof fn lemma_scatter_bit(table: Seq<u8>, v: u16, n: nat, j: int)
    requires
        is_permutation(table),
        n <= 16,
        0 <= j < 16,
    ensures
        forall|i: int| 0 <= i < n && table[i] == j ==> bit_at(scatter(table, v, n), j) == bit_at(v, i),
        (forall|i: int| 0 <= i < n ==> table[i] != j) ==> !bit_at(scatter(table, v, n), j),
    decreases n,
{
    if n == 0 {
        lemma_low_bit(v, j as u16);
    } else {
        let k = (n - 1) as int;
        let acc = scatter(table, v, k as nat);
        let b = (v >> (k as u16)) & 1;
        lemma_scatter_bit(table, v, k as nat, j);
        lemma_low_bit(v, k as u16);
        lemma_or_bit(acc, b, table[k] as u16, j as u16);
        lemma_low_bit(acc, j as u16);
        if table[k] == j {
            assert forall|i: int| 0 <= i < k implies table[i] != j by {
                assert(table[i] != table[k]);
            }
            assert(!bit_at(acc, j));
        } else {
            assert forall|i: int| 0 <= i < n && table[i] == j implies bit_at(
                scatter(table, v, n),
                j,
            ) == bit_at(v, i) by {
                assert(i < k);
            }
        }
    }
}

/// `n` distinct values below `n` leave no value below `n` out.
proof fn lemma_distinct_values_are_onto(t: Seq<u8>, n: nat, p: int)
    requires
        t.len() == n,
        forall|i: int| 0 <= i < n ==> #[trigger] t[i] < n,
        forall|i: int, j: int| 0 <= i < j < n ==> #[trigger] t[i] != #[trigger] t[j],
        0 <= p < n,
    ensures
        exists|i: int| 0 <= i < n && #[trigger] t[i] == p,
    decreases n,
{
    let top = (n - 1) as int;
    if exists|m: int| 0 <= m < n && #[trigger] t[m] == top {
        let m = choose|m: int| 0 <= m < n && #[trigger] t[m] == top;
        if p != top {
            let rest = t.remove(m);
            assert forall|i: int| 0 <= i < n - 1 implies #[trigger] rest[i] < n - 1 by {
                let ii = if i < m { i } else { i + 1 };
                assert(rest[i] == t[ii]);
                if ii < m {
                    assert(t[ii] != t[m]);
                } else {
                    assert(t[m] != t[ii]);
                }
            }
            assert forall|i: int, j: int| 0 <= i < j < n - 1 implies #[trigger] rest[i]
                != #[trigger] rest[j] by {
                let ii = if i < m { i } else { i + 1 };
                let jj = if j < m { j } else { j + 1 };
                assert(rest[i] == t[ii]);
                assert(rest[j] == t[jj]);
            }
            lemma_distinct_values_are_onto(rest, (n - 1) as nat, p);
            let r = choose|i: int| 0 <= i < n - 1 && #[trigger] rest[i] == p;
            let rr = if r < m { r } else { r + 1 };
            assert(t[rr] == p);
        }
    } else {
        let rest = t.drop_last();
        assert(t[top] < n);
        assert(t[top] != top);
        assert forall|i: int| 0 <= i < n - 1 implies #[trigger] rest[i] < n - 1 by {
            assert(rest[i] == t[i]);
            assert(t[i] != top);
        }
        assert forall|i: int, j: int| 0 <= i < j < n - 1 implies #[trigger] rest[i]
            != #[trigger] rest[j] by {
            assert(rest[i] == t[i]);
            assert(rest[j] == t[j]);
        }
        lemma_distinct_values_are_onto(rest, (n - 1) as nat, t[top] as int);
        let r = choose|i: int| 0 <= i < n - 1 && #[trigger] rest[i] == t[top];
        assert(t[r] == t[top]);
        assert(false);
    }
}

/// Every bit position is the target of some entry of a table.
pub proof fn lemma_permutation_is_onto(table: Seq<u8>, p: int)
    requires
        is_permutation(table),
        0 <= p < 16,
    ensures
        exists|i: int| 0 <= i < 16 && #[trigger] table[i] == p,
{
    lemma_distinct_values_are_onto(table, 16, p);
}

/// Moving the bits of any unit along a table and back gives the unit again.
pub proof fn lemma_unpermute_permute(table: Seq<u8>, v: u16)
    requires
        is_permutation(table),
    ensures
        unpermuted(table, permuted(table, v)) == v,
{
    let w = permuted(table, v);
    let u = unpermuted(table, w);
    assert forall|i: int| 0 <= i < 16 implies bit_at(u, i) == bit_at(v, i) by {
        lemma_gather_bit(table, w, 16, i);
        lemma_scatter_bit(table, v, 16, table[i] as int);
    }
    lemma_bits_determine(u, v);
}

} // verus!
