//! Permutation tables: how sixteen bounded draws become a bijection on the
//! bit positions of a unit, and how a table moves the bits of a unit.

use crate::bits::{
    bit_at, gather, is_permutation, lemma_gather_bit, lemma_scatter_bit, permuted, scatter,
    unpermuted, UNIT_BITS,
};
use vstd::prelude::*;

verus! {

/// The pool that every table is picked from: the positions `0..16` in order.
pub open spec fn full_pool() -> Seq<u8> {
    Seq::new(16, |i: int| i as u8)
}

/// Sixteen draws fit a shrinking pool: draw `i` indexes a pool of `16 - i`.
pub open spec fn valid_draws(draws: Seq<u64>) -> bool {
    &&& draws.len() == 16
    &&& forall|i: int| 0 <= i < 16 ==> #[trigger] draws[i] < 16 - i
}

/// The pool after the first `n` draws have each removed the entry they index.
pub open spec fn pool_after(draws: Seq<u64>, n: nat) -> Seq<u8>
    decreases n,
{
    if n == 0 {
        full_pool()
    } else {
        pool_after(draws, (n - 1) as nat).remove(draws[n - 1] as int)
    }
}

/// The table that sixteen draws select: entry `i` is what draw `i` indexes in
/// the pool that the draws before it have left.
pub open spec fn table_from_draws(draws: Seq<u64>) -> Seq<u8> {
    Seq::new(16, |i: int| pool_after(draws, i as nat)[draws[i] as int])
}

/// The pool after `n` valid draws: `16 - n` positions, none twice, none of
/// them picked before.
proof fn lemma_pool_after(draws: Seq<u64>, n: nat)
    requires
        valid_draws(draws),
        n <= 16,
    ensures
        pool_after(draws, n).len() == 16 - n,
        forall|k: int| 0 <= k < 16 - n ==> #[trigger] pool_after(draws, n)[k] < 16,
        forall|k: int, l: int|
            0 <= k < l < 16 - n ==> #[trigger] pool_after(draws, n)[k] != #[trigger] pool_after(
                draws,
                n,
            )[l],
        forall|i: int, k: int|
            0 <= i < n && 0 <= k < 16 - n ==> #[trigger] table_from_draws(draws)[i]
                != #[trigger] pool_after(draws, n)[k],
    decreases n,
{
    if n > 0 {
        let m = (n - 1) as nat;
        let before = pool_after(draws, m);
        let d = draws[n - 1] as int;
        let after = pool_after(draws, n);
        lemma_pool_after(draws, m);
        assert(after == before.remove(d));
        assert forall|k: int| 0 <= k < 16 - n implies #[trigger] after[k] < 16 by {
            if k < d {
                assert(after[k] == before[k]);
            } else {
                assert(after[k] == before[k + 1]);
            }
        }
        assert forall|k: int| 0 <= k < 16 - n implies table_from_draws(draws)[n - 1]
            != #[trigger] after[k] by {
            assert(table_from_draws(draws)[n - 1] == before[d]);
            if k < d {
                assert(after[k] == before[k]);
            } else {
                assert(after[k] == before[k + 1]);
            }
        }
        assert forall|k: int, l: int| 0 <= k < l < 16 - n implies #[trigger] after[k]
            != #[trigger] after[l] by {
            let kk = if k < d { k } else { k + 1 };
            let ll = if l < d { l } else { l + 1 };
            assert(after[k] == before[kk]);
            assert(after[l] == before[ll]);
        }
        assert forall|i: int, k: int| 0 <= i < n && 0 <= k < 16 - n implies #[trigger] table_from_draws(
            draws,
        )[i] != #[trigger] after[k] by {
            let kk = if k < d { k } else { k + 1 };
            assert(after[k] == before[kk]);
        }
    }
}

/// Valid draws always select a bijection on the sixteen bit positions.
pub proof fn lemma_table_from_draws_is_permutation(draws: Seq<u64>)
    requires
        valid_draws(draws),
    ensures
        is_permutation(table_from_draws(draws)),
{
    let table = table_from_draws(draws);
    assert forall|i: int| 0 <= i < 16 implies #[trigger] table[i] < 16 by {
        lemma_pool_after(draws, i as nat);
    }
    assert forall|i: int, j: int| 0 <= i < j < 16 implies #[trigger] table[i] != #[trigger] table[j] by {
        lemma_pool_after(draws, j as nat);
        assert(table[j] == pool_after(draws, j as nat)[draws[j] as int]);
    }
}

/// A bijection on the bit positions `0..16`, freshly made for every unit.
#[derive(Debug)]
pub struct PermutationTable {
    slots: Vec<u8>,
}

impl View for PermutationTable {
    type V = Seq<u8>;

    closed spec fn view(&self) -> Seq<u8> {
        self.slots@
    }
}

impl PermutationTable {
    #[verifier::type_invariant]
    spec fn well_formed(&self) -> bool {
        is_permutation(self.slots@)
    }

    /// Builds the table that sixteen draws select from the shrinking pool
    /// `0..16`: each draw removes the entry it indexes and appends it to the
    /// table. Draws that do not fit the pool give no table.
    pub fn from_draws(draws: &[u64]) -> (res: Option<PermutationTable>)
        ensures
            res is Some <==> valid_draws(draws@),
            res matches Some(table) ==> table@ == table_from_draws(draws@) && is_permutation(
                table@,
            ),
    {
        if draws.len() != UNIT_BITS {
            return None;
        }
        let mut pool: Vec<u8> = Vec::new();
        let mut p: u8 = 0;
        while p < 16
            invariant
                p <= 16,
                pool@.len() == p,
                forall|k: int| 0 <= k < p ==> pool@[k] == k as u8,
            decreases 16 - p,
        {
            pool.push(p);
            p = p + 1;
        }
        assert(pool@ =~= full_pool());
        let mut slots: Vec<u8> = Vec::new();
        let mut i: usize = 0;
        while i < UNIT_BITS
            invariant
                draws@.len() == 16,
                i <= 16,
                pool@ == pool_after(draws@, i as nat),
                pool@.len() == 16 - i,
                slots@.len() == i,
                forall|k: int| 0 <= k < i ==> #[trigger] draws@[k] < 16 - k,
                forall|k: int| 0 <= k < i ==> #[trigger] slots@[k] == table_from_draws(draws@)[k],
            decreases 16 - i,
        {
            let d: u64 = draws[i];
            if d >= (UNIT_BITS - i) as u64 {
                assert(!(draws@[i as int] < 16 - i));
                return None;
            }
            let chosen: u8 = pool.remove(d as usize);
            slots.push(chosen);
            i = i + 1;
        }
        assert(valid_draws(draws@));
        assert(slots@ =~= table_from_draws(draws@));
        proof {
            lemma_table_from_draws_is_permutation(draws@);
        }
        Some(PermutationTable { slots })
    }

    /// The position that the bit at position `i` is moved to.
    pub fn target(&self, i: usize) -> (t: u8)
        requires
            i < 16,
        ensures
            t == self@[i as int],
            t < 16,
    {
        proof {
            use_type_invariant(self);
        }
        self.slots[i]
    }

    /// Moves every bit `i` of `v` to position `table[i]`.
    pub fn permute(&self, v: u16) -> (w: u16)
        ensures
            w == permuted(self@, v),
            is_permutation(self@),
            forall|i: int| 0 <= i < 16 ==> bit_at(w, self@[i] as int) == bit_at(v, i),
    {
        proof {
            use_type_invariant(self);
        }
        let mut res: u16 = 0;
        let mut i: usize = 0;
        while i < UNIT_BITS
            invariant
                i <= 16,
                is_permutation(self.slots@),
                res == scatter(self.slots@, v, i as nat),
            decreases 16 - i,
        {
            let selected: u8 = self.slots[i];
            let cbit: u16 = (v >> (i as u16)) & 1;
            res = res | (cbit << (selected as u16));
            i = i + 1;
        }
        proof {
            assert forall|k: int| 0 <= k < 16 implies bit_at(res, self@[k] as int) == bit_at(
                v,
                k,
            ) by {
                lemma_scatter_bit(self@, v, 16, self@[k] as int);
            }
        }
        res
    }

    /// Moves the bits back: bit `i` of the result is bit `table[i]` of `w`.
    pub fn unpermute(&self, w: u16) -> (v: u16)
        ensures
            v == unpermuted(self@, w),
            is_permutation(self@),
            forall|i: int| 0 <= i < 16 ==> bit_at(v, i) == bit_at(w, self@[i] as int),
    {
        proof {
            use_type_invariant(self);
        }
        let mut res: u16 = 0;
        let mut i: usize = 0;
        while i < UNIT_BITS
            invariant
                i <= 16,
                is_permutation(self.slots@),
                res == gather(self.slots@, w, i as nat),
            decreases 16 - i,
        {
            let selected: u8 = self.slots[i];
            let sbit: u16 = (w >> (selected as u16)) & 1;
            res = res | (sbit << (i as u16));
            i = i + 1;
        }
        proof {
            assert forall|k: int| 0 <= k < 16 implies bit_at(res, k) == bit_at(
                w,
                self@[k] as int,
            ) by {
                lemma_gather_bit(self@, w, 16, k);
            }
        }
        res
    }
}

} // verus!
