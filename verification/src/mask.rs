//! The masked-indexing discipline shared by every backend: a monotonically
//! increasing logical position is translated to a physical slot of a store of
//! `cap` slots by reducing it modulo `cap`. The lemmas here are the whole
//! range-safety argument: a masked position is always in range, masking is the
//! identity once a value is in range, it is injective on any window of fewer
//! than `cap` consecutive positions, and it is blind to shifts by whole
//! multiples of `cap`.
use vstd::prelude::*;

verus! {

use vstd::arithmetic::div_mod::{
    lemma_fundamental_div_mod,
    lemma_mod_bound,
    lemma_mod_multiples_vanish,
    lemma_small_mod,
    lemma_sub_mod_noop,
};

/// The physical slot that logical position `pos` occupies in a store of
/// `cap` slots.
pub open spec fn slot(pos: int, cap: int) -> int {
    pos % cap
}

/// Masks a logical position to a physical slot; the hot path of every access.
pub fn masked_slot(pos: usize, cap: usize) -> (r: usize)
    requires
        0 < cap,
    ensures
        r == slot(pos as int, cap as int),
        r < cap,
{
    proof {
        lemma_mod_bound(pos as int, cap as int);
    }
    pos % cap
}

/// A masked position is a valid index into the backing store.
pub proof fn lemma_slot_in_range(pos: int, cap: int)
    requires
        0 < cap,
        0 <= pos,
    ensures
        0 <= slot(pos, cap) < cap,
{
    lemma_mod_bound(pos, cap);
}

/// Masking is the identity on positions already in range, so it is idempotent.
pub proof fn lemma_slot_small(pos: int, cap: int)
    requires
        0 < cap,
        0 <= pos < cap,
    ensures
        slot(pos, cap) == pos,
{
    lemma_small_mod(pos as nat, cap as nat);
}

/// Within any window of at most `cap` consecutive positions, masking is
/// injective: two positions of the window that share a slot are equal. This
/// is why the live elements of a buffer that never exceeds its capacity
/// occupy distinct slots.
pub proof fn lemma_slot_injective(a: int, b: int, cap: int)
    requires
        0 < cap,
        0 <= a <= b,
        b - a < cap,
        slot(a, cap) == slot(b, cap),
    ensures
        a == b,
{
    lemma_sub_mod_noop(b, a, cap);
    lemma_small_mod(0nat, cap as nat);
    lemma_small_mod((b - a) as nat, cap as nat);
}

/// Shifting a position down by a whole multiple of `cap` does not change its
/// slot; renormalising both logical positions of a buffer by the same
/// multiple of the capacity is therefore invisible at the store.
pub proof fn lemma_slot_shift(pos: int, q: int, cap: int)
    requires
        0 < cap,
    ensures
        slot(pos - cap * q, cap) == slot(pos, cap),
{
    lemma_mod_multiples_vanish(q, pos - cap * q, cap);
}

/// Decomposes a position into the multiple of `cap` below it and its slot.
pub proof fn lemma_slot_decompose(pos: int, cap: int)
    requires
        0 < cap,
        0 <= pos,
    ensures
        pos == cap * (pos / cap) + slot(pos, cap),
        0 <= slot(pos, cap) <= pos,
{
    lemma_fundamental_div_mod(pos, cap);
    lemma_mod_bound(pos, cap);
    vstd::arithmetic::div_mod::lemma_mod_decreases(pos as nat, cap as nat);
}

} // verus!
