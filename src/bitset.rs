//! Specifications of the `fixedbitset` operations that the grid relies on.
//!
//! A `FixedBitSet` is modelled by the sequence of its bits: position `i`
//! holds `true` exactly when bit `i` is enabled, and the sequence has the
//! bit set's length.
use fixedbitset::FixedBitSet;
use vstd::prelude::*;

verus! {

#[verifier::external_type_specification]
#[verifier::external_body]
pub struct ExFixedBitSet(FixedBitSet);

/// The bits held by a `FixedBitSet`, in index order; its length is the
/// bit set's length in bits.
pub uninterp spec fn bits_of(s: FixedBitSet) -> Seq<bool>;

/// Whether no bit of the storage words past the length is enabled. Such
/// bits cannot be read, but `grow` brings them back inside the length.
pub uninterp spec fn tail_clear(s: FixedBitSet) -> bool;

/// A sequence of `n` disabled bits.
pub open spec fn all_clear(n: nat) -> Seq<bool> {
    Seq::new(n, |i: int| false)
}

/// Whether bit `i` is enabled in the word sequence `blocks`, where word `k`
/// holds bits `k * usize::BITS` up to the next word, least significant first.
pub open spec fn block_bit(blocks: Seq<usize>, i: int) -> bool {
    (blocks[i / (usize::BITS as int)] >> ((i % (usize::BITS as int)) as usize)) & 1usize == 1usize
}

/// Relies on `FixedBitSet::with_capacity`: `bits` bits, all initially clear.
pub assume_specification[ FixedBitSet::with_capacity ](bits: usize) -> (r: FixedBitSet)
    ensures
        bits_of(r) == all_clear(bits as nat),
        tail_clear(r),
;

/// Relies on `FixedBitSet::len`: the length in bits.
pub assume_specification[ FixedBitSet::len ](s: &FixedBitSet) -> (r: usize)
    ensures
        r as nat == bits_of(*s).len(),
;

/// Relies on `FixedBitSet::contains`: whether the bit is enabled; bits
/// outside the length read as disabled.
pub assume_specification[ FixedBitSet::contains ](s: &FixedBitSet, bit: usize) -> (r: bool)
    ensures
        r == (bit < bits_of(*s).len() && bits_of(*s)[bit as int]),
;

/// Relies on `FixedBitSet::set`: sets one bit; it panics out of bounds.
pub assume_specification[ FixedBitSet::set ](s: &mut FixedBitSet, bit: usize, enabled: bool)
    requires
        bit < bits_of(*old(s)).len(),
    ensures
        bits_of(*final(s)) == bits_of(*old(s)).update(bit as int, enabled),
        tail_clear(*final(s)) == tail_clear(*old(s)),
;

/// Relies on `FixedBitSet::toggle`: inverts one bit; it panics out of bounds.
pub assume_specification[ FixedBitSet::toggle ](s: &mut FixedBitSet, bit: usize)
    requires
        bit < bits_of(*old(s)).len(),
    ensures
        bits_of(*final(s)) == bits_of(*old(s)).update(bit as int, !bits_of(*old(s))[bit as int]),
        tail_clear(*final(s)) == tail_clear(*old(s)),
;

/// Relies on `FixedBitSet::grow`: grows the length to `bits` when it is
/// larger, keeping the bits there were; otherwise nothing changes. The new
/// bits come from zeroed words and from the unused bits of the last word, so
/// they are clear when those unused bits were.
pub assume_specification[ FixedBitSet::grow ](s: &mut FixedBitSet, bits: usize)
    ensures
        bits > bits_of(*old(s)).len() ==> bits_of(*final(s)).len() == bits && bits_of(
            *final(s),
        ).subrange(0, bits_of(*old(s)).len() as int) == bits_of(*old(s)),
        bits > bits_of(*old(s)).len() && tail_clear(*old(s)) ==> bits_of(*final(s)) == bits_of(
            *old(s),
        ) + all_clear((bits - bits_of(*old(s)).len()) as nat),
        bits <= bits_of(*old(s)).len() ==> bits_of(*final(s)) == bits_of(*old(s)),
        tail_clear(*old(s)) ==> tail_clear(*final(s)),
;

/// Relies on `FixedBitSet::clear`: disables every bit, keeping the length.
pub assume_specification[ FixedBitSet::clear ](s: &mut FixedBitSet)
    ensures
        bits_of(*final(s)) == all_clear(bits_of(*old(s)).len()),
        tail_clear(*final(s)),
;

/// Relies on `FixedBitSet::as_slice`: the backing words, just enough of them
/// for the length, bit `i` in word `i / usize::BITS` at position
/// `i % usize::BITS`.
pub assume_specification[ FixedBitSet::as_slice ](s: &FixedBitSet) -> (r: &[usize])
    ensures
        r@.len() == (bits_of(*s).len() + usize::BITS as int - 1) / (usize::BITS as int),
        forall|i: int| 0 <= i < bits_of(*s).len() ==> #[trigger] block_bit(r@, i) == bits_of(*s)[i],
;

} // verus!
