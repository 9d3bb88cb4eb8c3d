//! Per-entity signatures are `bitset::BitSet` values. Verus does not read
//! that crate: what this module states about it is taken on trust from the
//! crate's source.

use bitset::BitSet;
use vstd::prelude::*;

verus! {

/// `bitset::BitSet`: a vector of 64-bit blocks together with the number of
/// bits it was made with. Its contents are opaque to the verifier.
#[verifier::external_type_specification]
#[verifier::external_body]
pub struct ExBitSet(bitset::BitSet);

/// The positions of the bits of a `BitSet` that are 1.
pub uninterp spec fn bitset_ones(bits: BitSet) -> Set<nat>;

/// The number of bits that a `BitSet` was made with.
pub uninterp spec fn bitset_size(bits: BitSet) -> nat;

/// The number of bit positions that a `BitSet` made with `nbits` bits keeps:
/// it stores whole blocks of 64.
pub open spec fn bitset_room(nbits: nat) -> nat {
    if nbits % 64 == 0 {
        nbits
    } else {
        (nbits / 64 + 1) * 64
    }
}

/// `BitSet::with_capacity` pushes one zero block for every 64 bits asked
/// for, rounded up, and records the number asked for: no bit is 1.
pub assume_specification[ BitSet::with_capacity ](nbits: usize) -> (bits: BitSet)
    ensures
        bitset_size(bits) == nbits,
        bitset_ones(bits) == Set::<nat>::empty(),
;

/// `BitSet::test` indexes the block that holds `bit_idx` and returns that
/// bit. The index panics outside the stored blocks, so such positions are
/// left out.
pub assume_specification[ BitSet::test ](bits: &BitSet, bit_idx: usize) -> (set: bool)
    requires
        bit_idx < bitset_room(bitset_size(*bits)),
    ensures
        set == bitset_ones(*bits).contains(bit_idx as nat),
;

/// `BitSet::set` writes `v` to the bit at `bit_idx` where a block holds that
/// position, and does nothing where none does. The number of bits stays.
pub assume_specification[ BitSet::set ](bits: &mut BitSet, bit_idx: usize, v: bool)
    ensures
        bitset_size(*final(bits)) == bitset_size(*old(bits)),
        bitset_ones(*final(bits)) == if bit_idx >= bitset_room(bitset_size(*old(bits))) {
            bitset_ones(*old(bits))
        } else if v {
            bitset_ones(*old(bits)).insert(bit_idx as nat)
        } else {
            bitset_ones(*old(bits)).remove(bit_idx as nat)
        },
;

/// `BitSet::reset` writes zero to every block: no bit is 1 afterwards. The
/// number of bits stays.
pub assume_specification[ BitSet::reset ](bits: &mut BitSet)
    ensures
        bitset_size(*final(bits)) == bitset_size(*old(bits)),
        bitset_ones(*final(bits)) == Set::<nat>::empty(),
;

} // verus!
