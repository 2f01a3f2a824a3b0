//! Layout of the static kernel heap region.
use vstd::prelude::*;

use vstd::arithmetic::power2::{lemma_pow2_pos, pow2};
use vstd::bits::{lemma_usize_low_bits_mask_is_mod, low_bits_mask};

verus! {

/// Size of the static kernel heap in bytes (64 KiB).
pub const SIZE: usize = 64 * 1024;

/// Alignment of the kernel heap start.
pub const ALIGNMENT: usize = 8;

/// `alignment` is a power of two.
pub open spec fn is_power_of_two(alignment: usize) -> bool {
    exists|n: nat| n < usize::BITS && alignment == pow2(n)
}

/// Rounds `address` up to the next multiple of `alignment`, a power of two.
pub fn align_up(address: usize, alignment: usize) -> (r: usize)
    requires
        is_power_of_two(alignment),
        address + alignment - 1 <= usize::MAX,
    ensures
        r % alignment == 0,
        address <= r,
        r - address < alignment,
{
    let ghost n = choose|n: nat| n < usize::BITS && alignment == pow2(n);
    proof {
        lemma_pow2_pos(n);
    }
    let mask = alignment - 1;
    let sum = address + mask;
    let r = sum & !mask;
    assert(r <= sum && sum - r <= mask && r & mask == 0) by (bit_vector)
        requires
            r == sum & !mask,
    ;
    proof {
        assert(low_bits_mask(n) as usize == mask);
        lemma_usize_low_bits_mask_is_mod(r, n);
    }
    r
}

} // verus!
