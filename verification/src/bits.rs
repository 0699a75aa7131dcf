//! The bits of a single byte: its lowest bits, its highest bits, or a run of
//! bits in between.

use vstd::prelude::*;

verus! {

/// The byte whose `n` lowest bits are set, for `n` below eight.
pub open spec fn low_bits(n: u8) -> u8 {
    !(0xffu8 << n)
}

/// The byte whose `n` lowest bits are set; all eight once `n` reaches eight.
pub open spec fn low_mask(n: nat) -> u8 {
    if n >= 8 {
        0xff
    } else {
        low_bits(n as u8)
    }
}

/// The byte whose `n` highest bits are set; all eight once `n` reaches eight.
pub open spec fn high_mask(n: nat) -> u8 {
    if n >= 8 {
        0xff
    } else {
        !low_mask((8 - n) as nat)
    }
}

/// The mask of the bits `start .. start + len` of a byte.
pub open spec fn range_mask(start: nat, len: nat) -> u8 {
    low_mask(start + len) & !low_mask(start)
}

/// The mask of the `n` lowest bits, written as a power of two less one or as
/// a shifted byte, and what the empty and the full mask do.
proof fn lemma_masks(b: u8, n: u8)
    by (bit_vector)
    requires
        n < 8,
    ensures
        1u8 << n >= 1,
        ((1u8 << n) - 1) as u8 == !(0xffu8 << n),
        b & 0 == 0,
        b & 0xff == b,
        !0xffu8 == 0,
        !(0xffu8 << 0u8) == 0,
        b & !0u8 == b,
{
}

/// A mask of `len` low bits moved up by `start` is the mask of the run
/// `start .. start + len`.
proof fn lemma_shifted_mask(start: u8, len: u8)
    by (bit_vector)
    requires
        0 < start,
        start + len < 8,
    ensures
        (!(0xffu8 << len)) << start == !(0xffu8 << ((start + len) as u8)) & !!(0xffu8 << start),
{
}

/// The `n` lowest bits of `b`, the others cleared.
pub fn first(b: u8, n: usize) -> (r: u8)
    ensures
        r == b & low_mask(n as nat),
{
    if n == 0 {
        proof {
            lemma_masks(b, 0);
        }
        0
    } else if n < 8 {
        proof {
            lemma_masks(b, n as u8);
        }
        b & ((1u8 << n) - 1)
    } else {
        proof {
            lemma_masks(b, 0);
        }
        b
    }
}

/// The `n` highest bits of `b`, the others cleared.
pub fn last(b: u8, n: usize) -> (r: u8)
    ensures
        r == b & high_mask(n as nat),
{
    if n == 0 {
        proof {
            lemma_masks(b, 0);
        }
        0
    } else if n < 8 {
        proof {
            lemma_masks(b, (8 - n) as u8);
        }
        b & !((1u8 << (8 - n)) - 1)
    } else {
        proof {
            lemma_masks(b, 0);
        }
        b
    }
}

/// The bits `start .. start + len` of `b`, the others cleared.
pub fn mid(b: u8, start: usize, len: usize) -> (r: u8)
    ensures
        r == b & range_mask(start as nat, len as nat),
{
    if start == 0 {
        proof {
            lemma_masks(b, 0);
            let m = low_mask(len as nat);
            assert(m & !0u8 == m) by (bit_vector);
        }
        first(b, len)
    } else if start >= 8 {
        proof {
            lemma_masks(b, 0);
            assert(0xffu8 & !0xffu8 == 0) by (bit_vector);
        }
        0
    } else if len >= 8 - start {
        assert(b & !low_mask(start as nat) == b & (0xffu8 & !low_mask(start as nat))) by {
            let m = low_mask(start as nat);
            assert(b & !m == b & (0xffu8 & !m)) by (bit_vector);
        }
        last(b, 8 - start)
    } else {
        proof {
            lemma_masks(b, len as u8);
            lemma_shifted_mask(start as u8, len as u8);
        }
        b & (((1u8 << len) - 1) << start)
    }
}

/// A low mask, what a wider low mask adds to it, and what is above the wider
/// one share no bit and fill the byte.
proof fn lemma_partition(below: u8, upto: u8)
    by (bit_vector)
    requires
        below & upto == below,
    ensures
        below | (upto & !below) | !upto == 0xff,
        below & (upto & !below) == 0,
        below & !upto == 0,
        (upto & !below) & !upto == 0,
{
}

/// A low mask lies inside every wider low mask.
proof fn lemma_nested_masks(a: u8, b: u8)
    by (bit_vector)
    requires
        a <= b,
        b < 8,
    ensures
        !(0xffu8 << a) & !(0xffu8 << b) == !(0xffu8 << a),
        !(0xffu8 << a) & 0xff == !(0xffu8 << a),
{
}

/// The bits below a run, the run, and the bits above it share no bit and
/// together are the whole byte.
pub proof fn lemma_masks_partition(start: nat, len: nat)
    requires
        start + len <= 8,
    ensures
        low_mask(start) | range_mask(start, len) | high_mask((8 - start - len) as nat) == 0xff,
        low_mask(start) & range_mask(start, len) == 0,
        low_mask(start) & high_mask((8 - start - len) as nat) == 0,
        range_mask(start, len) & high_mask((8 - start - len) as nat) == 0,
{
    let below = low_mask(start);
    let upto = low_mask(start + len);
    if start + len < 8 {
        lemma_nested_masks(start as u8, (start + len) as u8);
    } else if start < 8 {
        lemma_nested_masks(start as u8, start as u8);
    } else {
        assert(0xffu8 & 0xffu8 == 0xffu8) by (bit_vector);
    }
    assert(high_mask((8 - start - len) as nat) == !upto) by {
        if start + len == 0 {
            assert(!low_bits(0) == 0xff) by (bit_vector);
        }
    }
    lemma_partition(below, upto);
}

} // verus!
