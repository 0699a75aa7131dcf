//! Reading and writing a run of bits at any bit position of a byte buffer,
//! one byte of the buffer at a time.

use vstd::prelude::*;
use vstd::arithmetic::div_mod::lemma_div_denominator;
use vstd::arithmetic::power2::{lemma_pow2_adds, lemma_pow2_pos, pow2};
use vstd::bits::lemma_u128_shr_is_div;
use crate::bits::{first, last, low_mask, mid};
use crate::model::{byte_bit, field_value, fits, in_buffer, write_bits, written_bit, written_byte};
use crate::model::{lemma_byte_of_its_bits, lemma_field_value_fits, lemma_fits_shift};
use crate::storage::LastByte;

verus! {

/// Whether `val` fits in `bits` bits.
pub fn fits_in(val: u128, bits: usize) -> (r: bool)
    ensures
        r == fits(val, bits as nat),
{
    if bits >= 128 {
        true
    } else {
        proof {
            lemma_fits_shift(val, bits as nat);
        }
        val >> bits == 0
    }
}

/// Reads the `bits` bits from bit `offset` on.
pub fn get_bits(data: &[u8], offset: usize, bits: usize) -> (out: u128)
    requires
        in_buffer(data@, offset as int, bits as int),
    ensures
        out == field_value(data@, offset as int, bits as nat),
        fits(out, bits as nat),
{
    proof {
        lemma_field_value_fits(data@, offset as int, bits as nat);
    }
    let mut byte_idx: usize = offset / 8;
    let mut bit: usize = offset % 8;
    let mut remaining: usize = bits;
    let mut out: u128 = 0;
    while remaining > 0
        invariant
            remaining <= bits <= 128,
            offset + bits <= 8 * data@.len(),
            bit < 8,
            remaining > 0 ==> 8 * byte_idx + bit == offset + (bits - remaining),
            out == field_value(data@, offset as int, (bits - remaining) as nat),
        decreases remaining,
    {
        let done: usize = bits - remaining;
        let take: usize = if remaining < 8 - bit {
            remaining
        } else {
            8 - bit
        };
        let b: u8 = data[byte_idx];
        let chunk: u8 = if take == 8 {
            b
        } else {
            mid(b, bit, take) >> bit
        };
        proof {
            if take == 8 {
                assert(b == (b >> 0u8) & 0xffu8) by (bit_vector);
            } else {
                lemma_mid_chunk(b, bit as u8, take as u8);
            }
            lemma_field_value_extend(data@, offset as int, done as nat, chunk, bit as nat, take as nat, take as nat);
            lemma_chunk(b, chunk, bit as u8, take as u8, 0);
        }
        out = out | ((chunk as u128) << done);
        remaining -= take;
        byte_idx += 1;
        bit = 0;
    }
    out
}

/// Writes the `bits` lowest bits of `val` from bit `offset` on, and keeps
/// every other bit of the buffer.
pub fn set_bits(data: &mut [u8], offset: usize, bits: usize, val: u128)
    requires
        in_buffer(old(data)@, offset as int, bits as int),
    ensures
        final(data)@ == write_bits(old(data)@, offset as int, bits as nat, val),
{
    let ghost before = data@;
    let ghost start_byte = (offset / 8) as int;
    let mut byte_idx: usize = offset / 8;
    let mut bit: usize = offset % 8;
    let mut remaining: usize = bits;
    let mut rest: u128 = val;
    assert(val >> 0u128 == val) by (bit_vector);
    while remaining > 0
        invariant
            remaining <= bits <= 128,
            data@.len() == before.len(),
            offset + bits <= 8 * before.len(),
            bit < 8,
            bit > 0 ==> remaining == bits,
            8 * start_byte <= offset < 8 * start_byte + 8,
            start_byte <= byte_idx,
            remaining > 0 ==> 8 * byte_idx + bit == offset + (bits - remaining),
            remaining > 0 ==> rest == val >> ((bits - remaining) as u128),
            remaining == 0 ==> bits == 0 || 8 * byte_idx >= offset + bits,
            forall|j: int|
                0 <= j < before.len() ==> data@[j] == (if start_byte <= j < byte_idx {
                    written_byte(before, offset as int, bits as nat, val, j)
                } else {
                    before[j]
                }),
        decreases remaining,
    {
        let done: usize = bits - remaining;
        let take: usize = if remaining < 8 - bit {
            remaining
        } else {
            8 - bit
        };
        let old_byte: u8 = data[byte_idx];
        let low8: u8 = rest.last_byte();
        let new_byte: u8 = if take == 8 {
            low8
        } else {
            first(old_byte, bit) | mid(low8 << bit, bit, take) | last(old_byte, 8 - take - bit)
        };
        proof {
            let j = byte_idx as int;
            assert forall|k: int| 0 <= k < 8 implies byte_bit(new_byte, k) == written_bit(
                before,
                offset as int,
                bits as nat,
                val,
                8 * j + k,
            ) by {
                lemma_merged_byte(old_byte, low8, rest, bit as u8, take as u8, k as u8);
                if bit <= k < bit + take {
                    lemma_shift_twice(val, done as u128, (k - bit) as u128);
                }
            }
            lemma_byte_of_its_bits(
                new_byte,
                |k: int| written_bit(before, offset as int, bits as nat, val, 8 * j + k),
            );
            if remaining - take > 0 {
                lemma_shift_twice(val, done as u128, take as u128);
            }
        }
        data[byte_idx] = new_byte;
        rest = rest >> take;
        remaining -= take;
        byte_idx += 1;
        bit = 0;
    }
    proof {
        assert forall|j: int| 0 <= j < before.len() implies data@[j] == written_byte(
            before,
            offset as int,
            bits as nat,
            val,
            j,
        ) by {
            if !(start_byte <= j < byte_idx) {
                lemma_byte_of_its_bits(
                    before[j],
                    |k: int| written_bit(before, offset as int, bits as nat, val, 8 * j + k),
                );
            }
        }
    }
}

/// Nothing is added by a chunk of which no bit is taken.
proof fn lemma_accumulate_none(acc: u128, chunk: u128, done: u128)
    by (bit_vector)
    ensures
        acc | ((chunk & !(u128::MAX << 0u128)) << done) == acc,
{
}

/// Taking bit `j` of a chunk as well adds that bit at place `done + j`.
proof fn lemma_accumulate(acc: u128, chunk: u128, done: u128, j: u128)
    by (bit_vector)
    requires
        j < 8,
        done + j < 128,
    ensures
        (chunk >> j) & 1 == 1 ==> (acc | ((chunk & !(u128::MAX << j)) << done)) | (1u128 << ((done
            + j) as u128)) == acc | ((chunk & !(u128::MAX << ((j + 1) as u128))) << done),
        (chunk >> j) & 1 != 1 ==> acc | ((chunk & !(u128::MAX << j)) << done) == acc | ((chunk & !(
        u128::MAX << ((j + 1) as u128))) << done),
{
}

/// The bits of a chunk are the bits `start .. start + len` of its byte, and
/// the chunk has no bit above them.
proof fn lemma_chunk(b: u8, chunk: u8, start: u8, len: u8, j: u8)
    by (bit_vector)
    requires
        start < 8,
        len <= 8,
        start + len <= 8,
        chunk == (b >> start) & (if len >= 8 { 0xffu8 } else { !(0xffu8 << len) }),
        j < len,
    ensures
        ((chunk as u128) >> (j as u128)) & 1 == 1 <==> (b >> ((start + j) as u8)) & 1 == 1,
        (chunk as u128) & !(u128::MAX << (len as u128)) == chunk as u128,
{
}

/// A run of bits that is cut out and moved down is the byte moved down and
/// then cut.
proof fn lemma_mid_chunk(b: u8, start: u8, len: u8)
    by (bit_vector)
    requires
        start < 8,
        0 < len,
        start + len <= 8,
    ensures
        (b & ((if start + len >= 8 { 0xffu8 } else { !(0xffu8 << ((start + len) as u8)) })
            & !!(0xffu8 << start))) >> start
            == (b >> start) & (if len >= 8 { 0xffu8 } else { !(0xffu8 << len) }),
{
}

/// Reading `len` more bits, all from one byte, ORs them in above the bits
/// already read.
proof fn lemma_field_value_extend(data: Seq<u8>, offset: int, done: nat, chunk: u8, start: nat, len: nat, j: nat)
    requires
        0 <= offset,
        start + len <= 8,
        done + len <= 128,
        (offset + done) % 8 == start,
        (offset + done) / 8 < data.len(),
        chunk == (data[(offset + done) / 8] >> (start as u8)) & low_mask(len),
        j <= len,
    ensures
        field_value(data, offset, done + j) == field_value(data, offset, done) | (((chunk as u128)
            & !(u128::MAX << (j as u128))) << (done as u128)),
    decreases j,
{
    let acc = field_value(data, offset, done);
    let b = data[(offset + done) / 8];
    if j == 0 {
        lemma_accumulate_none(acc, chunk as u128, done as u128);
    } else {
        let i = (j - 1) as nat;
        lemma_field_value_extend(data, offset, done, chunk, start, len, i);
        lemma_accumulate(acc, chunk as u128, done as u128, i as u128);
        lemma_chunk(b, chunk, start as u8, len as u8, i as u8);
    }
}

/// Bit `k` of a byte put together from the old bits below a run, the low
/// bits of `v` in the run, and the old bits above it.
proof fn lemma_merged_byte(old_byte: u8, low8: u8, v: u128, start: u8, len: u8, k: u8)
    by (bit_vector)
    requires
        start < 8,
        0 < len,
        start + len <= 8,
        low8 == v % 256,
        k < 8,
    ensures
        ({
            let below = !(0xffu8 << start);
            let upto = if start + len >= 8 {
                0xffu8
            } else {
                !(0xffu8 << ((start + len) as u8))
            };
            let merged = (old_byte & below) | ((low8 << start) & (upto & !below)) | (old_byte & !upto);
            ((merged >> k) & 1 == 1) == (if start <= k && k < start + len {
                (v >> ((k - start) as u128)) & 1 == 1
            } else {
                (old_byte >> k) & 1 == 1
            })
        }),
        start == 0 && len == 8 ==> (old_byte & !(0xffu8 << start)) | ((low8 << start) & (0xffu8 & !!(
        0xffu8 << start))) | (old_byte & !0xffu8) == low8,
{
}

/// Shifting right twice is shifting right once by the sum.
proof fn lemma_shift_twice(v: u128, done: u128, more: u128)
    requires
        done + more < 128,
    ensures
        (v >> done) >> more == v >> ((done + more) as u128),
{
    lemma_u128_shr_is_div(v, done);
    lemma_u128_shr_is_div(v >> done, more);
    lemma_u128_shr_is_div(v, (done + more) as u128);
    lemma_pow2_pos(done as nat);
    lemma_pow2_pos(more as nat);
    lemma_div_denominator(v as int, pow2(done as nat) as int, pow2(more as nat) as int);
    lemma_pow2_adds(done as nat, more as nat);
}

} // verus!
