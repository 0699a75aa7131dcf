//! The model of a packed buffer, bit by bit.
//!
//! [`bit_at`] is one bit of a buffer, [`field_value`] is the number that a run
//! of bits spells, and [`write_bits`] is the buffer in which a run of bits was
//! replaced and every other bit kept. The proof functions state what holds of
//! them: what is written is read back, and a write shows in no other field.

use vstd::prelude::*;
use vstd::arithmetic::div_mod::{lemma_basic_div, lemma_div_non_zero};
use vstd::arithmetic::power2::{lemma2_to64, lemma_pow2_pos, pow2};
use vstd::bits::lemma_u128_shr_is_div;

verus! {

/// The widest field, in bits.
pub const MAX_BITS: usize = 128;

/// Bit `k` of a byte; bit 0 is the least significant.
pub open spec fn byte_bit(b: u8, k: int) -> bool {
    0 <= k < 8 && (b >> (k as u8)) & 1 == 1
}

/// Bit `k` of a raw value; bit 0 is the least significant.
pub open spec fn raw_bit(v: u128, k: int) -> bool {
    0 <= k < 128 && (v >> (k as u128)) & 1 == 1
}

/// Bit `i` of a buffer: bit `i % 8` of byte `i / 8`.
pub open spec fn bit_at(data: Seq<u8>, i: int) -> bool {
    byte_bit(data[i / 8], i % 8)
}

/// Whether the `bits` bits from bit `offset` on lie inside the buffer.
pub open spec fn in_buffer(data: Seq<u8>, offset: int, bits: int) -> bool {
    0 <= offset && 0 <= bits <= MAX_BITS && offset + bits <= 8 * data.len()
}

/// The number spelled by the `bits` bits from bit `offset` on, the first of
/// them being the least significant.
pub open spec fn field_value(data: Seq<u8>, offset: int, bits: nat) -> u128
    decreases bits,
{
    if bits == 0 {
        0
    } else {
        let lower = field_value(data, offset, (bits - 1) as nat);
        if bit_at(data, offset + bits - 1) {
            lower | (1u128 << ((bits - 1) as u128))
        } else {
            lower
        }
    }
}

/// The raw value whose `n` lowest bits are set.
pub open spec fn raw_mask(n: nat) -> u128 {
    if n >= 128 {
        u128::MAX
    } else {
        !(u128::MAX << (n as u128))
    }
}

/// Whether a raw value fits in `bits` bits: whether it is below `2^bits`.
pub open spec fn fits(v: u128, bits: nat) -> bool {
    bits >= 128 || (v as nat) < pow2(bits)
}

/// The byte whose bit `k` is `f(k)`.
pub open spec fn byte_of_bits(f: spec_fn(int) -> bool) -> u8 {
    (if f(0) { 0x01u8 } else { 0 }) | (if f(1) { 0x02u8 } else { 0 }) | (if f(2) { 0x04u8 } else { 0 })
        | (if f(3) { 0x08u8 } else { 0 }) | (if f(4) { 0x10u8 } else { 0 }) | (if f(5) { 0x20u8 } else { 0 })
        | (if f(6) { 0x40u8 } else { 0 }) | (if f(7) { 0x80u8 } else { 0 })
}

/// Bit `i` of a buffer after the `bits` lowest bits of `val` were written from
/// bit `offset` on: a bit of `val` inside the field, the old bit outside it.
pub open spec fn written_bit(data: Seq<u8>, offset: int, bits: nat, val: u128, i: int) -> bool {
    if offset <= i < offset + bits {
        raw_bit(val, i - offset)
    } else {
        bit_at(data, i)
    }
}

/// Byte `j` of that buffer.
pub open spec fn written_byte(data: Seq<u8>, offset: int, bits: nat, val: u128, j: int) -> u8 {
    byte_of_bits(|k: int| written_bit(data, offset, bits, val, 8 * j + k))
}

/// The buffer after the `bits` lowest bits of `val` were written from bit
/// `offset` on. Its length is that of `data`.
pub open spec fn write_bits(data: Seq<u8>, offset: int, bits: nat, val: u128) -> Seq<u8> {
    Seq::new(data.len(), |j: int| written_byte(data, offset, bits, val, j))
}

/// A byte is the sum of its eight bits.
proof fn lemma_eight_bits(b: u8, f0: bool, f1: bool, f2: bool, f3: bool, f4: bool, f5: bool, f6: bool, f7: bool)
    by (bit_vector)
    requires
        f0 == ((b >> 0u8) & 1 == 1),
        f1 == ((b >> 1u8) & 1 == 1),
        f2 == ((b >> 2u8) & 1 == 1),
        f3 == ((b >> 3u8) & 1 == 1),
        f4 == ((b >> 4u8) & 1 == 1),
        f5 == ((b >> 5u8) & 1 == 1),
        f6 == ((b >> 6u8) & 1 == 1),
        f7 == ((b >> 7u8) & 1 == 1),
    ensures
        b == (if f0 { 0x01u8 } else { 0 }) | (if f1 { 0x02u8 } else { 0 }) | (if f2 { 0x04u8 } else { 0 })
            | (if f3 { 0x08u8 } else { 0 }) | (if f4 { 0x10u8 } else { 0 }) | (if f5 { 0x20u8 } else { 0 })
            | (if f6 { 0x40u8 } else { 0 }) | (if f7 { 0x80u8 } else { 0 }),
{
}

/// A byte is the byte made of its own bits.
pub proof fn lemma_byte_of_its_bits(b: u8, f: spec_fn(int) -> bool)
    requires
        forall|k: int| 0 <= k < 8 ==> f(k) == byte_bit(b, k),
    ensures
        byte_of_bits(f) == b,
{
    assert(f(0) == byte_bit(b, 0));
    assert(f(1) == byte_bit(b, 1));
    assert(f(2) == byte_bit(b, 2));
    assert(f(3) == byte_bit(b, 3));
    assert(f(4) == byte_bit(b, 4));
    assert(f(5) == byte_bit(b, 5));
    assert(f(6) == byte_bit(b, 6));
    assert(f(7) == byte_bit(b, 7));
    lemma_eight_bits(b, f(0), f(1), f(2), f(3), f(4), f(5), f(6), f(7));
}

/// The bits of a sum of eight bits are those bits.
proof fn lemma_bits_of_eight(f0: bool, f1: bool, f2: bool, f3: bool, f4: bool, f5: bool, f6: bool, f7: bool)
    by (bit_vector)
    ensures
        ({
            let b = (if f0 { 0x01u8 } else { 0 }) | (if f1 { 0x02u8 } else { 0 }) | (if f2 { 0x04u8 } else { 0 })
                | (if f3 { 0x08u8 } else { 0 }) | (if f4 { 0x10u8 } else { 0 }) | (if f5 { 0x20u8 } else { 0 })
                | (if f6 { 0x40u8 } else { 0 }) | (if f7 { 0x80u8 } else { 0 });
            &&& f0 == ((b >> 0u8) & 1 == 1)
            &&& f1 == ((b >> 1u8) & 1 == 1)
            &&& f2 == ((b >> 2u8) & 1 == 1)
            &&& f3 == ((b >> 3u8) & 1 == 1)
            &&& f4 == ((b >> 4u8) & 1 == 1)
            &&& f5 == ((b >> 5u8) & 1 == 1)
            &&& f6 == ((b >> 6u8) & 1 == 1)
            &&& f7 == ((b >> 7u8) & 1 == 1)
        }),
{
}

/// Bit `k` of the byte made of the bits `f` is `f(k)`.
pub proof fn lemma_bit_of_byte_of_bits(f: spec_fn(int) -> bool, k: int)
    requires
        0 <= k < 8,
    ensures
        byte_bit(byte_of_bits(f), k) == f(k),
{
    lemma_bits_of_eight(f(0), f(1), f(2), f(3), f(4), f(5), f(6), f(7));
}

/// Two buffers of one length with the same bits are the same buffer.
pub proof fn lemma_equal_bits_equal_buffers(a: Seq<u8>, b: Seq<u8>)
    requires
        a.len() == b.len(),
        forall|i: int| 0 <= i < 8 * a.len() ==> #[trigger] bit_at(a, i) == bit_at(b, i),
    ensures
        a == b,
{
    assert forall|j: int| 0 <= j < a.len() implies a[j] == b[j] by {
        let f = |k: int| byte_bit(b[j], k);
        assert forall|k: int| 0 <= k < 8 implies f(k) == byte_bit(a[j], k) by {
            assert(bit_at(a, 8 * j + k) == bit_at(b, 8 * j + k));
            assert((8 * j + k) / 8 == j);
            assert((8 * j + k) % 8 == k);
        }
        lemma_byte_of_its_bits(a[j], f);
        lemma_byte_of_its_bits(b[j], f);
    }
    assert(a =~= b);
}

/// Every bit of the buffer that [`write_bits`] describes: a bit of the value
/// inside the field, the bit that was there outside it.
pub proof fn lemma_bit_after_write(data: Seq<u8>, offset: int, bits: nat, val: u128, i: int)
    requires
        0 <= i < 8 * data.len(),
    ensures
        bit_at(write_bits(data, offset, bits, val), i) == written_bit(data, offset, bits, val, i),
{
    let j = i / 8;
    let k = i % 8;
    lemma_bit_of_byte_of_bits(|k: int| written_bit(data, offset, bits, val, 8 * j + k), k);
    assert(write_bits(data, offset, bits, val)[j] == written_byte(data, offset, bits, val, j));
}

/// A value fits in `bits` bits exactly when nothing is left of it after a
/// shift to the right by `bits`.
pub proof fn lemma_fits_shift(val: u128, bits: nat)
    requires
        bits < 128,
    ensures
        fits(val, bits) <==> val >> (bits as u128) == 0,
{
    lemma_u128_shr_is_div(val, bits as u128);
    lemma_pow2_pos(bits);
    if (val as nat) < pow2(bits) {
        lemma_basic_div(val as int, pow2(bits) as int);
    } else {
        lemma_div_non_zero(val as int, pow2(bits) as int);
    }
}

/// The `m + 1` lowest bits of a value are its `m` lowest bits and its bit
/// `m`; a value with nothing from bit `m` on is its own `m` lowest bits.
proof fn lemma_mask_step(v: u128, m: u128)
    by (bit_vector)
    requires
        m < 128,
    ensures
        v & !(u128::MAX << 0u128) == 0,
        ({
            let upto = if m + 1 >= 128 {
                u128::MAX
            } else {
                !(u128::MAX << ((m + 1) as u128))
            };
            &&& (v >> m) & 1 == 1 ==> (v & !(u128::MAX << m)) | (1u128 << m) == v & upto
            &&& (v >> m) & 1 != 1 ==> v & !(u128::MAX << m) == v & upto
        }),
        v >> m == 0 ==> v & !(u128::MAX << m) == v,
        v & u128::MAX == v,
{
}

/// A value that fits in `bits` bits is its own `bits` lowest bits.
pub proof fn lemma_fits_mask(val: u128, bits: nat)
    requires
        fits(val, bits),
    ensures
        val & raw_mask(bits) == val,
{
    if bits >= 128 {
        lemma_mask_step(val, 0);
    } else {
        lemma_fits_shift(val, bits);
        lemma_mask_step(val, bits as u128);
    }
}

/// A value below `2^m`, with or without bit `m` set, is below `2^(m + 1)`.
proof fn lemma_one_more_bit(lower: u128, m: u128)
    by (bit_vector)
    requires
        m < 127,
        lower >> m == 0,
    ensures
        (lower | (1u128 << m)) >> ((m + 1) as u128) == 0,
        lower >> ((m + 1) as u128) == 0,
{
}

/// The value of a field fits in the width of the field.
pub proof fn lemma_field_value_fits(data: Seq<u8>, offset: int, bits: nat)
    ensures
        fits(field_value(data, offset, bits), bits),
    decreases bits,
{
    if bits == 0 {
        lemma2_to64();
    } else if bits < 128 {
        let m = (bits - 1) as nat;
        let lower = field_value(data, offset, m);
        lemma_field_value_fits(data, offset, m);
        lemma_fits_shift(lower, m);
        lemma_one_more_bit(lower, m as u128);
        lemma_fits_shift(field_value(data, offset, bits), bits);
    }
}

/// Setting bit `m` of a value below `2^m` sets that bit and changes no bit
/// below it.
proof fn lemma_top_bit(lower: u128, m: u128, k: u128)
    by (bit_vector)
    requires
        k <= m,
        m < 128,
        lower >> m == 0,
    ensures
        k < m ==> (((lower | (1u128 << m)) >> k) & 1 == 1) == ((lower >> k) & 1 == 1),
        ((lower | (1u128 << m)) >> m) & 1 == 1,
        (lower >> m) & 1 != 1,
{
}

/// Bit `k` of the value of a field is bit `k` of the field.
pub proof fn lemma_bit_of_field_value(data: Seq<u8>, offset: int, bits: nat, k: int)
    requires
        0 <= k < bits <= 128,
    ensures
        raw_bit(field_value(data, offset, bits), k) == bit_at(data, offset + k),
    decreases bits,
{
    let m = (bits - 1) as nat;
    let lower = field_value(data, offset, m);
    lemma_field_value_fits(data, offset, m);
    lemma_fits_shift(lower, m);
    lemma_top_bit(lower, m as u128, k as u128);
    if k < m {
        lemma_bit_of_field_value(data, offset, m, k);
    }
}

/// The bits of two values joined at `low`: those of the first below `low`,
/// those of the second from `low` on.
proof fn lemma_joined_bit(low_part: u128, high_part: u128, low: u128, k: u128)
    by (bit_vector)
    requires
        low < 128,
        k < 128,
        low_part >> low == 0,
    ensures
        k < low ==> (((low_part | (high_part << low)) >> k) & 1 == 1) == ((low_part >> k) & 1 == 1),
        k >= low ==> (((low_part | (high_part << low)) >> k) & 1 == 1) == ((high_part >> ((k
            - low) as u128)) & 1 == 1),
{
}

/// Two values of `low` and `high` bits joined at `low` have `low + high`
/// bits.
proof fn lemma_joined_fits(low_part: u128, high_part: u128, low: u128, high: u128)
    by (bit_vector)
    requires
        low + high < 128,
        low_part >> low == 0,
        high_part >> high == 0,
    ensures
        (low_part | (high_part << low)) >> ((low + high) as u128) == 0,
{
}

/// A field is its first `low` bits with its other bits above them: the bits
/// that come first in the buffer are the least significant.
pub proof fn lemma_field_value_joined(data: Seq<u8>, offset: int, low: nat, high: nat)
    requires
        low + high <= 128,
    ensures
        field_value(data, offset, low + high) == field_value(data, offset, low) | (field_value(
            data,
            offset + low,
            high,
        ) << (low as u128)),
{
    let low_part = field_value(data, offset, low);
    let high_part = field_value(data, offset + low, high);
    if high == 0 {
        let shift = low as u128;
        assert(low_part | (0u128 << shift) == low_part) by (bit_vector);
    } else {
        let joined = low_part | (high_part << (low as u128));
        lemma_field_value_fits(data, offset, low);
        lemma_field_value_fits(data, offset + low, high);
        lemma_fits_shift(low_part, low);
        assert forall|i: int| offset <= i < offset + low + high implies #[trigger] bit_at(data, i)
            == raw_bit(joined, i - offset) by {
            let k = i - offset;
            lemma_joined_bit(low_part, high_part, low as u128, k as u128);
            if k < low {
                lemma_bit_of_field_value(data, offset, low, k);
            } else {
                lemma_bit_of_field_value(data, offset + low, high, k - low);
            }
        }
        lemma_field_value_of_raw_bits(data, offset, low + high, joined);
        if low + high < 128 {
            lemma_fits_shift(high_part, high);
            lemma_joined_fits(low_part, high_part, low as u128, high as u128);
            lemma_fits_shift(joined, low + high);
        }
        lemma_fits_mask(joined, low + high);
    }
}

/// Every field of a buffer of zero bytes reads zero.
pub proof fn lemma_zero_buffer_reads_zero(data: Seq<u8>, offset: int, bits: nat)
    requires
        in_buffer(data, offset, bits as int),
        forall|j: int| 0 <= j < data.len() ==> data[j] == 0u8,
    ensures
        field_value(data, offset, bits) == 0,
    decreases bits,
{
    if bits > 0 {
        lemma_zero_buffer_reads_zero(data, offset, (bits - 1) as nat);
        let i = offset + bits - 1;
        let k = (i % 8) as u8;
        assert((0u8 >> k) & 1 != 1) by (bit_vector);
    }
}

/// Two buffers that agree on the bits of a field agree on its value.
pub proof fn lemma_field_value_of_equal_bits(a: Seq<u8>, b: Seq<u8>, offset: int, bits: nat)
    requires
        forall|i: int| offset <= i < offset + bits ==> #[trigger] bit_at(a, i) == bit_at(b, i),
    ensures
        field_value(a, offset, bits) == field_value(b, offset, bits),
    decreases bits,
{
    if bits > 0 {
        lemma_field_value_of_equal_bits(a, b, offset, (bits - 1) as nat);
        assert(bit_at(a, offset + (bits - 1)) == bit_at(b, offset + (bits - 1)));
    }
}

/// A field whose bits are those of `val` holds the `bits` lowest bits of `val`.
pub proof fn lemma_field_value_of_raw_bits(data: Seq<u8>, offset: int, bits: nat, val: u128)
    requires
        bits <= 128,
        forall|i: int| offset <= i < offset + bits ==> #[trigger] bit_at(data, i) == raw_bit(val, i - offset),
    ensures
        field_value(data, offset, bits) == val & raw_mask(bits),
    decreases bits,
{
    if bits == 0 {
        lemma_mask_step(val, 0);
    } else {
        let m = (bits - 1) as nat;
        lemma_field_value_of_raw_bits(data, offset, m, val);
        lemma_mask_step(val, m as u128);
        assert(bit_at(data, offset + m) == raw_bit(val, m as int));
    }
}

/// Reading a field back gives the `bits` lowest bits of what was written to
/// it: the value itself, where it fits in the field.
pub proof fn lemma_write_then_read(data: Seq<u8>, offset: int, bits: nat, val: u128)
    requires
        in_buffer(data, offset, bits as int),
    ensures
        field_value(write_bits(data, offset, bits, val), offset, bits) == val & raw_mask(bits),
        fits(val, bits) ==> field_value(write_bits(data, offset, bits, val), offset, bits) == val,
{
    let after = write_bits(data, offset, bits, val);
    assert forall|i: int| offset <= i < offset + bits implies #[trigger] bit_at(after, i) == raw_bit(
        val,
        i - offset,
    ) by {
        lemma_bit_after_write(data, offset, bits, val, i);
    }
    lemma_field_value_of_raw_bits(after, offset, bits, val);
    if fits(val, bits) {
        lemma_fits_mask(val, bits);
    }
}

/// Writing a field changes no other field: one whose bits do not overlap the
/// written bits reads as before, whatever is written.
pub proof fn lemma_write_keeps_other_fields(
    data: Seq<u8>,
    offset: int,
    bits: nat,
    val: u128,
    other_offset: int,
    other_bits: nat,
)
    requires
        in_buffer(data, offset, bits as int),
        in_buffer(data, other_offset, other_bits as int),
        other_offset + other_bits <= offset || offset + bits <= other_offset,
    ensures
        field_value(write_bits(data, offset, bits, val), other_offset, other_bits) == field_value(
            data,
            other_offset,
            other_bits,
        ),
{
    let after = write_bits(data, offset, bits, val);
    assert forall|i: int| other_offset <= i < other_offset + other_bits implies #[trigger] bit_at(
        after,
        i,
    ) == bit_at(data, i) by {
        lemma_bit_after_write(data, offset, bits, val, i);
    }
    lemma_field_value_of_equal_bits(after, data, other_offset, other_bits);
}

/// Writing to a field the value that it holds changes nothing.
pub proof fn lemma_read_then_write(data: Seq<u8>, offset: int, bits: nat)
    requires
        in_buffer(data, offset, bits as int),
    ensures
        write_bits(data, offset, bits, field_value(data, offset, bits)) == data,
{
    let val = field_value(data, offset, bits);
    let after = write_bits(data, offset, bits, val);
    assert forall|i: int| 0 <= i < 8 * data.len() implies #[trigger] bit_at(after, i) == bit_at(
        data,
        i,
    ) by {
        lemma_bit_after_write(data, offset, bits, val, i);
        if offset <= i < offset + bits {
            lemma_bit_of_field_value(data, offset, bits, i - offset);
        }
    }
    lemma_equal_bits_equal_buffers(after, data);
}

/// Of two writes to one field, only the second shows.
pub proof fn lemma_write_twice(data: Seq<u8>, offset: int, bits: nat, first: u128, second: u128)
    requires
        in_buffer(data, offset, bits as int),
    ensures
        write_bits(write_bits(data, offset, bits, first), offset, bits, second) == write_bits(
            data,
            offset,
            bits,
            second,
        ),
{
    let once = write_bits(data, offset, bits, first);
    let twice = write_bits(once, offset, bits, second);
    let direct = write_bits(data, offset, bits, second);
    assert forall|i: int| 0 <= i < 8 * data.len() implies #[trigger] bit_at(twice, i) == bit_at(
        direct,
        i,
    ) by {
        lemma_bit_after_write(data, offset, bits, first, i);
        lemma_bit_after_write(once, offset, bits, second, i);
        lemma_bit_after_write(data, offset, bits, second, i);
    }
    lemma_equal_bits_equal_buffers(twice, direct);
}

/// Writes to two fields that share no bit can be made in either order.
pub proof fn lemma_writes_commute(
    data: Seq<u8>,
    a_offset: int,
    a_bits: nat,
    a_val: u128,
    b_offset: int,
    b_bits: nat,
    b_val: u128,
)
    requires
        in_buffer(data, a_offset, a_bits as int),
        in_buffer(data, b_offset, b_bits as int),
        b_offset + b_bits <= a_offset || a_offset + a_bits <= b_offset,
    ensures
        write_bits(write_bits(data, a_offset, a_bits, a_val), b_offset, b_bits, b_val) == write_bits(
            write_bits(data, b_offset, b_bits, b_val),
            a_offset,
            a_bits,
            a_val,
        ),
{
    let a_first = write_bits(data, a_offset, a_bits, a_val);
    let b_first = write_bits(data, b_offset, b_bits, b_val);
    let a_then_b = write_bits(a_first, b_offset, b_bits, b_val);
    let b_then_a = write_bits(b_first, a_offset, a_bits, a_val);
    assert forall|i: int| 0 <= i < 8 * data.len() implies #[trigger] bit_at(a_then_b, i) == bit_at(
        b_then_a,
        i,
    ) by {
        lemma_bit_after_write(data, a_offset, a_bits, a_val, i);
        lemma_bit_after_write(a_first, b_offset, b_bits, b_val, i);
        lemma_bit_after_write(data, b_offset, b_bits, b_val, i);
        lemma_bit_after_write(b_first, a_offset, a_bits, a_val, i);
    }
    lemma_equal_bits_equal_buffers(a_then_b, b_then_a);
}

/// A byte as a raw value has the bits of the byte, and no other.
proof fn lemma_widened_byte(b: u8, k: u8)
    by (bit_vector)
    requires
        k < 8,
    ensures
        (((b as u128) >> (k as u128)) & 1 == 1) == ((b >> k) & 1 == 1),
        (b as u128) & !(u128::MAX << 8u128) == b as u128,
{
}

/// The bits of the low byte of a value are the eight lowest bits of the
/// value.
proof fn lemma_low_byte_bit(v: u128, k: u8)
    by (bit_vector)
    requires
        k < 8,
    ensures
        ((((v % 256) as u8) >> k) & 1 == 1) == ((v >> (k as u128)) & 1 == 1),
{
}

/// A field of eight bits that starts at a byte boundary reads as that byte.
pub proof fn lemma_read_whole_byte(data: Seq<u8>, j: int)
    requires
        0 <= j < data.len(),
    ensures
        field_value(data, 8 * j, 8) == data[j],
{
    let b = data[j];
    assert forall|i: int| 8 * j <= i < 8 * j + 8 implies #[trigger] bit_at(data, i) == raw_bit(
        b as u128,
        i - 8 * j,
    ) by {
        lemma_widened_byte(b, (i - 8 * j) as u8);
    }
    lemma_field_value_of_raw_bits(data, 8 * j, 8, b as u128);
    lemma_widened_byte(b, 0);
}

/// Writing a field of eight bits that starts at a byte boundary replaces that
/// byte by the low byte of the value, and changes no other byte.
pub proof fn lemma_write_whole_byte(data: Seq<u8>, j: int, val: u128)
    requires
        0 <= j < data.len(),
    ensures
        write_bits(data, 8 * j, 8, val) == data.update(j, (val % 256) as u8),
{
    let after = write_bits(data, 8 * j, 8, val);
    assert forall|m: int| 0 <= m < data.len() implies after[m] == data.update(
        j,
        (val % 256) as u8,
    )[m] by {
        let b = if m == j {
            (val % 256) as u8
        } else {
            data[m]
        };
        assert forall|k: int| 0 <= k < 8 implies written_bit(data, 8 * j, 8, val, 8 * m + k)
            == byte_bit(b, k) by {
            if m == j {
                lemma_low_byte_bit(val, k as u8);
            }
        }
        lemma_byte_of_its_bits(b, |k: int| written_bit(data, 8 * j, 8, val, 8 * m + k));
    }
    assert(after =~= data.update(j, (val % 256) as u8));
}

} // verus!
