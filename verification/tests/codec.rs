use bitfield::codec::fits_in;
use bitfield::codec::get_bits;
use bitfield::codec::set_bits;

#[test]
fn get_reads_across_a_byte_boundary() {
    // Bits 5..11: the three high bits of byte 0, then the three low bits of byte 1.
    let data = [0b1010_0000u8, 0b0000_0110];
    assert_eq!(get_bits(&data, 5, 6), 0b110_101);
}

#[test]
fn get_of_a_whole_byte_is_that_byte() {
    let data = [0x12u8, 0x34, 0x56];
    assert_eq!(get_bits(&data, 0, 8), 0x12);
    assert_eq!(get_bits(&data, 8, 8), 0x34);
    assert_eq!(get_bits(&data, 16, 8), 0x56);
}

#[test]
fn get_is_little_endian_across_bytes() {
    let data = [0x12u8, 0x34, 0x56];
    assert_eq!(get_bits(&data, 0, 16), 0x3412);
    assert_eq!(get_bits(&data, 0, 24), 0x563412);
    assert_eq!(get_bits(&data, 4, 16), 0x6341);
}

#[test]
fn get_of_no_bits_is_zero() {
    let data = [0xffu8];
    assert_eq!(get_bits(&data, 3, 0), 0);
    assert_eq!(get_bits(&data, 8, 0), 0);
}

#[test]
fn set_keeps_the_bits_around_the_field() {
    let mut data = [0xffu8, 0xff];
    set_bits(&mut data, 5, 6, 0);
    assert_eq!(data, [0b0001_1111, 0b1111_1000]);
    let mut data = [0x00u8, 0x00];
    set_bits(&mut data, 5, 6, 0b11_1111);
    assert_eq!(data, [0b1110_0000, 0b0000_0111]);
}

#[test]
fn set_of_a_whole_byte_copies_it() {
    let mut data = [0xaau8, 0xbb];
    set_bits(&mut data, 0, 8, 0x5c);
    assert_eq!(data, [0x5c, 0xbb]);
    assert_eq!(get_bits(&data, 0, 8), 0x5c);
}

#[test]
fn set_writes_only_the_low_bits_of_the_value() {
    let mut data = [0x00u8, 0x00];
    set_bits(&mut data, 2, 3, 0xff);
    assert_eq!(data, [0b0001_1100, 0x00]);
    let mut data = [0xffu8, 0xff];
    set_bits(&mut data, 6, 4, 0xf0);
    assert_eq!(data, [0b0011_1111, 0b1111_1100]);
}

#[test]
fn set_of_no_bits_changes_nothing() {
    let mut data = [0x5au8, 0xa5];
    set_bits(&mut data, 7, 0, u128::MAX);
    assert_eq!(data, [0x5a, 0xa5]);
}

#[test]
fn one_bit_at_offset_seven_round_trips() {
    let mut data = [0u8, 0];
    set_bits(&mut data, 7, 1, 1);
    assert_eq!(data, [0x80, 0x00]);
    assert_eq!(get_bits(&data, 7, 1), 1);
    set_bits(&mut data, 7, 1, 0);
    assert_eq!(data, [0x00, 0x00]);
    assert_eq!(get_bits(&data, 7, 1), 0);
}

#[test]
fn sixty_four_bits_over_nine_bytes_round_trip() {
    let mut data = [0u8; 10];
    let value: u128 = 0xdead_beef_0123_4567;
    set_bits(&mut data, 3, 64, value);
    assert_eq!(get_bits(&data, 3, 64), value);
    assert_eq!(data[9], 0);
    assert_eq!(data[0] & 0b111, 0);
    assert_eq!(data[8] & 0b1111_1000, 0);
    assert_eq!(data[0], ((value << 3) & 0xff) as u8);
    assert_eq!(data[8], (value >> 61) as u8);
}

#[test]
fn the_widest_field_round_trips() {
    let mut data = [0x55u8; 18];
    let value: u128 = 0x0123_4567_89ab_cdef_fedc_ba98_7654_3210;
    set_bits(&mut data, 5, 128, value);
    assert_eq!(get_bits(&data, 5, 128), value);
    assert_eq!(get_bits(&data, 0, 5), 0x15);
    assert_eq!(get_bits(&data, 133, 11), 0x2aa);
    set_bits(&mut data, 5, 128, u128::MAX);
    assert_eq!(get_bits(&data, 5, 128), u128::MAX);
}

#[test]
fn every_value_of_every_small_field_round_trips() {
    for offset in 0..17usize {
        for bits in 0..9usize {
            for value in 0..(1u128 << bits) {
                for fill in [0x00u8, 0xff, 0xa5] {
                    let mut data = [fill; 4];
                    set_bits(&mut data, offset, bits, value);
                    assert_eq!(get_bits(&data, offset, bits), value);
                }
            }
        }
    }
}

#[test]
fn writing_one_field_leaves_its_neighbours() {
    for offset in 1..20usize {
        for bits in 1..12usize {
            for fill in [0x00u8, 0xff, 0x3c] {
                let mut data = [fill; 5];
                let below = get_bits(&data, 0, offset);
                let above = get_bits(&data, offset + bits, 40 - offset - bits);
                set_bits(&mut data, offset, bits, 0x5a5);
                assert_eq!(get_bits(&data, 0, offset), below);
                assert_eq!(get_bits(&data, offset + bits, 40 - offset - bits), above);
                set_bits(&mut data, offset, bits, 0xa5a);
                assert_eq!(get_bits(&data, 0, offset), below);
                assert_eq!(get_bits(&data, offset + bits, 40 - offset - bits), above);
            }
        }
    }
}

#[test]
fn fits_in_compares_with_a_power_of_two() {
    assert!(fits_in(0, 0));
    assert!(!fits_in(1, 0));
    assert!(fits_in(1, 1));
    assert!(!fits_in(2, 1));
    assert!(fits_in(255, 8));
    assert!(!fits_in(256, 8));
    assert!(fits_in(u128::MAX >> 1, 127));
    assert!(!fits_in(u128::MAX, 127));
    assert!(fits_in(u128::MAX, 128));
    assert!(fits_in(u128::MAX, 500));
}

#[test]
fn writing_back_what_was_read_changes_nothing() {
    let original = [0x12u8, 0x34, 0x56, 0x78, 0x9a];
    for offset in 0..24usize {
        for bits in 0..17usize {
            let mut data = original;
            let value = get_bits(&data, offset, bits);
            set_bits(&mut data, offset, bits, value);
            assert_eq!(data, original);
        }
    }
}

#[test]
fn the_second_of_two_writes_shows() {
    let mut twice = [0xc3u8; 4];
    set_bits(&mut twice, 5, 13, 0x1abc);
    set_bits(&mut twice, 5, 13, 0x0123);
    let mut once = [0xc3u8; 4];
    set_bits(&mut once, 5, 13, 0x0123);
    assert_eq!(twice, once);
}

#[test]
fn writes_to_separate_fields_commute() {
    let mut one = [0x5au8; 4];
    set_bits(&mut one, 3, 7, 0x55);
    set_bits(&mut one, 10, 11, 0x2aa);
    let mut other = [0x5au8; 4];
    set_bits(&mut other, 10, 11, 0x2aa);
    set_bits(&mut other, 3, 7, 0x55);
    assert_eq!(one, other);
}

#[test]
fn a_field_is_its_low_part_below_its_high_part() {
    let data = [0xe7u8, 0x81, 0x3c, 0xf0];
    for offset in 0..8usize {
        for low in 0..12usize {
            for high in 0..12usize {
                let whole = get_bits(&data, offset, low + high);
                let low_part = get_bits(&data, offset, low);
                let high_part = get_bits(&data, offset + low, high);
                assert_eq!(whole, low_part | (high_part << low));
            }
        }
    }
}

#[test]
fn every_field_of_a_zero_buffer_is_zero() {
    let data = [0u8; 20];
    for offset in 0..16usize {
        assert_eq!(get_bits(&data, offset, 128), 0);
        assert_eq!(get_bits(&data, offset, 1), 0);
    }
}
