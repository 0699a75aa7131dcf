use bitfield::bits::first;
use bitfield::bits::last;
use bitfield::bits::mid;

#[test]
fn first_keeps_low_bits() {
    assert_eq!(first(0b1011_0110, 3), 0b0000_0110);
    assert_eq!(first(0b1011_0110, 1), 0);
    assert_eq!(first(0b1011_0111, 1), 1);
    assert_eq!(first(0xff, 7), 0x7f);
}

#[test]
fn first_at_the_boundaries() {
    assert_eq!(first(0xa5, 0), 0);
    assert_eq!(first(0xa5, 8), 0xa5);
    assert_eq!(first(0xa5, 9), 0xa5);
    assert_eq!(first(0xa5, usize::MAX), 0xa5);
}

#[test]
fn last_keeps_high_bits() {
    assert_eq!(last(0b1011_0110, 3), 0b1010_0000);
    assert_eq!(last(0b1011_0110, 1), 0b1000_0000);
    assert_eq!(last(0xff, 7), 0xfe);
}

#[test]
fn last_at_the_boundaries() {
    assert_eq!(last(0xa5, 0), 0);
    assert_eq!(last(0xa5, 8), 0xa5);
    assert_eq!(last(0xa5, 200), 0xa5);
}

#[test]
fn mid_keeps_a_run_of_bits() {
    assert_eq!(mid(0b1011_0110, 2, 3), 0b0001_0100);
    assert_eq!(mid(0b1111_1111, 1, 6), 0b0111_1110);
    assert_eq!(mid(0b1111_1111, 3, 1), 0b0000_1000);
}

#[test]
fn mid_at_the_edges_is_first_or_last() {
    for b in [0x00u8, 0x5a, 0xa5, 0xff, 0x81] {
        for len in 0..10usize {
            assert_eq!(mid(b, 0, len), first(b, len));
        }
        for start in 1..8usize {
            assert_eq!(mid(b, start, 8 - start), last(b, 8 - start));
            assert_eq!(mid(b, start, 20), last(b, 8 - start));
        }
    }
}

#[test]
fn mid_never_panics() {
    assert_eq!(mid(0xff, 8, 1), 0);
    assert_eq!(mid(0xff, 9, 0), 0);
    assert_eq!(mid(0xff, usize::MAX, usize::MAX), 0);
    assert_eq!(mid(0xff, 1, usize::MAX), 0xfe);
    assert_eq!(mid(0xff, 3, 0), 0);
    assert_eq!(mid(0xff, 0, 0), 0);
}

#[test]
fn mid_agrees_with_a_bit_by_bit_mask() {
    for b in 0..=255u8 {
        for start in 0..9usize {
            for len in 0..9usize {
                let mut expected = 0u8;
                for k in 0..8usize {
                    if start <= k && k < start + len {
                        expected |= b & (1 << k);
                    }
                }
                assert_eq!(mid(b, start, len), expected);
            }
        }
    }
}
