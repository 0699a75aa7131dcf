use bitfield::error::Error;
use bitfield::specifier::Bits;
use bitfield::specifier::Specifier;
use bitfield::specifier::B12;
use bitfield::specifier::B4;
use bitfield::specifier::B64;
use bitfield::specifier::B9;
use bitfield::storage::LastByte;
use bitfield::storage::Storage;
use bitfield::storage::StorageKind;

#[test]
fn storage_is_the_narrowest_type() {
    assert_eq!(StorageKind::for_bits(1), StorageKind::U8);
    assert_eq!(StorageKind::for_bits(8), StorageKind::U8);
    assert_eq!(StorageKind::for_bits(9), StorageKind::U16);
    assert_eq!(StorageKind::for_bits(16), StorageKind::U16);
    assert_eq!(StorageKind::for_bits(17), StorageKind::U32);
    assert_eq!(StorageKind::for_bits(32), StorageKind::U32);
    assert_eq!(StorageKind::for_bits(33), StorageKind::U64);
    assert_eq!(StorageKind::for_bits(64), StorageKind::U64);
    assert_eq!(StorageKind::for_bits(65), StorageKind::U128);
    assert_eq!(StorageKind::for_bits(128), StorageKind::U128);
}

#[test]
fn storage_widths() {
    assert_eq!(StorageKind::U8.bits(), 8);
    assert_eq!(StorageKind::U16.bits(), 16);
    assert_eq!(StorageKind::U32.bits(), 32);
    assert_eq!(StorageKind::U64.bits(), 64);
    assert_eq!(StorageKind::U128.bits(), 128);
}

#[test]
fn last_byte_is_the_low_byte() {
    assert_eq!(0xabu8.last_byte(), 0xab);
    assert_eq!(0x12abu16.last_byte(), 0xab);
    assert_eq!(0x1234_56abu32.last_byte(), 0xab);
    assert_eq!(0x1234_5678_9abc_deabu64.last_byte(), 0xab);
    assert_eq!((u128::MAX - 0x54).last_byte(), 0xab);
}

#[test]
fn storage_converts_to_raw_and_back() {
    assert_eq!(0x12u8.into_raw(), 0x12);
    assert_eq!(<u8 as Storage>::from_raw(0xff), Some(0xff));
    assert_eq!(<u8 as Storage>::from_raw(0x100), None);
    assert_eq!(<u16 as Storage>::from_raw(0xffff), Some(0xffff));
    assert_eq!(<u16 as Storage>::from_raw(0x1_0000), None);
    assert_eq!(<u32 as Storage>::from_raw(0xffff_ffff), Some(0xffff_ffff));
    assert_eq!(<u32 as Storage>::from_raw(0x1_0000_0000), None);
    assert_eq!(<u64 as Storage>::from_raw(u64::MAX as u128), Some(u64::MAX));
    assert_eq!(<u64 as Storage>::from_raw(u64::MAX as u128 + 1), None);
    assert_eq!(<u128 as Storage>::from_raw(u128::MAX), Some(u128::MAX));
}

#[test]
fn widths_of_the_field_kinds() {
    assert_eq!(<bool as Specifier>::BITS, 1);
    assert_eq!(<B4 as Specifier>::BITS, 4);
    assert_eq!(<B9 as Specifier>::BITS, 9);
    assert_eq!(<B64 as Specifier>::BITS, 64);
    assert_eq!(<Bits<u128, 100> as Specifier>::BITS, 100);
}

#[test]
fn bool_is_zero_or_one() {
    assert_eq!(<bool as Specifier>::to_interface(0), Ok(false));
    assert_eq!(<bool as Specifier>::to_interface(1), Ok(true));
    assert_eq!(<bool as Specifier>::to_interface(2), Err(Error::InvalidDiscriminant));
    assert_eq!(<bool as Specifier>::to_interface(u128::MAX), Err(Error::InvalidDiscriminant));
    assert_eq!(<bool as Specifier>::from_interface(false), 0);
    assert_eq!(<bool as Specifier>::from_interface(true), 1);
}

#[test]
fn bool_field_round_trips() {
    let mut data = [0xf0u8, 0x0f];
    <bool as Specifier>::set(&mut data, 3, true);
    assert_eq!(data, [0xf8, 0x0f]);
    assert_eq!(<bool as Specifier>::get(&data, 3), Ok(true));
    <bool as Specifier>::set(&mut data, 8, false);
    assert_eq!(data, [0xf8, 0x0e]);
    assert_eq!(<bool as Specifier>::get(&data, 8), Ok(false));
}

#[test]
fn integer_is_the_identity() {
    assert_eq!(B4::to_interface(9), Ok(9u8));
    assert_eq!(B4::from_interface(9), 9);
    assert_eq!(B12::to_interface(0xabc), Ok(0xabcu16));
    assert_eq!(B12::from_interface(0xabc), 0xabc);
}

#[test]
fn integer_too_wide_for_its_type_is_invalid() {
    assert_eq!(B4::to_interface(0x100), Err(Error::InvalidDiscriminant));
    assert_eq!(B12::to_interface(0x1_0000), Err(Error::InvalidDiscriminant));
}

#[test]
fn integer_fields_round_trip() {
    let mut data = [0u8; 12];
    B4::set(&mut data, 6, 0b1011);
    B12::set(&mut data, 10, 0xabc);
    B64::set(&mut data, 22, 0x0123_4567_89ab_cdef);
    assert_eq!(B4::get(&data, 6), Ok(0b1011));
    assert_eq!(B12::get(&data, 10), Ok(0xabc));
    assert_eq!(B64::get(&data, 22), Ok(0x0123_4567_89ab_cdef));
    assert_eq!(data[0], 0b1100_0000);
    assert_eq!(data[1], 0b1111_0010);
}

#[test]
fn integer_field_keeps_only_its_width() {
    let mut data = [0u8; 2];
    B4::set(&mut data, 2, 0xff);
    assert_eq!(data, [0b0011_1100, 0]);
    assert_eq!(B4::get(&data, 2), Ok(0x0f));
}

#[test]
fn field_kinds_pick_the_narrowest_storage() {
    assert_eq!(<bool as Specifier>::storage(), StorageKind::U8);
    assert_eq!(B4::storage(), StorageKind::U8);
    assert_eq!(B9::storage(), StorageKind::U16);
    assert_eq!(B64::storage(), StorageKind::U64);
    assert_eq!(<Bits<u128, 100> as Specifier>::storage(), StorageKind::U128);
}
