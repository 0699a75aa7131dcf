use bitfield::enumerated::EnumDescriptor;
use bitfield::enumerated::Variant;
use bitfield::error::Error;

fn variants(discriminants: &[i64]) -> Vec<Variant> {
    let mut list = Vec::new();
    for (i, d) in discriminants.iter().enumerate() {
        list.push(Variant { name: format!("V{}", i), discriminant: *d });
    }
    list
}

#[test]
fn three_variants_are_no_power_of_two() {
    let r = EnumDescriptor::new(variants(&[0, 1, 2]));
    assert_eq!(r.err(), Some(Error::NonPowerOfTwoVariantCount));
}

#[test]
fn no_variant_is_no_power_of_two() {
    let r = EnumDescriptor::new(Vec::new());
    assert_eq!(r.err(), Some(Error::NonPowerOfTwoVariantCount));
}

#[test]
fn discriminant_five_of_four_variants_is_out_of_range() {
    let r = EnumDescriptor::new(variants(&[0, 1, 2, 5]));
    assert_eq!(r.err(), Some(Error::DiscriminantOutOfRange(String::from("V3"))));
}

#[test]
fn the_first_discriminant_out_of_range_is_named() {
    let r = EnumDescriptor::new(variants(&[0, 9, 2, 5]));
    assert_eq!(r.err(), Some(Error::DiscriminantOutOfRange(String::from("V1"))));
}

#[test]
fn negative_discriminant_is_out_of_range() {
    let r = EnumDescriptor::new(variants(&[0, -1]));
    assert_eq!(r.err(), Some(Error::DiscriminantOutOfRange(String::from("V1"))));
}

#[test]
fn eight_variants_take_three_bits() {
    let d = EnumDescriptor::new(variants(&[0, 1, 2, 3, 4, 5, 6, 7])).ok().unwrap();
    assert_eq!(d.bits(), 3);
    assert_eq!(d.len(), 8);
    assert_eq!(d.variant(2).name, "V2");
}

#[test]
fn widths_of_powers_of_two() {
    assert_eq!(EnumDescriptor::new(variants(&[0])).ok().unwrap().bits(), 0);
    assert_eq!(EnumDescriptor::new(variants(&[0, 1])).ok().unwrap().bits(), 1);
    assert_eq!(EnumDescriptor::new(variants(&[3, 2, 1, 0])).ok().unwrap().bits(), 2);
    let sixteen: Vec<i64> = (0..16).collect();
    assert_eq!(EnumDescriptor::new(variants(&sixteen)).ok().unwrap().bits(), 4);
}

#[test]
fn names_are_numbered_in_order() {
    let names = vec![String::from("Edge"), String::from("Level")];
    let d = EnumDescriptor::from_names(names).ok().unwrap();
    assert_eq!(d.bits(), 1);
    assert_eq!(d.variant(0).name, "Edge");
    assert_eq!(d.variant(0).discriminant, 0);
    assert_eq!(d.variant(1).name, "Level");
    assert_eq!(d.variant(1).discriminant, 1);
    let three = vec![String::from("A"), String::from("B"), String::from("C")];
    assert_eq!(EnumDescriptor::from_names(three).err(), Some(Error::NonPowerOfTwoVariantCount));
}

#[test]
fn declared_width_admits_any_number_of_variants() {
    let d = EnumDescriptor::with_bits(variants(&[0, 1, 6]), 3).ok().unwrap();
    assert_eq!(d.bits(), 3);
    assert_eq!(d.len(), 3);
    let r = EnumDescriptor::with_bits(variants(&[0, 1, 8]), 3);
    assert_eq!(r.err(), Some(Error::DiscriminantOutOfRange(String::from("V2"))));
    let wide = EnumDescriptor::with_bits(variants(&[i64::MAX]), 128).ok().unwrap();
    assert_eq!(wide.from_interface(0), i64::MAX as u128);
}

#[test]
fn raw_bits_match_the_first_variant_with_that_discriminant() {
    let d = EnumDescriptor::new(variants(&[2, 0, 3, 1])).ok().unwrap();
    assert_eq!(d.to_interface(0), Ok(1));
    assert_eq!(d.to_interface(1), Ok(3));
    assert_eq!(d.to_interface(2), Ok(0));
    assert_eq!(d.to_interface(3), Ok(2));
    assert_eq!(d.from_interface(0), 2);
    assert_eq!(d.from_interface(3), 1);
    let twice = EnumDescriptor::new(variants(&[1, 1])).ok().unwrap();
    assert_eq!(twice.to_interface(1), Ok(0));
    assert_eq!(twice.from_interface(1), 1);
}

#[test]
fn raw_bits_of_no_variant_are_unknown() {
    let d = EnumDescriptor::with_bits(variants(&[0, 1, 6]), 3).ok().unwrap();
    assert_eq!(d.to_interface(2), Err(Error::UnknownDiscriminant));
    assert_eq!(d.to_interface(7), Err(Error::UnknownDiscriminant));
    assert_eq!(d.to_interface(u128::MAX), Err(Error::UnknownDiscriminant));
    assert_eq!(d.to_interface(6), Ok(2));
}
