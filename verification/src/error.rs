//! What can go wrong when a layout is built or a field is read.

use vstd::prelude::*;

verus! {

/// A layout or an enumerated type that cannot be built, or a field whose bits
/// stand for no value of its type.
#[derive(Debug, PartialEq, Eq)]
pub enum Error {
    /// The widths of a record's fields add up to this many bits, which is no
    /// whole number of bytes.
    MisalignedRecord(usize),
    /// The number of variants of an enumerated type is no power of two.
    NonPowerOfTwoVariantCount,
    /// The discriminant of the variant of this name does not fit in the width
    /// of its enumerated type.
    DiscriminantOutOfRange(String),
    /// The bits of an enumerated field are the discriminant of no variant.
    UnknownDiscriminant,
    /// The bits of a field are outside what its type can hold: a boolean that
    /// is neither 0 nor 1, an integer too wide for its storage type.
    InvalidDiscriminant,
}

} // verus!
