//! The kinds of field: how wide each is, and how its raw bits and the value
//! that a caller sees turn into each other.

use vstd::prelude::*;
use vstd::arithmetic::power2::lemma2_to64;
use core::marker::PhantomData;
use crate::codec::{get_bits, set_bits};
use crate::model::{field_value, fits, in_buffer, write_bits, MAX_BITS};
use crate::model::{lemma_field_value_fits, lemma_write_keeps_other_fields, lemma_write_then_read};
use crate::error::Error;
use crate::storage::{narrowest, LastByte, Storage, StorageKind};

verus! {

/// A kind of field.
///
/// `BITS` is its width, and [`Specifier::width`] is that number in contracts.
/// `Interface` is the type of the values that a caller reads and writes;
/// [`Specifier::encode`] and [`Specifier::decode`] relate them to the raw bits
/// in the buffer.
pub trait Specifier: Sized {
    /// The width of the field, in bits.
    const BITS: usize;

    /// The type of the values of the field.
    type Interface;

    /// The width of the field, in bits.
    spec fn width() -> nat;

    /// `width` is the value of `BITS`.
    proof fn lemma_width()
        ensures
            Self::BITS == Self::width(),
    ;

    /// Whether the field can hold the value.
    spec fn representable(val: Self::Interface) -> bool;

    /// The raw bits of a value.
    spec fn encode(val: Self::Interface) -> u128;

    /// The value of raw bits, or why they stand for none.
    spec fn decode(raw: u128) -> Result<Self::Interface, Error>;

    /// The raw bits of a value that the field can hold fit in the field, and
    /// decode to that value.
    proof fn lemma_decode_encode(val: Self::Interface)
        requires
            Self::representable(val),
        ensures
            fits(Self::encode(val), Self::width()),
            Self::decode(Self::encode(val)) == Ok::<Self::Interface, Error>(val),
    ;

    /// The value of raw bits, or why they stand for none.
    fn to_interface(raw: u128) -> (r: Result<Self::Interface, Error>)
        ensures
            r == Self::decode(raw),
    ;

    /// The raw bits of a value.
    fn from_interface(val: Self::Interface) -> (raw: u128)
        ensures
            raw == Self::encode(val),
    ;

    /// The narrowest unsigned integer type that holds the raw bits.
    fn storage() -> (kind: StorageKind)
        requires
            Self::width() <= MAX_BITS,
        ensures
            kind == narrowest(Self::width()),
            Self::width() <= kind.width(),
    {
        proof {
            Self::lemma_width();
        }
        StorageKind::for_bits(Self::BITS)
    }

    /// Reads the field that starts at bit `offset` of `data`.
    fn get(data: &[u8], offset: usize) -> (r: Result<Self::Interface, Error>)
        requires
            in_buffer(data@, offset as int, Self::width() as int),
        ensures
            r == Self::decode(field_value(data@, offset as int, Self::width())),
    {
        proof {
            Self::lemma_width();
        }
        Self::to_interface(get_bits(data, offset, Self::BITS))
    }

    /// Writes `val` to the field that starts at bit `offset` of `data`, and
    /// keeps every bit outside the field.
    fn set(data: &mut [u8], offset: usize, val: Self::Interface)
        requires
            in_buffer(old(data)@, offset as int, Self::width() as int),
        ensures
            final(data)@ == write_bits(old(data)@, offset as int, Self::width(), Self::encode(val)),
    {
        proof {
            Self::lemma_width();
        }
        let raw = Self::from_interface(val);
        set_bits(data, offset, Self::BITS, raw);
    }
}

/// What `get` returns for the field of kind `S` at bit `offset` of `data`.
pub open spec fn read<S: Specifier>(data: Seq<u8>, offset: int) -> Result<S::Interface, Error> {
    S::decode(field_value(data, offset, S::width()))
}

/// The buffer that `set` leaves when `val` is written to the field of kind `S`
/// at bit `offset` of `data`.
pub open spec fn written<S: Specifier>(data: Seq<u8>, offset: int, val: S::Interface) -> Seq<u8> {
    write_bits(data, offset, S::width(), S::encode(val))
}

/// `set` followed by `get` on the same field returns the value that was set,
/// for every value that the field can hold.
pub proof fn lemma_set_then_get<S: Specifier>(data: Seq<u8>, offset: int, val: S::Interface)
    requires
        in_buffer(data, offset, S::width() as int),
        S::representable(val),
    ensures
        read::<S>(written::<S>(data, offset, val), offset) == Ok::<S::Interface, Error>(val),
{
    S::lemma_decode_encode(val);
    lemma_write_then_read(data, offset, S::width(), S::encode(val));
}

/// `set` on one field changes what `get` returns for no other field: for two
/// fields that share no bit, and for every value written to the first, the
/// second reads as before.
pub proof fn lemma_set_keeps_other_field<A: Specifier, B: Specifier>(
    data: Seq<u8>,
    a_offset: int,
    val: A::Interface,
    b_offset: int,
)
    requires
        in_buffer(data, a_offset, A::width() as int),
        in_buffer(data, b_offset, B::width() as int),
        b_offset + B::width() <= a_offset || a_offset + A::width() <= b_offset,
    ensures
        read::<B>(written::<A>(data, a_offset, val), b_offset) == read::<B>(data, b_offset),
{
    lemma_write_keeps_other_fields(
        data,
        a_offset,
        A::width(),
        A::encode(val),
        b_offset,
        B::width(),
    );
}

impl Specifier for bool {
    const BITS: usize = 1;

    type Interface = bool;

    open spec fn width() -> nat {
        1
    }

    proof fn lemma_width() {
        assert(<bool as Specifier>::BITS == 1);
    }

    open spec fn representable(val: bool) -> bool {
        true
    }

    open spec fn encode(val: bool) -> u128 {
        if val {
            1
        } else {
            0
        }
    }

    open spec fn decode(raw: u128) -> Result<bool, Error> {
        if raw == 0 {
            Ok(false)
        } else if raw == 1 {
            Ok(true)
        } else {
            Err(Error::InvalidDiscriminant)
        }
    }

    proof fn lemma_decode_encode(val: bool) {
        lemma2_to64();
    }

    fn to_interface(raw: u128) -> (r: Result<bool, Error>) {
        if raw == 0 {
            Ok(false)
        } else if raw == 1 {
            Ok(true)
        } else {
            Err(Error::InvalidDiscriminant)
        }
    }

    fn from_interface(val: bool) -> (raw: u128) {
        if val {
            1
        } else {
            0
        }
    }
}

/// A boolean field always reads as a boolean: one bit is 0 or 1.
pub proof fn lemma_bool_reads(data: Seq<u8>, offset: int)
    ensures
        read::<bool>(data, offset) is Ok,
{
    lemma2_to64();
    lemma_field_value_fits(data, offset, 1);
}

/// An integer field of `N` bits whose values have the type `T`.
pub struct Bits<T, const N: usize> {
    storage: PhantomData<T>,
}

impl<T: Storage, const N: usize> Specifier for Bits<T, N> {
    const BITS: usize = N;

    type Interface = T;

    open spec fn width() -> nat {
        N as nat
    }

    proof fn lemma_width() {
        assert(<Bits<T, N> as Specifier>::BITS == N);
    }

    open spec fn representable(val: T) -> bool {
        fits(val.widen(), N as nat)
    }

    open spec fn encode(val: T) -> u128 {
        val.widen()
    }

    open spec fn decode(raw: u128) -> Result<T, Error> {
        if raw <= T::kind().max_value() {
            Ok(T::narrow(raw))
        } else {
            Err(Error::InvalidDiscriminant)
        }
    }

    proof fn lemma_decode_encode(val: T) {
        T::lemma_narrow_widen(val, 0);
    }

    fn to_interface(raw: u128) -> (r: Result<T, Error>) {
        match T::from_raw(raw) {
            Some(v) => Ok(v),
            None => Err(Error::InvalidDiscriminant),
        }
    }

    fn from_interface(val: T) -> (raw: u128) {
        val.into_raw()
    }
}

/// The integer fields of 1 to 64 bits, each with the narrowest type that holds
/// its values.
pub type B1 = Bits<u8, 1>;

pub type B2 = Bits<u8, 2>;

pub type B3 = Bits<u8, 3>;

pub type B4 = Bits<u8, 4>;

pub type B5 = Bits<u8, 5>;

pub type B6 = Bits<u8, 6>;

pub type B7 = Bits<u8, 7>;

pub type B8 = Bits<u8, 8>;

pub type B9 = Bits<u16, 9>;

pub type B10 = Bits<u16, 10>;

pub type B11 = Bits<u16, 11>;

pub type B12 = Bits<u16, 12>;

pub type B13 = Bits<u16, 13>;

pub type B14 = Bits<u16, 14>;

pub type B15 = Bits<u16, 15>;

pub type B16 = Bits<u16, 16>;

pub type B17 = Bits<u32, 17>;

pub type B18 = Bits<u32, 18>;

pub type B19 = Bits<u32, 19>;

pub type B20 = Bits<u32, 20>;

pub type B21 = Bits<u32, 21>;

pub type B22 = Bits<u32, 22>;

pub type B23 = Bits<u32, 23>;

pub type B24 = Bits<u32, 24>;

pub type B25 = Bits<u32, 25>;

pub type B26 = Bits<u32, 26>;

pub type B27 = Bits<u32, 27>;

pub type B28 = Bits<u32, 28>;

pub type B29 = Bits<u32, 29>;

pub type B30 = Bits<u32, 30>;

pub type B31 = Bits<u32, 31>;

pub type B32 = Bits<u32, 32>;

pub type B33 = Bits<u64, 33>;

pub type B34 = Bits<u64, 34>;

pub type B35 = Bits<u64, 35>;

pub type B36 = Bits<u64, 36>;

pub type B37 = Bits<u64, 37>;

pub type B38 = Bits<u64, 38>;

pub type B39 = Bits<u64, 39>;

pub type B40 = Bits<u64, 40>;

pub type B41 = Bits<u64, 41>;

pub type B42 = Bits<u64, 42>;

pub type B43 = Bits<u64, 43>;

pub type B44 = Bits<u64, 44>;

pub type B45 = Bits<u64, 45>;

pub type B46 = Bits<u64, 46>;

pub type B47 = Bits<u64, 47>;

pub type B48 = Bits<u64, 48>;

pub type B49 = Bits<u64, 49>;

pub type B50 = Bits<u64, 50>;

pub type B51 = Bits<u64, 51>;

pub type B52 = Bits<u64, 52>;

pub type B53 = Bits<u64, 53>;

pub type B54 = Bits<u64, 54>;

pub type B55 = Bits<u64, 55>;

pub type B56 = Bits<u64, 56>;

pub type B57 = Bits<u64, 57>;

pub type B58 = Bits<u64, 58>;

pub type B59 = Bits<u64, 59>;

pub type B60 = Bits<u64, 60>;

pub type B61 = Bits<u64, 61>;

pub type B62 = Bits<u64, 62>;

pub type B63 = Bits<u64, 63>;

pub type B64 = Bits<u64, 64>;

} // verus!
