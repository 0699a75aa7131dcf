//! The unsigned integer types that hold the raw bits of a field.

use vstd::prelude::*;

verus! {

/// One of the five unsigned integer types, named by its width.
#[derive(Debug, Clone, Copy, PartialEq, Eq, Structural)]
pub enum StorageKind {
    U8,
    U16,
    U32,
    U64,
    U128,
}

/// The narrowest storage kind that holds `bits` bits.
pub open spec fn narrowest(bits: nat) -> StorageKind {
    if bits <= 8 {
        StorageKind::U8
    } else if bits <= 16 {
        StorageKind::U16
    } else if bits <= 32 {
        StorageKind::U32
    } else if bits <= 64 {
        StorageKind::U64
    } else {
        StorageKind::U128
    }
}

impl StorageKind {
    /// The width of the type, in bits.
    pub open spec fn width(self) -> nat {
        match self {
            StorageKind::U8 => 8,
            StorageKind::U16 => 16,
            StorageKind::U32 => 32,
            StorageKind::U64 => 64,
            StorageKind::U128 => 128,
        }
    }

    /// The largest value of the type.
    pub open spec fn max_value(self) -> u128 {
        match self {
            StorageKind::U8 => 0xff,
            StorageKind::U16 => 0xffff,
            StorageKind::U32 => 0xffff_ffff,
            StorageKind::U64 => 0xffff_ffff_ffff_ffff,
            StorageKind::U128 => u128::MAX,
        }
    }

    /// The narrowest storage kind that holds a field of `bits` bits.
    pub fn for_bits(bits: usize) -> (kind: StorageKind)
        requires
            bits <= 128,
        ensures
            kind == narrowest(bits as nat),
            bits <= kind.width(),
    {
        if bits <= 8 {
            StorageKind::U8
        } else if bits <= 16 {
            StorageKind::U16
        } else if bits <= 32 {
            StorageKind::U32
        } else if bits <= 64 {
            StorageKind::U64
        } else {
            StorageKind::U128
        }
    }

    /// The width of the type, in bits.
    pub fn bits(self) -> (w: usize)
        ensures
            w == self.width(),
    {
        match self {
            StorageKind::U8 => 8,
            StorageKind::U16 => 16,
            StorageKind::U32 => 32,
            StorageKind::U64 => 64,
            StorageKind::U128 => 128,
        }
    }
}

/// An integer that can give up its least significant byte.
pub trait LastByte: Sized {
    /// The integer, as a raw value.
    spec fn widen(self) -> u128;

    /// The least significant byte of the integer.
    fn last_byte(self) -> (b: u8)
        ensures
            b == self.widen() % 256,
    ;
}

/// An unsigned integer type that holds the raw bits of a field.
pub trait Storage: LastByte {
    /// Which of the five types this is.
    spec fn kind() -> StorageKind;

    /// The integer with this raw value, for a raw value that the type holds.
    spec fn narrow(raw: u128) -> Self;

    /// The type holds exactly the raw values up to its largest, each once.
    proof fn lemma_narrow_widen(a: Self, raw: u128)
        ensures
            a.widen() <= Self::kind().max_value(),
            Self::narrow(a.widen()) == a,
            raw <= Self::kind().max_value() ==> Self::narrow(raw).widen() == raw,
    ;

    /// The integer, as a raw value.
    fn into_raw(self) -> (raw: u128)
        ensures
            raw == self.widen(),
    ;

    /// The integer with this raw value, where the type can hold it.
    fn from_raw(raw: u128) -> (r: Option<Self>)
        ensures
            r == if raw <= Self::kind().max_value() {
                Some(Self::narrow(raw))
            } else {
                None
            },
    ;
}

impl LastByte for u8 {
    open spec fn widen(self) -> u128 {
        self as u128
    }

    fn last_byte(self) -> (b: u8) {
        self
    }
}

impl LastByte for u16 {
    open spec fn widen(self) -> u128 {
        self as u128
    }

    fn last_byte(self) -> (b: u8) {
        (self % 256) as u8
    }
}

impl LastByte for u32 {
    open spec fn widen(self) -> u128 {
        self as u128
    }

    fn last_byte(self) -> (b: u8) {
        (self % 256) as u8
    }
}

impl LastByte for u64 {
    open spec fn widen(self) -> u128 {
        self as u128
    }

    fn last_byte(self) -> (b: u8) {
        (self % 256) as u8
    }
}

impl LastByte for u128 {
    open spec fn widen(self) -> u128 {
        self
    }

    fn last_byte(self) -> (b: u8) {
        let low: u128 = self % 256;
        assert(low == self.widen() % 256);
        low as u8
    }
}

impl Storage for u8 {
    open spec fn kind() -> StorageKind {
        StorageKind::U8
    }

    open spec fn narrow(raw: u128) -> Self {
        raw as u8
    }

    proof fn lemma_narrow_widen(a: Self, raw: u128) {
    }

    fn into_raw(self) -> (raw: u128) {
        self as u128
    }

    fn from_raw(raw: u128) -> (r: Option<Self>) {
        if raw <= 0xff {
            Some(raw as u8)
        } else {
            None
        }
    }
}

impl Storage for u16 {
    open spec fn kind() -> StorageKind {
        StorageKind::U16
    }

    open spec fn narrow(raw: u128) -> Self {
        raw as u16
    }

    proof fn lemma_narrow_widen(a: Self, raw: u128) {
    }

    fn into_raw(self) -> (raw: u128) {
        self as u128
    }

    fn from_raw(raw: u128) -> (r: Option<Self>) {
        if raw <= 0xffff {
            Some(raw as u16)
        } else {
            None
        }
    }
}

impl Storage for u32 {
    open spec fn kind() -> StorageKind {
        StorageKind::U32
    }

    open spec fn narrow(raw: u128) -> Self {
        raw as u32
    }

    proof fn lemma_narrow_widen(a: Self, raw: u128) {
    }

    fn into_raw(self) -> (raw: u128) {
        self as u128
    }

    fn from_raw(raw: u128) -> (r: Option<Self>) {
        if raw <= 0xffff_ffff {
            Some(raw as u32)
        } else {
            None
        }
    }
}

impl Storage for u64 {
    open spec fn kind() -> StorageKind {
        StorageKind::U64
    }

    open spec fn narrow(raw: u128) -> Self {
        raw as u64
    }

    proof fn lemma_narrow_widen(a: Self, raw: u128) {
    }

    fn into_raw(self) -> (raw: u128) {
        self as u128
    }

    fn from_raw(raw: u128) -> (r: Option<Self>) {
        if raw <= 0xffff_ffff_ffff_ffff {
            Some(raw as u64)
        } else {
            None
        }
    }
}

impl Storage for u128 {
    open spec fn kind() -> StorageKind {
        StorageKind::U128
    }

    open spec fn narrow(raw: u128) -> Self {
        raw as u128
    }

    proof fn lemma_narrow_widen(a: Self, raw: u128) {
    }

    fn into_raw(self) -> (raw: u128) {
        self
    }

    fn from_raw(raw: u128) -> (r: Option<Self>) {
        Some(raw)
    }
}

} // verus!
