//! A record of one byte: a trigger mode in bit 0, a delivery mode in bits 1 to
//! 3, and four reserved bits above them.

use vstd::prelude::*;
use vstd::arithmetic::power2::lemma2_to64;
use vstd::pervasive::unreached;
use crate::model::{lemma_field_value_fits, lemma_write_then_read, lemma_zero_buffer_reads_zero};
use crate::error::Error;
use crate::specifier::{lemma_set_keeps_other_field, lemma_set_then_get, read, written};
use crate::specifier::{Specifier, B4};

verus! {

/// How an interrupt is triggered.
#[derive(Debug, Clone, Copy, PartialEq, Eq, Structural)]
pub enum TriggerMode {
    Edge,
    Level,
}

/// How an interrupt is delivered.
#[derive(Debug, Clone, Copy, PartialEq, Eq, Structural)]
pub enum DeliveryMode {
    Fixed,
    Lowest,
    SMI,
    RemoteRead,
    NMI,
    Init,
    Startup,
    External,
}

impl Specifier for TriggerMode {
    const BITS: usize = 1;

    type Interface = TriggerMode;

    open spec fn width() -> nat {
        1
    }

    proof fn lemma_width() {
        assert(<TriggerMode as Specifier>::BITS == 1);
    }

    open spec fn representable(val: TriggerMode) -> bool {
        true
    }

    open spec fn encode(val: TriggerMode) -> u128 {
        match val {
            TriggerMode::Edge => 0,
            TriggerMode::Level => 1,
        }
    }

    open spec fn decode(raw: u128) -> Result<TriggerMode, Error> {
        if raw == 0 {
            Ok(TriggerMode::Edge)
        } else if raw == 1 {
            Ok(TriggerMode::Level)
        } else {
            Err(Error::UnknownDiscriminant)
        }
    }

    proof fn lemma_decode_encode(val: TriggerMode) {
        lemma2_to64();
    }

    fn to_interface(raw: u128) -> (r: Result<TriggerMode, Error>) {
        if raw == 0 {
            Ok(TriggerMode::Edge)
        } else if raw == 1 {
            Ok(TriggerMode::Level)
        } else {
            Err(Error::UnknownDiscriminant)
        }
    }

    fn from_interface(val: TriggerMode) -> (raw: u128) {
        match val {
            TriggerMode::Edge => 0,
            TriggerMode::Level => 1,
        }
    }
}

impl Specifier for DeliveryMode {
    const BITS: usize = 3;

    type Interface = DeliveryMode;

    open spec fn width() -> nat {
        3
    }

    proof fn lemma_width() {
        assert(<DeliveryMode as Specifier>::BITS == 3);
    }

    open spec fn representable(val: DeliveryMode) -> bool {
        true
    }

    open spec fn encode(val: DeliveryMode) -> u128 {
        match val {
            DeliveryMode::Fixed => 0b000,
            DeliveryMode::Lowest => 0b001,
            DeliveryMode::SMI => 0b010,
            DeliveryMode::RemoteRead => 0b011,
            DeliveryMode::NMI => 0b100,
            DeliveryMode::Init => 0b101,
            DeliveryMode::Startup => 0b110,
            DeliveryMode::External => 0b111,
        }
    }

    open spec fn decode(raw: u128) -> Result<DeliveryMode, Error> {
        if raw == 0b000 {
            Ok(DeliveryMode::Fixed)
        } else if raw == 0b001 {
            Ok(DeliveryMode::Lowest)
        } else if raw == 0b010 {
            Ok(DeliveryMode::SMI)
        } else if raw == 0b011 {
            Ok(DeliveryMode::RemoteRead)
        } else if raw == 0b100 {
            Ok(DeliveryMode::NMI)
        } else if raw == 0b101 {
            Ok(DeliveryMode::Init)
        } else if raw == 0b110 {
            Ok(DeliveryMode::Startup)
        } else if raw == 0b111 {
            Ok(DeliveryMode::External)
        } else {
            Err(Error::UnknownDiscriminant)
        }
    }

    proof fn lemma_decode_encode(val: DeliveryMode) {
        lemma2_to64();
    }

    fn to_interface(raw: u128) -> (r: Result<DeliveryMode, Error>) {
        if raw == 0b000 {
            Ok(DeliveryMode::Fixed)
        } else if raw == 0b001 {
            Ok(DeliveryMode::Lowest)
        } else if raw == 0b010 {
            Ok(DeliveryMode::SMI)
        } else if raw == 0b011 {
            Ok(DeliveryMode::RemoteRead)
        } else if raw == 0b100 {
            Ok(DeliveryMode::NMI)
        } else if raw == 0b101 {
            Ok(DeliveryMode::Init)
        } else if raw == 0b110 {
            Ok(DeliveryMode::Startup)
        } else if raw == 0b111 {
            Ok(DeliveryMode::External)
        } else {
            Err(Error::UnknownDiscriminant)
        }
    }

    fn from_interface(val: DeliveryMode) -> (raw: u128) {
        match val {
            DeliveryMode::Fixed => 0b000,
            DeliveryMode::Lowest => 0b001,
            DeliveryMode::SMI => 0b010,
            DeliveryMode::RemoteRead => 0b011,
            DeliveryMode::NMI => 0b100,
            DeliveryMode::Init => 0b101,
            DeliveryMode::Startup => 0b110,
            DeliveryMode::External => 0b111,
        }
    }
}

/// The bit at which the trigger mode starts.
pub const TRIGGER_MODE_OFFSET: usize = 0;

/// The bit at which the delivery mode starts.
pub const DELIVERY_MODE_OFFSET: usize = 1;

/// The bit at which the reserved bits start.
pub const RESERVED_OFFSET: usize = 4;

/// One entry of a redirection table, packed in one byte.
pub struct RedirectionTableEntry {
    data: [u8; 1],
}

impl View for RedirectionTableEntry {
    type V = Seq<u8>;

    /// The bytes of the entry.
    closed spec fn view(&self) -> Seq<u8> {
        self.data@
    }
}

impl RedirectionTableEntry {
    /// The trigger mode that the entry holds.
    pub open spec fn trigger_mode(&self) -> TriggerMode {
        read::<TriggerMode>(self@, TRIGGER_MODE_OFFSET as int).unwrap()
    }

    /// The delivery mode that the entry holds.
    pub open spec fn delivery_mode(&self) -> DeliveryMode {
        read::<DeliveryMode>(self@, DELIVERY_MODE_OFFSET as int).unwrap()
    }

    /// The reserved bits that the entry holds.
    pub open spec fn reserved(&self) -> u8 {
        read::<B4>(self@, RESERVED_OFFSET as int).unwrap()
    }

    /// The entry whose bits are all zero: triggered by an edge, delivered in
    /// the fixed mode, nothing in the reserved bits.
    pub fn new() -> (entry: Self)
        ensures
            entry@ == seq![0u8],
            entry.trigger_mode() == TriggerMode::Edge,
            entry.delivery_mode() == DeliveryMode::Fixed,
            entry.reserved() == 0,
    {
        let entry = RedirectionTableEntry { data: [0u8; 1] };
        proof {
            assert(entry.data@ =~= seq![0u8]);
            lemma_zero_buffer_reads_zero(entry@, TRIGGER_MODE_OFFSET as int, 1);
            lemma_zero_buffer_reads_zero(entry@, DELIVERY_MODE_OFFSET as int, 3);
            lemma_zero_buffer_reads_zero(entry@, RESERVED_OFFSET as int, 4);
        }
        entry
    }

    /// The byte of the entry.
    pub fn bytes(&self) -> (bytes: [u8; 1])
        ensures
            bytes@ == self@,
    {
        self.data
    }

    /// Every entry has one byte, and each of its fields holds a value.
    pub proof fn lemma_fields_hold_values(&self)
        ensures
            self@.len() == 1,
            read::<TriggerMode>(self@, TRIGGER_MODE_OFFSET as int).is_ok(),
            read::<DeliveryMode>(self@, DELIVERY_MODE_OFFSET as int).is_ok(),
            read::<B4>(self@, RESERVED_OFFSET as int).is_ok(),
            self.reserved() < 16,
    {
        lemma2_to64();
        lemma_field_value_fits(self@, TRIGGER_MODE_OFFSET as int, 1);
        lemma_field_value_fits(self@, DELIVERY_MODE_OFFSET as int, 3);
        lemma_field_value_fits(self@, RESERVED_OFFSET as int, 4);
    }

    /// The trigger mode.
    pub fn get_trigger_mode(&self) -> (val: TriggerMode)
        ensures
            val == self.trigger_mode(),
    {
        proof {
            self.lemma_fields_hold_values();
        }
        match TriggerMode::get(&self.data, TRIGGER_MODE_OFFSET) {
            Ok(val) => val,
            Err(_) => unreached(),
        }
    }

    /// Sets the trigger mode, and leaves the other fields.
    pub fn set_trigger_mode(&mut self, val: TriggerMode)
        ensures
            final(self)@ == written::<TriggerMode>(old(self)@, TRIGGER_MODE_OFFSET as int, val),
            final(self).trigger_mode() == val,
            final(self).delivery_mode() == old(self).delivery_mode(),
            final(self).reserved() == old(self).reserved(),
    {
        proof {
            self.lemma_fields_hold_values();
            lemma_set_then_get::<TriggerMode>(self@, TRIGGER_MODE_OFFSET as int, val);
            lemma_set_keeps_other_field::<TriggerMode, DeliveryMode>(
                self@,
                TRIGGER_MODE_OFFSET as int,
                val,
                DELIVERY_MODE_OFFSET as int,
            );
            lemma_set_keeps_other_field::<TriggerMode, B4>(
                self@,
                TRIGGER_MODE_OFFSET as int,
                val,
                RESERVED_OFFSET as int,
            );
        }
        TriggerMode::set(&mut self.data, TRIGGER_MODE_OFFSET, val);
    }

    /// The delivery mode.
    pub fn get_delivery_mode(&self) -> (val: DeliveryMode)
        ensures
            val == self.delivery_mode(),
    {
        proof {
            self.lemma_fields_hold_values();
        }
        match DeliveryMode::get(&self.data, DELIVERY_MODE_OFFSET) {
            Ok(val) => val,
            Err(_) => unreached(),
        }
    }

    /// Sets the delivery mode, and leaves the other fields.
    pub fn set_delivery_mode(&mut self, val: DeliveryMode)
        ensures
            final(self)@ == written::<DeliveryMode>(old(self)@, DELIVERY_MODE_OFFSET as int, val),
            final(self).delivery_mode() == val,
            final(self).trigger_mode() == old(self).trigger_mode(),
            final(self).reserved() == old(self).reserved(),
    {
        proof {
            self.lemma_fields_hold_values();
            lemma_set_then_get::<DeliveryMode>(self@, DELIVERY_MODE_OFFSET as int, val);
            lemma_set_keeps_other_field::<DeliveryMode, TriggerMode>(
                self@,
                DELIVERY_MODE_OFFSET as int,
                val,
                TRIGGER_MODE_OFFSET as int,
            );
            lemma_set_keeps_other_field::<DeliveryMode, B4>(
                self@,
                DELIVERY_MODE_OFFSET as int,
                val,
                RESERVED_OFFSET as int,
            );
        }
        DeliveryMode::set(&mut self.data, DELIVERY_MODE_OFFSET, val);
    }

    /// The reserved bits.
    pub fn get_reserved(&self) -> (val: u8)
        ensures
            val == self.reserved(),
    {
        proof {
            self.lemma_fields_hold_values();
        }
        match B4::get(&self.data, RESERVED_OFFSET) {
            Ok(val) => val,
            Err(_) => unreached(),
        }
    }

    /// Sets the reserved bits to the four lowest bits of `val`, and leaves the
    /// other fields.
    pub fn set_reserved(&mut self, val: u8)
        ensures
            final(self)@ == written::<B4>(old(self)@, RESERVED_OFFSET as int, val),
            final(self).reserved() == val % 16,
            final(self).trigger_mode() == old(self).trigger_mode(),
            final(self).delivery_mode() == old(self).delivery_mode(),
    {
        proof {
            self.lemma_fields_hold_values();
            lemma_write_then_read(self@, RESERVED_OFFSET as int, 4, val as u128);
            assert(((val as u128) & !(u128::MAX << 4u128)) == val % 16) by (bit_vector);
            lemma_set_keeps_other_field::<B4, TriggerMode>(
                self@,
                RESERVED_OFFSET as int,
                val,
                TRIGGER_MODE_OFFSET as int,
            );
            lemma_set_keeps_other_field::<B4, DeliveryMode>(
                self@,
                RESERVED_OFFSET as int,
                val,
                DELIVERY_MODE_OFFSET as int,
            );
        }
        B4::set(&mut self.data, RESERVED_OFFSET, val);
    }
}

} // verus!
