//! Packed bitfields, and a few small tools beside them.
//!
//! A packed record is a byte buffer in which fixed-width integer, boolean and
//! enumerated fields lie back to back, with no padding between them. Bit 0 of
//! a buffer is the least significant bit of its first byte, and the first bit
//! of a field is the least significant bit of its value.
//!
//! - [`bits`]: the lowest, the highest, or a run of the bits of one byte.
//! - [`model`]: what a buffer holds, bit by bit, and the laws of reading and
//!   writing fields.
//! - [`codec`]: reading and writing a field, byte by byte.
//! - [`storage`], [`specifier`]: the kinds of field that are known when the
//!   program is written.
//! - [`enumerated`], [`layout`]: enumerated types, records and their layouts
//!   described while the program runs.
//! - [`redirection`]: a record of one byte.
//! - [`channel`], [`cell`], [`refstate`]: a queue between threads, a cell, and
//!   the bookkeeping of borrows checked at run time.

pub mod bits;
pub mod cell;
pub mod channel;
pub mod codec;
pub mod enumerated;
pub mod error;
pub mod layout;
pub mod model;
pub mod redirection;
pub mod refstate;
pub mod specifier;
pub mod storage;

pub use crate::error::Error;
pub use crate::specifier::Specifier;
pub use crate::storage::LastByte;
