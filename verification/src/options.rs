//! How a storage stream lays out integers and lengths.

use vstd::prelude::*;

verus! {

/// How integers (or lengths) are written.
#[derive(Clone, Copy, Debug, PartialEq, Eq, Structural)]
pub enum Integer {
    /// Continuation-encoded (LEB128 style) integers; signed values are zig-zag mapped first.
    Variable,
    /// Integers written in full with a fixed number of bytes.
    Fixed,
}

/// The byte order of fixed-width integers.
#[derive(Clone, Copy, Debug, PartialEq, Eq, Structural)]
pub enum ByteOrder {
    /// Least significant byte first.
    LittleEndian,
    /// Most significant byte first (network order).
    BigEndian,
}

/// The width used for fixed-width lengths.
#[derive(Clone, Copy, Debug, PartialEq, Eq, Structural)]
pub enum Width {
    /// One byte.
    U8,
    /// Two bytes.
    U16,
    /// Four bytes.
    U32,
    /// Eight bytes.
    U64,
}

/// The options of a storage stream.
#[derive(Clone, Copy, Debug, PartialEq, Eq, Structural)]
pub struct Options {
    /// Encoding of numbers.
    pub integer: Integer,
    /// Encoding of lengths (`usize`).
    pub length: Integer,
    /// Width of lengths when `length` is [`Integer::Fixed`].
    pub length_width: Width,
    /// Byte order of fixed-width numbers and lengths.
    pub byte_order: ByteOrder,
}

/// The number of bytes of a fixed-width length.
pub open spec fn width_bytes(width: Width) -> nat {
    match width {
        Width::U8 => 1,
        Width::U16 => 2,
        Width::U32 => 4,
        Width::U64 => 8,
    }
}

impl Options {
    /// Variable integers and lengths, little endian byte order, 64-bit fixed lengths.
    pub fn new() -> (options: Options)
        ensures
            options == (Options {
                integer: Integer::Variable,
                length: Integer::Variable,
                length_width: Width::U64,
                byte_order: ByteOrder::LittleEndian,
            }),
    {
        Options {
            integer: Integer::Variable,
            length: Integer::Variable,
            length_width: Width::U64,
            byte_order: ByteOrder::LittleEndian,
        }
    }

    /// The same options with another encoding of numbers.
    pub fn with_integer(self, integer: Integer) -> (options: Options)
        ensures
            options == (Options { integer, ..self }),
    {
        Options { integer, ..self }
    }

    /// The same options with another encoding of lengths.
    pub fn with_length(self, length: Integer) -> (options: Options)
        ensures
            options == (Options { length, ..self }),
    {
        Options { length, ..self }
    }

    /// The same options with another width of fixed-width lengths.
    pub fn with_length_width(self, length_width: Width) -> (options: Options)
        ensures
            options == (Options { length_width, ..self }),
    {
        Options { length_width, ..self }
    }

    /// The same options with another byte order.
    pub fn with_byte_order(self, byte_order: ByteOrder) -> (options: Options)
        ensures
            options == (Options { byte_order, ..self }),
    {
        Options { byte_order, ..self }
    }
}

} // verus!
