//! Verified storage decoding in the style of musli.
//!
//! - [`context`]: the [`context::Context`] diagnostics are reported through.
//! - [`options`]: how a storage stream lays out integers and lengths.
//! - [`reader`]: reading bytes out of a borrowed slice.
//! - [`integers`]: decoding integers and lengths, and the laws of their layout.
//! - [`value_visitor`]: visitors of values a decoder may borrow.
//! - [`de`]: the storage decoder and its length-prefixed wrapper.
//! - [`en`]: what a derived `Encode` implementation does, and the laws of its size hints.

pub mod context;
pub mod options;
pub mod reader;
pub mod value_visitor;
pub mod integers;
pub mod de;
pub mod en;
