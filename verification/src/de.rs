//! A very simple decoder suitable for storage decoding.

use vstd::arithmetic::power2::*;
use vstd::prelude::*;
use vstd::utf8::*;

use crate::context::{reported_at, Context, Message};
use crate::integers::{
    decode_signed, decode_unsigned, decode_usize, spec_signed, spec_unsigned, spec_usize,
    twos_complement,
};
use crate::options::Options;
use crate::reader::{underflow, SliceReader};
use crate::value_visitor::ValueVisitor;

verus! {

/// How many items a length-prefixed decoder announces.
#[derive(Clone, Copy, Debug, PartialEq, Eq, Structural)]
pub enum SizeHint {
    /// Nothing is known.
    Any,
    /// Exactly this many items.
    Exact(usize),
}

#[verifier::external_type_specification]
#[verifier::external_body]
pub struct ExUtf8Error(core::str::Utf8Error);

#[verifier::external_type_specification]
#[verifier::external_body]
pub struct ExFromUtf8Error(std::string::FromUtf8Error);

/// `core::str::from_utf8`: succeeds exactly on well-formed UTF-8, and the string it
/// returns is the decoding of the bytes.
#[verifier::external_body]
fn str_from_utf8(bytes: &[u8]) -> (r: Result<&str, core::str::Utf8Error>)
    ensures
        r is Ok <==> valid_utf8(bytes@),
        r matches Ok(s) ==> s@ == decode_utf8(bytes@),
{
    core::str::from_utf8(bytes)
}

/// `String::from_utf8`: succeeds exactly on well-formed UTF-8, and the string it
/// returns is the decoding of the bytes.
#[verifier::external_body]
fn string_from_utf8(bytes: Vec<u8>) -> (r: Result<String, std::string::FromUtf8Error>)
    ensures
        r is Ok <==> valid_utf8(bytes@),
        r matches Ok(s) ==> s@ == decode_utf8(bytes@),
{
    String::from_utf8(bytes)
}

/// `char::from_u32`: `Some` exactly for Unicode scalar values, holding the character
/// whose number is `n`.
#[verifier::external_body]
fn char_from_u32(n: u32) -> (r: Option<char>)
    ensures
        r is Some <==> is_scalar(n),
        r matches Some(c) ==> c as u32 == n,
{
    char::from_u32(n)
}

/// A very simple decoder suitable for storage decoding.
pub struct StorageDecoder<'a, 'r, 'de, C: Context> {
    /// The context diagnostics are reported to.
    pub cx: &'a C,
    /// The input.
    pub reader: &'r mut SliceReader<'de>,
    /// How integers and lengths are laid out.
    pub options: Options,
}

/// A length-prefixed decode wrapper.
pub struct LimitedStorageDecoder<'a, 'r, 'de, C: Context> {
    /// The number of items that have not been handed out yet.
    pub remaining: usize,
    /// The decoder of the items.
    pub decoder: StorageDecoder<'a, 'r, 'de, C>,
}

/// The string visitor behind [`StorageDecoder::decode_string`]: checks that the bytes are
/// UTF-8 and hands them on as a string to the visitor it wraps.
pub struct StrVisitor<V>(pub V);

impl<'de, C: Context, V: ValueVisitor<'de, C, str>> ValueVisitor<'de, C, [u8]> for StrVisitor<V> {
    type Ok = V::Ok;

    fn expecting(&self) -> (s: String)
        ensures
            call_ensures(V::expecting, (&self.0,), s),
    {
        self.0.expecting()
    }

    fn visit_owned(self, cx: &C, bytes: Vec<u8>) -> (r: Result<Self::Ok, C::Error>)
        ensures
            !valid_utf8(bytes@) ==> r is Err,
            valid_utf8(bytes@) ==> exists|string: String|
                string@ == decode_utf8(bytes@) && #[trigger] call_ensures(
                    V::visit_owned,
                    (self.0, cx, string),
                    r,
                ),
    {
        match string_from_utf8(bytes) {
            Ok(string) => self.0.visit_owned(cx, string),
            Err(error) => Err(cx.custom(error)),
        }
    }

    fn visit_borrowed(self, cx: &C, bytes: &'de [u8]) -> (r: Result<Self::Ok, C::Error>)
        ensures
            !valid_utf8(bytes@) ==> r is Err,
            valid_utf8(bytes@) ==> exists|string: &'de str|
                string@ == decode_utf8(bytes@) && #[trigger] call_ensures(
                    V::visit_borrowed,
                    (self.0, cx, string),
                    r,
                ),
    {
        match str_from_utf8(bytes) {
            Ok(string) => self.0.visit_borrowed(cx, string),
            Err(error) => Err(cx.custom(error)),
        }
    }

    fn visit_ref(self, cx: &C, bytes: &[u8]) -> (r: Result<Self::Ok, C::Error>)
        ensures
            !valid_utf8(bytes@) ==> r is Err,
            valid_utf8(bytes@) ==> exists|string: &str|
                string@ == decode_utf8(bytes@) && #[trigger] call_ensures(
                    V::visit_ref,
                    (self.0, cx, string),
                    r,
                ),
    {
        match str_from_utf8(bytes) {
            Ok(string) => self.0.visit_ref(cx, string),
            Err(error) => Err(cx.custom(error)),
        }
    }
}

impl<'a, 'r, 'de, C: Context> StorageDecoder<'a, 'r, 'de, C> {
    /// Construct a new storage decoder reading from `reader`.
    pub fn new(cx: &'a C, reader: &'r mut SliceReader<'de>, options: Options) -> (d: Self)
        ensures
            d.cx == cx,
            d.options == options,
            *d.reader == *old(reader),
            *final(d.reader) == *final(reader),
    {
        StorageDecoder { cx, reader, options }
    }

    /// The context of this decoder.
    pub fn cx(&self) -> (cx: &'a C)
        ensures
            cx == self.cx,
    {
        self.cx
    }

    /// The same decoder, reporting to another context.
    pub fn with_context<'b, U: Context>(self, cx: &'b U) -> (r: Result<
        StorageDecoder<'b, 'r, 'de, U>,
        C::Error,
    >)
        ensures
            r matches Ok(d) && d.cx == cx && d.options == self.options && *d.reader
                == *old(self.reader) && *final(d.reader) == *final(self.reader),
    {
        Ok(StorageDecoder::new(cx, self.reader, self.options))
    }

    /// What this decoder is able to decode.
    pub fn expecting(&self) -> (s: &'static str)
        ensures
            s@ == "type supported by the storage decoder"@,
    {
        "type supported by the storage decoder"
    }

    /// Decode a unit: an empty sequence.
    pub fn decode_unit(self) -> (r: Result<(), C::Error>)
        ensures
            ({
                let (res, used) = spec_usize(self.options, old(self.reader)@);
                &&& final(self.reader)@ == old(self.reader)@.skip(used as int)
                &&& match res {
                    Ok(n) => if n == 0 {
                        r is Ok
                    } else {
                        r matches Err(e) && reported_at(
                            self.cx,
                            Message::ExpectedEmptySequence { actual: n as usize },
                            e,
                        )
                    },
                    Err(m) => r == Err::<(), C::Error>(self.cx.message_error(m)),
                }
            }),
    {
        let mark = self.cx.mark();
        let count = match decode_usize(self.cx, self.reader, self.options) {
            Ok(count) => count,
            Err(e) => return Err(e),
        };
        if count != 0 {
            return Err(self.cx.message_at(&mark, Message::ExpectedEmptySequence { actual: count }));
        }
        Ok(())
    }

    /// Decode a pack: its items follow one another without any framing.
    pub fn decode_pack(self) -> (r: Result<Self, C::Error>)
        ensures
            r matches Ok(d) && d.cx == self.cx && d.options == self.options && *d.reader
                == *old(self.reader) && *final(d.reader) == *final(self.reader),
    {
        Ok(self)
    }

    /// Decode an array of `N` bytes.
    pub fn decode_array<const N: usize>(self) -> (r: Result<[u8; N], C::Error>)
        ensures
            N > old(self.reader)@.len() ==> (r matches Err(e) && e == self.cx.message_error(
                underflow(N as nat, old(self.reader)@.len()),
            )) && final(self.reader)@ == old(self.reader)@,
            N <= old(self.reader)@.len() ==> (r matches Ok(a) && a@ == old(self.reader)@.take(
                N as int,
            )) && final(self.reader)@ == old(self.reader)@.skip(N as int),
    {
        self.reader.read_array(self.cx)
    }

    /// Decode length-prefixed bytes and hand them to `visitor` as a borrow of the input; the
    /// result is what the visitor returns.
    pub fn decode_bytes<V: ValueVisitor<'de, C, [u8]>>(self, visitor: V) -> (r: Result<
        V::Ok,
        C::Error,
    >)
        ensures
            ({
                let (res, used) = spec_usize(self.options, old(self.reader)@);
                let rest = old(self.reader)@.skip(used as int);
                match res {
                    Ok(n) => if n > rest.len() {
                        (r matches Err(e) && e == self.cx.message_error(underflow(n, rest.len())))
                            && final(self.reader)@ == rest
                    } else {
                        &&& final(self.reader)@ == rest.skip(n as int)
                        &&& exists|bytes: &'de [u8]|
                            bytes@ == rest.take(n as int) && #[trigger] call_ensures(
                                V::visit_borrowed,
                                (visitor, self.cx, bytes),
                                r,
                            )
                    },
                    Err(m) => (r matches Err(e) && e == self.cx.message_error(m))
                        && final(self.reader)@ == rest,
                }
            }),
    {
        let len = match decode_usize(self.cx, self.reader, self.options) {
            Ok(len) => len,
            Err(e) => return Err(e),
        };
        self.reader.read_bytes(self.cx, len, visitor)
    }

    /// Decode a length-prefixed string and hand it to `visitor` as a borrow of the input; the
    /// result is what the visitor returns. Bytes that are not UTF-8 are reported through
    /// [`Context::custom`] and the visitor is not called.
    pub fn decode_string<V: ValueVisitor<'de, C, str>>(self, visitor: V) -> (r: Result<
        V::Ok,
        C::Error,
    >)
        ensures
            ({
                let (res, used) = spec_usize(self.options, old(self.reader)@);
                let rest = old(self.reader)@.skip(used as int);
                match res {
                    Ok(n) => if n > rest.len() {
                        (r matches Err(e) && e == self.cx.message_error(underflow(n, rest.len())))
                            && final(self.reader)@ == rest
                    } else {
                        &&& final(self.reader)@ == rest.skip(n as int)
                        &&& !valid_utf8(rest.take(n as int)) ==> r is Err
                        &&& valid_utf8(rest.take(n as int)) ==> exists|string: &'de str|
                            string@ == decode_utf8(rest.take(n as int)) && #[trigger] call_ensures(
                                V::visit_borrowed,
                                (visitor, self.cx, string),
                                r,
                            )
                    },
                    Err(m) => (r matches Err(e) && e == self.cx.message_error(m))
                        && final(self.reader)@ == rest,
                }
            }),
    {
        self.decode_bytes(StrVisitor(visitor))
    }

    /// Decode a boolean: the byte `0` or `1`.
    pub fn decode_bool(self) -> (r: Result<bool, C::Error>)
        ensures
            old(self.reader)@.len() == 0 ==> r == Err::<bool, C::Error>(
                self.cx.message_error(underflow(1, 0)),
            ) && final(self.reader)@ == old(self.reader)@,
            old(self.reader)@.len() > 0 ==> final(self.reader)@ == old(self.reader)@.drop_first()
                && if old(self.reader)@[0] == 0 {
                r == Ok::<bool, C::Error>(false)
            } else if old(self.reader)@[0] == 1 {
                r == Ok::<bool, C::Error>(true)
            } else {
                r matches Err(e) && reported_at(
                    self.cx,
                    Message::BadBoolean { actual: old(self.reader)@[0] },
                    e,
                )
            },
    {
        let mark = self.cx.mark();
        let byte = match self.reader.read_byte(self.cx) {
            Ok(byte) => byte,
            Err(e) => return Err(e),
        };
        if byte == 0 {
            Ok(false)
        } else if byte == 1 {
            Ok(true)
        } else {
            Err(self.cx.message_at(&mark, Message::BadBoolean { actual: byte }))
        }
    }

    /// Decode a character: a 32-bit number that must be a Unicode scalar value.
    pub fn decode_char(self) -> (r: Result<char, C::Error>)
        ensures
            ({
                let (res, used) = spec_unsigned(self.options, 32, old(self.reader)@);
                &&& final(self.reader)@ == old(self.reader)@.skip(used as int)
                &&& match res {
                    Ok(n) => if is_scalar(n as u32) {
                        r matches Ok(c) && c as u32 == n
                    } else {
                        r matches Err(e) && reported_at(
                            self.cx,
                            Message::BadCharacter { actual: n as u32 },
                            e,
                        )
                    },
                    Err(m) => r == Err::<char, C::Error>(self.cx.message_error(m)),
                }
            }),
    {
        proof {
            crate::integers::lemma_unsigned_bound(self.options, 32, old(self.reader)@);
            lemma2_to64();
        }
        let cx = self.cx;
        let mark = cx.mark();
        let num = match self.decode_u32() {
            Ok(num) => num,
            Err(e) => return Err(e),
        };
        match char_from_u32(num) {
            Some(c) => Ok(c),
            None => Err(cx.message_at(&mark, Message::BadCharacter { actual: num })),
        }
    }

    /// Decode a `u8`: a single byte, whatever the options.
    pub fn decode_u8(self) -> (r: Result<u8, C::Error>)
        ensures
            old(self.reader)@.len() == 0 ==> r == Err::<u8, C::Error>(
                self.cx.message_error(underflow(1, 0)),
            ) && final(self.reader)@ == old(self.reader)@,
            old(self.reader)@.len() > 0 ==> r == Ok::<u8, C::Error>(old(self.reader)@[0])
                && final(self.reader)@ == old(self.reader)@.drop_first(),
    {
        self.reader.read_byte(self.cx)
    }

    /// Decode a `u16` as the options lay it out.
    pub fn decode_u16(self) -> (r: Result<u16, C::Error>)
        ensures
            ({
                let (res, used) = spec_unsigned(self.options, 16, old(self.reader)@);
                &&& final(self.reader)@ == old(self.reader)@.skip(used as int)
                &&& match res {
                    Ok(v) => r == Ok::<u16, C::Error>(v as u16),
                    Err(m) => r == Err::<u16, C::Error>(self.cx.message_error(m)),
                }
            }),
    {
        proof {
            lemma2_to64();
        }
        match decode_unsigned(self.cx, self.reader, self.options, 16) {
            Ok(v) => Ok(v as u16),
            Err(e) => Err(e),
        }
    }

    /// Decode a `u32` as the options lay it out.
    pub fn decode_u32(self) -> (r: Result<u32, C::Error>)
        ensures
            ({
                let (res, used) = spec_unsigned(self.options, 32, old(self.reader)@);
                &&& final(self.reader)@ == old(self.reader)@.skip(used as int)
                &&& match res {
                    Ok(v) => r == Ok::<u32, C::Error>(v as u32),
                    Err(m) => r == Err::<u32, C::Error>(self.cx.message_error(m)),
                }
            }),
    {
        proof {
            lemma2_to64();
        }
        match decode_unsigned(self.cx, self.reader, self.options, 32) {
            Ok(v) => Ok(v as u32),
            Err(e) => Err(e),
        }
    }

    /// Decode a `u64` as the options lay it out.
    pub fn decode_u64(self) -> (r: Result<u64, C::Error>)
        ensures
            ({
                let (res, used) = spec_unsigned(self.options, 64, old(self.reader)@);
                &&& final(self.reader)@ == old(self.reader)@.skip(used as int)
                &&& match res {
                    Ok(v) => r == Ok::<u64, C::Error>(v as u64),
                    Err(m) => r == Err::<u64, C::Error>(self.cx.message_error(m)),
                }
            }),
    {
        proof {
            lemma2_to64();
            lemma2_to64_rest();
        }
        match decode_unsigned(self.cx, self.reader, self.options, 64) {
            Ok(v) => Ok(v as u64),
            Err(e) => Err(e),
        }
    }

    /// Decode a `u128` as the options lay it out.
    pub fn decode_u128(self) -> (r: Result<u128, C::Error>)
        ensures
            ({
                let (res, used) = spec_unsigned(self.options, 128, old(self.reader)@);
                &&& final(self.reader)@ == old(self.reader)@.skip(used as int)
                &&& match res {
                    Ok(v) => r == Ok::<u128, C::Error>(v as u128),
                    Err(m) => r == Err::<u128, C::Error>(self.cx.message_error(m)),
                }
            }),
    {
        decode_unsigned(self.cx, self.reader, self.options, 128)
    }

    /// Decode an `i8`: a single byte read in two's complement, whatever the options.
    pub fn decode_i8(self) -> (r: Result<i8, C::Error>)
        ensures
            old(self.reader)@.len() == 0 ==> r == Err::<i8, C::Error>(
                self.cx.message_error(underflow(1, 0)),
            ) && final(self.reader)@ == old(self.reader)@,
            old(self.reader)@.len() > 0 ==> r == Ok::<i8, C::Error>(
                twos_complement(old(self.reader)@[0] as nat, 8) as i8,
            ) && final(self.reader)@ == old(self.reader)@.drop_first(),
    {
        proof {
            lemma2_to64();
        }
        match self.decode_u8() {
            Ok(b) => if b <= 127 {
                Ok(b as i8)
            } else {
                Ok(-((255 - b) as i8) - 1)
            },
            Err(e) => Err(e),
        }
    }

    /// Decode an `i16` as the options lay it out.
    pub fn decode_i16(self) -> (r: Result<i16, C::Error>)
        ensures
            ({
                let (res, used) = spec_signed(self.options, 16, old(self.reader)@);
                &&& final(self.reader)@ == old(self.reader)@.skip(used as int)
                &&& match res {
                    Ok(v) => r == Ok::<i16, C::Error>(v as i16),
                    Err(m) => r == Err::<i16, C::Error>(self.cx.message_error(m)),
                }
            }),
    {
        proof {
            lemma2_to64();
        }
        match decode_signed(self.cx, self.reader, self.options, 16) {
            Ok(v) => Ok(v as i16),
            Err(e) => Err(e),
        }
    }

    /// Decode an `i32` as the options lay it out.
    pub fn decode_i32(self) -> (r: Result<i32, C::Error>)
        ensures
            ({
                let (res, used) = spec_signed(self.options, 32, old(self.reader)@);
                &&& final(self.reader)@ == old(self.reader)@.skip(used as int)
                &&& match res {
                    Ok(v) => r == Ok::<i32, C::Error>(v as i32),
                    Err(m) => r == Err::<i32, C::Error>(self.cx.message_error(m)),
                }
            }),
    {
        proof {
            lemma2_to64();
        }
        match decode_signed(self.cx, self.reader, self.options, 32) {
            Ok(v) => Ok(v as i32),
            Err(e) => Err(e),
        }
    }

    /// Decode an `i64` as the options lay it out.
    pub fn decode_i64(self) -> (r: Result<i64, C::Error>)
        ensures
            ({
                let (res, used) = spec_signed(self.options, 64, old(self.reader)@);
                &&& final(self.reader)@ == old(self.reader)@.skip(used as int)
                &&& match res {
                    Ok(v) => r == Ok::<i64, C::Error>(v as i64),
                    Err(m) => r == Err::<i64, C::Error>(self.cx.message_error(m)),
                }
            }),
    {
        proof {
            lemma2_to64();
            lemma2_to64_rest();
        }
        match decode_signed(self.cx, self.reader, self.options, 64) {
            Ok(v) => Ok(v as i64),
            Err(e) => Err(e),
        }
    }

    /// Decode an `i128` as the options lay it out.
    pub fn decode_i128(self) -> (r: Result<i128, C::Error>)
        ensures
            ({
                let (res, used) = spec_signed(self.options, 128, old(self.reader)@);
                &&& final(self.reader)@ == old(self.reader)@.skip(used as int)
                &&& match res {
                    Ok(v) => r == Ok::<i128, C::Error>(v as i128),
                    Err(m) => r == Err::<i128, C::Error>(self.cx.message_error(m)),
                }
            }),
    {
        decode_signed(self.cx, self.reader, self.options, 128)
    }

    /// Decode a `usize` as the options lay lengths out.
    pub fn decode_usize(self) -> (r: Result<usize, C::Error>)
        ensures
            ({
                let (res, used) = spec_usize(self.options, old(self.reader)@);
                &&& final(self.reader)@ == old(self.reader)@.skip(used as int)
                &&& match res {
                    Ok(v) => r == Ok::<usize, C::Error>(v as usize),
                    Err(m) => r == Err::<usize, C::Error>(self.cx.message_error(m)),
                }
            }),
    {
        decode_usize(self.cx, self.reader, self.options)
    }

    /// Decode an `isize`: a `usize` read in two's complement.
    pub fn decode_isize(self) -> (r: Result<isize, C::Error>)
        ensures
            ({
                let (res, used) = spec_usize(self.options, old(self.reader)@);
                &&& final(self.reader)@ == old(self.reader)@.skip(used as int)
                &&& match res {
                    Ok(v) => r == Ok::<isize, C::Error>(
                        twos_complement(v, usize::BITS as nat) as isize,
                    ),
                    Err(m) => r == Err::<isize, C::Error>(self.cx.message_error(m)),
                }
            }),
    {
        proof {
            lemma2_to64();
            lemma2_to64_rest();
        }
        match self.decode_usize() {
            Ok(v) => if v <= isize::MAX as usize {
                Ok(v as isize)
            } else {
                Ok(-((usize::MAX - v) as isize) - 1)
            },
            Err(e) => Err(e),
        }
    }

    /// Decode an optional value: present when the leading byte is `1`.
    pub fn decode_option(self) -> (r: Result<Option<Self>, C::Error>)
        ensures
            old(self.reader)@.len() == 0 ==> (r matches Err(e) && e == self.cx.message_error(
                underflow(1, 0),
            )) && final(self.reader)@ == old(self.reader)@,
            old(self.reader)@.len() > 0 && old(self.reader)@[0] == 1 ==> (r matches Ok(Some(d))
                && d.cx == self.cx && d.options == self.options && (*d.reader)@ == old(self.reader)@.drop_first() && *final(d.reader) == *final(self.reader)),
            old(self.reader)@.len() > 0 && old(self.reader)@[0] != 1 ==> (r matches Ok(None))
                && final(self.reader)@ == old(self.reader)@.drop_first(),
    {
        let b = match self.reader.read_byte(self.cx) {
            Ok(b) => b,
            Err(e) => return Err(e),
        };
        if b == 1 {
            Ok(Some(self))
        } else {
            Ok(None)
        }
    }

    /// Decode a sequence: a length prefix, then that many items.
    pub fn decode_sequence(self) -> (r: Result<LimitedStorageDecoder<'a, 'r, 'de, C>, C::Error>)
        ensures
            ({
                let (res, used) = spec_usize(self.options, old(self.reader)@);
                match res {
                    Ok(n) => (r matches Ok(l) && l.remaining == n && l.decoder.cx == self.cx
                        && l.decoder.options == self.options && (*l.decoder.reader)@ == old(self.reader)@.skip(used as int) && *final(l.decoder.reader) == *final(self.reader)),
                    Err(m) => (r matches Err(e) && e == self.cx.message_error(m)) && final(self.reader)@ == old(self.reader)@.skip(used as int),
                }
            }),
    {
        LimitedStorageDecoder::new(self)
    }

    /// Decode a tuple: its items follow one another without any framing.
    pub fn decode_tuple(self, len: usize) -> (r: Result<Self, C::Error>)
        ensures
            r matches Ok(d) && d.cx == self.cx && d.options == self.options && *d.reader == *old(self.reader) && *final(d.reader) == *final(self.reader),
    {
        Ok(self)
    }

    /// Decode a map: a length prefix, then that many entries.
    pub fn decode_map(self) -> (r: Result<LimitedStorageDecoder<'a, 'r, 'de, C>, C::Error>)
        ensures
            ({
                let (res, used) = spec_usize(self.options, old(self.reader)@);
                match res {
                    Ok(n) => (r matches Ok(l) && l.remaining == n && l.decoder.cx == self.cx
                        && l.decoder.options == self.options && (*l.decoder.reader)@ == old(self.reader)@.skip(used as int) && *final(l.decoder.reader) == *final(self.reader)),
                    Err(m) => (r matches Err(e) && e == self.cx.message_error(m)) && final(self.reader)@ == old(self.reader)@.skip(used as int),
                }
            }),
    {
        LimitedStorageDecoder::new(self)
    }

    /// Decode a struct: a length prefix, then that many fields.
    pub fn decode_struct(self, hint: Option<usize>) -> (r: Result<
        LimitedStorageDecoder<'a, 'r, 'de, C>,
        C::Error,
    >)
        ensures
            ({
                let (res, used) = spec_usize(self.options, old(self.reader)@);
                match res {
                    Ok(n) => (r matches Ok(l) && l.remaining == n && l.decoder.cx == self.cx
                        && l.decoder.options == self.options && (*l.decoder.reader)@ == old(self.reader)@.skip(used as int) && *final(l.decoder.reader) == *final(self.reader)),
                    Err(m) => (r matches Err(e) && e == self.cx.message_error(m)) && final(self.reader)@ == old(self.reader)@.skip(used as int),
                }
            }),
    {
        LimitedStorageDecoder::new(self)
    }

    /// Decode a variant: its tag, then its value.
    pub fn decode_variant(self) -> (r: Result<Self, C::Error>)
        ensures
            r matches Ok(d) && d.cx == self.cx && d.options == self.options && *d.reader == *old(self.reader) && *final(d.reader) == *final(self.reader),
    {
        Ok(self)
    }

    /// A decoder of the next item of a pack, reading from the same input.
    pub fn decode_next(&mut self) -> (r: Result<StorageDecoder<'a, '_, 'de, C>, C::Error>)
        ensures
            r matches Ok(d) && d.cx == old(self).cx && d.options == old(self).options && *d.reader
                == *old(self).reader && *final(d.reader) == *final(self).reader,
            final(self).cx == old(self).cx,
            final(self).options == old(self).options,
    {
        Ok(StorageDecoder::new(self.cx, &mut *self.reader, self.options))
    }

    /// Finish decoding a pack or a variant.
    pub fn end(self) -> (r: Result<(), C::Error>)
        ensures
            r is Ok,
            *final(self.reader) == *old(self.reader),
    {
        Ok(())
    }

    /// A decoder of the key of a map entry, reading from the same input.
    pub fn decode_map_key(&mut self) -> (r: Result<StorageDecoder<'a, '_, 'de, C>, C::Error>)
        ensures
            r matches Ok(d) && d.cx == old(self).cx && d.options == old(self).options && *d.reader
                == *old(self).reader && *final(d.reader) == *final(self).reader,
            final(self).cx == old(self).cx,
            final(self).options == old(self).options,
    {
        Ok(StorageDecoder::new(self.cx, &mut *self.reader, self.options))
    }

    /// The decoder of the value of a map entry: this one.
    pub fn decode_map_value(self) -> (r: Result<Self, C::Error>)
        ensures
            r matches Ok(d) && d.cx == self.cx && d.options == self.options && *d.reader == *old(self.reader) && *final(d.reader) == *final(self.reader),
    {
        Ok(self)
    }

    /// Values cannot be skipped in a storage stream.
    pub fn skip_map_value(self) -> (r: Result<bool, C::Error>)
        ensures
            r == Ok::<bool, C::Error>(false),
            *final(self.reader) == *old(self.reader),
    {
        Ok(false)
    }

    /// A decoder of the name of a struct field, reading from the same input.
    pub fn decode_field_name(&mut self) -> (r: Result<StorageDecoder<'a, '_, 'de, C>, C::Error>)
        ensures
            r matches Ok(d) && d.cx == old(self).cx && d.options == old(self).options && *d.reader
                == *old(self).reader && *final(d.reader) == *final(self).reader,
            final(self).cx == old(self).cx,
            final(self).options == old(self).options,
    {
        self.decode_map_key()
    }

    /// The decoder of the value of a struct field: this one.
    pub fn decode_field_value(self) -> (r: Result<Self, C::Error>)
        ensures
            r matches Ok(d) && d.cx == self.cx && d.options == self.options && *d.reader == *old(self.reader) && *final(d.reader) == *final(self.reader),
    {
        self.decode_map_value()
    }

    /// Field values cannot be skipped in a storage stream.
    pub fn skip_field_value(self) -> (r: Result<bool, C::Error>)
        ensures
            r == Ok::<bool, C::Error>(false),
            *final(self.reader) == *old(self.reader),
    {
        self.skip_map_value()
    }

    /// A decoder of the tag of a variant, reading from the same input.
    pub fn decode_tag(&mut self) -> (r: Result<StorageDecoder<'a, '_, 'de, C>, C::Error>)
        ensures
            r matches Ok(d) && d.cx == old(self).cx && d.options == old(self).options && *d.reader
                == *old(self).reader && *final(d.reader) == *final(self).reader,
            final(self).cx == old(self).cx,
            final(self).options == old(self).options,
    {
        Ok(StorageDecoder::new(self.cx, &mut *self.reader, self.options))
    }

    /// A decoder of the value of a variant, reading from the same input.
    pub fn decode_value(&mut self) -> (r: Result<StorageDecoder<'a, '_, 'de, C>, C::Error>)
        ensures
            r matches Ok(d) && d.cx == old(self).cx && d.options == old(self).options && *d.reader
                == *old(self).reader && *final(d.reader) == *final(self).reader,
            final(self).cx == old(self).cx,
            final(self).options == old(self).options,
    {
        Ok(StorageDecoder::new(self.cx, &mut *self.reader, self.options))
    }

    /// Variant values cannot be skipped in a storage stream.
    pub fn skip_value(&mut self) -> (r: Result<bool, C::Error>)
        ensures
            r == Ok::<bool, C::Error>(false),
            *final(self) == *old(self),
    {
        Ok(false)
    }
}



/// One request for the next item of a limited decoder: with `before` items left, an item is
/// `handed` out exactly when one is left, and then one fewer is left `after` it.
pub open spec fn item_step(before: usize, after: usize, handed: bool) -> bool {
    if before == 0 {
        !handed && after == 0
    } else {
        handed && after == before - 1
    }
}

/// The number of items a limited decoder that announced `n` has left after `k` requests.
pub open spec fn items_left(n: usize, k: int) -> int {
    if k < n {
        n - k
    } else {
        0
    }
}

proof fn lemma_items_left_at(n: usize, remaining: Seq<usize>, handed: Seq<bool>, k: int)
    requires
        remaining.len() == handed.len() + 1,
        remaining[0] == n,
        forall|j: int|
            0 <= j < handed.len() ==> #[trigger] item_step(remaining[j], remaining[j + 1], handed[j]),
        0 <= k < remaining.len(),
    ensures
        remaining[k] == items_left(n, k),
    decreases k,
{
    if k > 0 {
        let j = k - 1;
        lemma_items_left_at(n, remaining, handed, j);
        assert(item_step(remaining[j], remaining[j + 1], handed[j]));
    }
}

/// A limited decoder hands out exactly the items its length prefix announced, then nothing:
/// over any run of requests (`decode_next`, `decode_entry`, `decode_field`,
/// `decode_map_entry_key` or `decode_struct_field_name`) starting from `n` announced items,
/// the `k`-th request hands out an item exactly when `k < n`, and after `k` requests
/// `n - k` items are left (none once `k >= n`), which is the exact size hint it reports.
pub proof fn lemma_items_handed_out(n: usize, remaining: Seq<usize>, handed: Seq<bool>)
    requires
        remaining.len() == handed.len() + 1,
        remaining[0] == n,
        forall|j: int|
            0 <= j < handed.len() ==> #[trigger] item_step(remaining[j], remaining[j + 1], handed[j]),
    ensures
        forall|k: int| 0 <= k < handed.len() ==> (#[trigger] handed[k] <==> k < n),
        forall|k: int| 0 <= k < remaining.len() ==> #[trigger] remaining[k] == items_left(n, k),
{
    assert forall|k: int| 0 <= k < remaining.len() implies #[trigger] remaining[k] == items_left(n, k) by {
        lemma_items_left_at(n, remaining, handed, k);
    }
    assert forall|k: int| 0 <= k < handed.len() implies (#[trigger] handed[k] <==> k < n) by {
        lemma_items_left_at(n, remaining, handed, k);
        assert(item_step(remaining[k], remaining[k + 1], handed[k]));
    }
}

/// Pack items are read back to back: when `x1` holds exactly one unsigned integer of
/// `bits1` bits and `x2` starts with one of `bits2` bits, reading the first from
/// `x1 + x2 + rest` gives the value of `x1` and consumes all of `x1`, and reading the
/// second from what is left gives the value of `x2`, consuming what it consumes alone.
pub proof fn lemma_pack_back_to_back(
    options: Options,
    bits1: nat,
    bits2: nat,
    x1: Seq<u8>,
    x2: Seq<u8>,
    rest: Seq<u8>,
)
    requires
        crate::integers::supported_bits(bits1),
        crate::integers::supported_bits(bits2),
        spec_unsigned(options, bits1, x1).0 is Ok,
        spec_unsigned(options, bits1, x1).1 == x1.len(),
        spec_unsigned(options, bits2, x2).0 is Ok,
    ensures
        ({
            let input = x1 + x2 + rest;
            let (first, used) = spec_unsigned(options, bits1, input);
            &&& first == spec_unsigned(options, bits1, x1).0
            &&& used == x1.len()
            &&& spec_unsigned(options, bits2, input.skip(used as int)) == spec_unsigned(
                options,
                bits2,
                x2,
            )
        }),
{
    let input = x1 + x2 + rest;
    assert(input =~= x1 + (x2 + rest));
    crate::integers::lemma_unsigned_prefix(options, bits1, x1, x2 + rest);
    assert(input.skip(x1.len() as int) =~= x2 + rest);
    crate::integers::lemma_unsigned_prefix(options, bits2, x2, rest);
}

impl<'a, 'r, 'de, C: Context> LimitedStorageDecoder<'a, 'r, 'de, C> {
    /// Read the length prefix with `decoder`, then decode that many items with it.
    fn new(decoder: StorageDecoder<'a, 'r, 'de, C>) -> (r: Result<Self, C::Error>)
        ensures
            ({
                let (res, used) = spec_usize(decoder.options, old(decoder.reader)@);
                match res {
                    Ok(n) => (r matches Ok(l) && l.remaining == n && l.decoder.cx == decoder.cx
                        && l.decoder.options == decoder.options && (*l.decoder.reader)@ == old(decoder.reader)@.skip(used as int)
                        && *final(l.decoder.reader) == *final(decoder.reader)),
                    Err(m) => (r matches Err(e) && e == decoder.cx.message_error(m))
                        && final(decoder.reader)@ == old(decoder.reader)@.skip(used as int),
                }
            }),
    {
        let remaining = match decode_usize(decoder.cx, decoder.reader, decoder.options) {
            Ok(remaining) => remaining,
            Err(e) => return Err(e),
        };
        Ok(LimitedStorageDecoder { remaining, decoder })
    }

    /// The number of items left.
    pub fn size_hint(&self) -> (hint: SizeHint)
        ensures
            hint == SizeHint::Exact(self.remaining),
    {
        SizeHint::Exact(self.remaining)
    }

    /// A decoder of the next item, or `None` once every announced item was handed out.
    pub fn decode_next(&mut self) -> (r: Result<Option<StorageDecoder<'a, '_, 'de, C>>, C::Error>)
        ensures
            item_step(old(self).remaining, final(self).remaining, r matches Ok(Some(_))),
            old(self).remaining == 0 ==> (r matches Ok(None)) && *final(self) == *old(self),
            old(self).remaining > 0 ==> (r matches Ok(Some(d)) && d.cx == old(self).decoder.cx
                && d.options == old(self).decoder.options && *d.reader == *old(self).decoder.reader
                && *final(d.reader) == *final(self).decoder.reader)
                && final(self).remaining == old(self).remaining - 1,
            final(self).decoder.cx == old(self).decoder.cx,
            final(self).decoder.options == old(self).decoder.options,
    {
        if self.remaining == 0 {
            return Ok(None);
        }
        self.remaining = self.remaining - 1;
        Ok(Some(StorageDecoder::new(self.decoder.cx, &mut *self.decoder.reader, self.decoder.options)))
    }

    /// The context of this decoder.
    pub fn cx(&self) -> (cx: &'a C)
        ensures
            cx == self.decoder.cx,
    {
        self.decoder.cx
    }

    /// The entries of a map: this decoder.
    pub fn into_map_entries(self) -> (r: Result<Self, C::Error>)
        ensures
            r matches Ok(l) && l.remaining == self.remaining && l.decoder.cx == self.decoder.cx
                && l.decoder.options == self.decoder.options && *l.decoder.reader == *old(self.decoder.reader)
                && *final(l.decoder.reader) == *final(self.decoder.reader),
    {
        Ok(self)
    }

    /// A decoder of the next map entry, or `None` once every announced entry was handed out.
    pub fn decode_entry(&mut self) -> (r: Result<Option<StorageDecoder<'a, '_, 'de, C>>, C::Error>)
        ensures
            item_step(old(self).remaining, final(self).remaining, r matches Ok(Some(_))),
            old(self).remaining == 0 ==> (r matches Ok(None)) && *final(self) == *old(self),
            old(self).remaining > 0 ==> (r matches Ok(Some(d)) && d.cx == old(self).decoder.cx
                && d.options == old(self).decoder.options && *d.reader == *old(self).decoder.reader
                && *final(d.reader) == *final(self).decoder.reader)
                && final(self).remaining == old(self).remaining - 1,
            final(self).decoder.cx == old(self).decoder.cx,
            final(self).decoder.options == old(self).decoder.options,
    {
        self.decode_next()
    }

    /// The fields of a struct: this decoder.
    pub fn into_struct_fields(self) -> (r: Result<Self, C::Error>)
        ensures
            r matches Ok(l) && l.remaining == self.remaining && l.decoder.cx == self.decoder.cx
                && l.decoder.options == self.decoder.options && *l.decoder.reader == *old(self.decoder.reader)
                && *final(l.decoder.reader) == *final(self.decoder.reader),
    {
        Ok(self)
    }

    /// A decoder of the next struct field, or `None` once every announced field was handed out.
    pub fn decode_field(&mut self) -> (r: Result<Option<StorageDecoder<'a, '_, 'de, C>>, C::Error>)
        ensures
            item_step(old(self).remaining, final(self).remaining, r matches Ok(Some(_))),
            old(self).remaining == 0 ==> (r matches Ok(None)) && *final(self) == *old(self),
            old(self).remaining > 0 ==> (r matches Ok(Some(d)) && d.cx == old(self).decoder.cx
                && d.options == old(self).decoder.options && *d.reader == *old(self).decoder.reader
                && *final(d.reader) == *final(self).decoder.reader)
                && final(self).remaining == old(self).remaining - 1,
            final(self).decoder.cx == old(self).decoder.cx,
            final(self).decoder.options == old(self).decoder.options,
    {
        self.decode_entry()
    }

    /// Finish decoding; items that were not asked for stay unread.
    pub fn end(self) -> (r: Result<(), C::Error>)
        ensures
            r is Ok,
            *final(self.decoder.reader) == *old(self.decoder.reader),
    {
        Ok(())
    }

    /// A decoder of the key of the next map entry, or `None` once every announced entry was handed out.
    pub fn decode_map_entry_key(&mut self) -> (r: Result<Option<StorageDecoder<'a, '_, 'de, C>>, C::Error>)
        ensures
            item_step(old(self).remaining, final(self).remaining, r matches Ok(Some(_))),
            old(self).remaining == 0 ==> (r matches Ok(None)) && *final(self) == *old(self),
            old(self).remaining > 0 ==> (r matches Ok(Some(d)) && d.cx == old(self).decoder.cx
                && d.options == old(self).decoder.options && *d.reader == *old(self).decoder.reader
                && *final(d.reader) == *final(self).decoder.reader)
                && final(self).remaining == old(self).remaining - 1,
            final(self).decoder.cx == old(self).decoder.cx,
            final(self).decoder.options == old(self).decoder.options,
    {
        self.decode_next()
    }

    /// A decoder of the value of the current map entry.
    pub fn decode_map_entry_value(&mut self) -> (r: Result<StorageDecoder<'a, '_, 'de, C>, C::Error>)
        ensures
            r matches Ok(d) && d.cx == old(self).decoder.cx && d.options == old(self).decoder.options
                && *d.reader == *old(self).decoder.reader && *final(d.reader)
                == *final(self).decoder.reader,
            final(self).remaining == old(self).remaining,
            final(self).decoder.cx == old(self).decoder.cx,
            final(self).decoder.options == old(self).decoder.options,
    {
        Ok(StorageDecoder::new(self.decoder.cx, &mut *self.decoder.reader, self.decoder.options))
    }

    /// Map entry values cannot be skipped in a storage stream.
    pub fn skip_map_entry_value(&mut self) -> (r: Result<bool, C::Error>)
        ensures
            r == Ok::<bool, C::Error>(false),
            *final(self) == *old(self),
    {
        Ok(false)
    }

    /// A decoder of the name of the next struct field; asking for more fields than were
    /// announced is an error.
    pub fn decode_struct_field_name(&mut self) -> (r: Result<StorageDecoder<'a, '_, 'de, C>, C::Error>)
        ensures
            item_step(old(self).remaining, final(self).remaining, r is Ok),
            old(self).remaining == 0 ==> r == Err::<StorageDecoder<'a, '_, 'de, C>, C::Error>(
                old(self).decoder.cx.message_error(Message::RanOutOfStructFields),
            ) && *final(self) == *old(self),
            old(self).remaining > 0 ==> (r matches Ok(d) && d.cx == old(self).decoder.cx
                && d.options == old(self).decoder.options && *d.reader == *old(self).decoder.reader
                && *final(d.reader) == *final(self).decoder.reader)
                && final(self).remaining == old(self).remaining - 1,
            final(self).decoder.cx == old(self).decoder.cx,
            final(self).decoder.options == old(self).decoder.options,
    {
        if self.remaining == 0 {
            return Err(self.decoder.cx.message(Message::RanOutOfStructFields));
        }
        self.remaining = self.remaining - 1;
        Ok(StorageDecoder::new(self.decoder.cx, &mut *self.decoder.reader, self.decoder.options))
    }

    /// A decoder of the value of the current struct field.
    pub fn decode_struct_field_value(&mut self) -> (r: Result<StorageDecoder<'a, '_, 'de, C>, C::Error>)
        ensures
            r matches Ok(d) && d.cx == old(self).decoder.cx && d.options == old(self).decoder.options
                && *d.reader == *old(self).decoder.reader && *final(d.reader)
                == *final(self).decoder.reader,
            final(self).remaining == old(self).remaining,
            final(self).decoder.cx == old(self).decoder.cx,
            final(self).decoder.options == old(self).decoder.options,
    {
        Ok(StorageDecoder::new(self.decoder.cx, &mut *self.decoder.reader, self.decoder.options))
    }

    /// Struct field values cannot be skipped in a storage stream.
    pub fn skip_struct_field_value(&mut self) -> (r: Result<bool, C::Error>)
        ensures
            r == Ok::<bool, C::Error>(false),
            *final(self) == *old(self),
    {
        Ok(false)
    }
}

} // verus!
