//! Things related to working with contexts.

use vstd::prelude::*;
use vstd::string::StringExecFns;

verus! {

/// The kind of value a format was about to decode when it handed it to a visitor.
#[derive(Clone, Copy, Debug, PartialEq, Eq, Structural)]
pub enum TypeHint {
    /// Nothing is known about the value.
    Any,
    /// A unit value.
    Unit,
    /// A boolean.
    Bool,
    /// A character.
    Char,
    /// A number.
    Number,
    /// A string.
    String,
    /// A byte array.
    Bytes,
    /// A sequence.
    Sequence,
    /// A map.
    Mapping,
    /// An optional value.
    Option,
    /// An enum variant.
    Variant,
}

/// A diagnostic reported through a [`Context`].
#[allow(inconsistent_fields)]
#[derive(Clone, Debug)]
pub enum Message {
    /// A unit was expected, but the stream held a sequence of `actual` elements.
    ExpectedEmptySequence { actual: usize },
    /// A boolean byte other than `0` or `1`.
    BadBoolean { actual: u8 },
    /// A number that is not a Unicode scalar value where a `char` was expected.
    BadCharacter { actual: u32 },
    /// Tried to read `n` bytes from a slice that had `remaining` bytes left.
    SliceUnderflow { n: usize, remaining: usize },
    /// A continuation-encoded integer has more bytes than its type holds.
    BitsOverflow,
    /// A fixed-width length does not fit in `usize`.
    UsizeOverflow,
    /// A struct was asked for more fields than its length prefix announced.
    RanOutOfStructFields,
    /// A visitor was handed a reference type it does not accept.
    BadVisitorType { expecting: String },
    /// A visitor was handed a value of a type it does not support.
    UnsupportedType { hint: TypeHint, expecting: String },
    /// A type-erased error reported through [`Context::custom`].
    Custom,
}

/// The name of a type hint, as diagnostics show it.
pub open spec fn hint_text(hint: TypeHint) -> Seq<char> {
    match hint {
        TypeHint::Any => "any value"@,
        TypeHint::Unit => "unit"@,
        TypeHint::Bool => "boolean"@,
        TypeHint::Char => "character"@,
        TypeHint::Number => "number"@,
        TypeHint::String => "string"@,
        TypeHint::Bytes => "bytes"@,
        TypeHint::Sequence => "sequence"@,
        TypeHint::Mapping => "map"@,
        TypeHint::Option => "option"@,
        TypeHint::Variant => "variant"@,
    }
}

/// The hexadecimal digit of `d`, which is below 16.
pub open spec fn hex_digit(d: nat) -> Seq<char> {
    if d == 0 {
        "0"@
    } else if d == 1 {
        "1"@
    } else if d == 2 {
        "2"@
    } else if d == 3 {
        "3"@
    } else if d == 4 {
        "4"@
    } else if d == 5 {
        "5"@
    } else if d == 6 {
        "6"@
    } else if d == 7 {
        "7"@
    } else if d == 8 {
        "8"@
    } else if d == 9 {
        "9"@
    } else if d == 10 {
        "a"@
    } else if d == 11 {
        "b"@
    } else if d == 12 {
        "c"@
    } else if d == 13 {
        "d"@
    } else if d == 14 {
        "e"@
    } else {
        "f"@
    }
}

/// The decimal notation of `n`, without leading zeros.
pub open spec fn decimal(n: nat) -> Seq<char>
    decreases n,
{
    if n < 10 {
        hex_digit(n)
    } else {
        decimal(n / 10) + hex_digit(n % 10)
    }
}

/// The text of a diagnostic.
pub open spec fn message_text(message: Message) -> Seq<char> {
    match message {
        Message::ExpectedEmptySequence { actual } => "Expected empty sequence, but was "@ + decimal(
            actual as nat,
        ),
        Message::BadBoolean { actual } => "Bad boolean byte 0x"@ + hex_digit(
            (actual / 16) as nat,
        ) + hex_digit((actual % 16) as nat),
        Message::BadCharacter { actual } => "Bad character number "@ + decimal(actual as nat),
        Message::SliceUnderflow { n, remaining } => "Tried to read "@ + decimal(n as nat)
            + " bytes from slice, with "@ + decimal(remaining as nat) + " byte remaining"@,
        Message::BitsOverflow => "Bits overflow"@,
        Message::UsizeOverflow => "Length does not fit in usize"@,
        Message::RanOutOfStructFields => "Ran out of struct fields to decode"@,
        Message::BadVisitorType { expecting } => "Bad reference type any value, expected "@
            + expecting@,
        Message::UnsupportedType { hint, expecting } => "Got unsupported type `"@ + hint_text(hint)
            + "`, but expected "@ + expecting@,
        Message::Custom => "Custom error"@,
    }
}

fn hint_str(hint: TypeHint) -> (s: &'static str)
    ensures
        s@ == hint_text(hint),
{
    match hint {
        TypeHint::Any => "any value",
        TypeHint::Unit => "unit",
        TypeHint::Bool => "boolean",
        TypeHint::Char => "character",
        TypeHint::Number => "number",
        TypeHint::String => "string",
        TypeHint::Bytes => "bytes",
        TypeHint::Sequence => "sequence",
        TypeHint::Mapping => "map",
        TypeHint::Option => "option",
        TypeHint::Variant => "variant",
    }
}

fn hex_digit_str(d: u8) -> (s: &'static str)
    requires
        d < 16,
    ensures
        s@ == hex_digit(d as nat),
{
    match d {
        0 => "0",
        1 => "1",
        2 => "2",
        3 => "3",
        4 => "4",
        5 => "5",
        6 => "6",
        7 => "7",
        8 => "8",
        9 => "9",
        10 => "a",
        11 => "b",
        12 => "c",
        13 => "d",
        14 => "e",
        _ => "f",
    }
}

fn push_decimal(text: &mut String, n: u32)
    ensures
        final(text)@ == old(text)@ + decimal(n as nat),
    decreases n,
{
    if n >= 10 {
        push_decimal(text, n / 10);
    }
    let digit: u32 = n % 10;
    text.append(hex_digit_str(digit as u8));
    proof {
        assert(final(text)@ =~= old(text)@ + decimal(n as nat));
    }
}

fn push_usize(text: &mut String, n: usize)
    ensures
        final(text)@ == old(text)@ + decimal(n as nat),
    decreases n,
{
    if n >= 10 {
        push_usize(text, n / 10);
    }
    let digit: usize = n % 10;
    text.append(hex_digit_str(digit as u8));
    proof {
        assert(final(text)@ =~= old(text)@ + decimal(n as nat));
    }
}

impl Message {
    /// The text of this diagnostic, for people.
    pub fn to_string(&self) -> (s: String)
        ensures
            s@ == message_text(*self),
    {
        match self {
            Message::ExpectedEmptySequence { actual } => {
                let mut s = "Expected empty sequence, but was ".to_owned();
                push_usize(&mut s, *actual);
                s
            },
            Message::BadBoolean { actual } => {
                let mut s = "Bad boolean byte 0x".to_owned();
                s.append(hex_digit_str(*actual / 16));
                s.append(hex_digit_str(*actual % 16));
                s
            },
            Message::BadCharacter { actual } => {
                let mut s = "Bad character number ".to_owned();
                push_decimal(&mut s, *actual);
                s
            },
            Message::SliceUnderflow { n, remaining } => {
                let mut s = "Tried to read ".to_owned();
                push_usize(&mut s, *n);
                s.append(" bytes from slice, with ");
                push_usize(&mut s, *remaining);
                s.append(" byte remaining");
                s
            },
            Message::BitsOverflow => "Bits overflow".to_owned(),
            Message::UsizeOverflow => "Length does not fit in usize".to_owned(),
            Message::RanOutOfStructFields => "Ran out of struct fields to decode".to_owned(),
            Message::BadVisitorType { expecting } => {
                let mut s = "Bad reference type any value, expected ".to_owned();
                s.append(expecting.as_str());
                s
            },
            Message::UnsupportedType { hint, expecting } => {
                let mut s = "Got unsupported type `".to_owned();
                s.append(hint_str(*hint));
                s.append("`, but expected ");
                s.append(expecting.as_str());
                s
            },
            Message::Custom => "Custom error".to_owned(),
        }
    }
}

/// Provides ergonomic access to the serialization context.
///
/// This is used to among other things report diagnostics.
pub trait Context {
    /// Error produced by the context.
    type Error;
    /// A mark during processing.
    type Mark;

    /// The error this context produces when `message` is reported.
    spec fn message_error(&self, message: Message) -> Self::Error;

    /// Clear the state of the context, allowing it to be re-used.
    fn clear(&self);

    /// Advance the context by `n` bytes of input.
    fn advance(&self, n: usize);

    /// Return a mark which acts as a checkpoint at the current encoding state.
    fn mark(&self) -> Self::Mark;

    /// Restore the state of the context to the specified mark.
    fn restore(&self, mark: &Self::Mark);

    /// Report a custom error, which is not encapsulated by the error type
    /// expected by the context.
    fn custom<E>(&self, error: E) -> Self::Error;

    /// Report a message as an error.
    fn message(&self, message: Message) -> (error: Self::Error)
        ensures
            error == self.message_error(message),
    ;

    /// Report an error based on a mark; by default the mark is ignored.
    fn message_at(&self, mark: &Self::Mark, message: Message) -> (error: Self::Error)
        default_ensures
            error == self.message_error(message),
    {
        self.message(message)
    }

    /// Report a custom error based on a mark; by default the mark is ignored.
    fn custom_at<E>(&self, mark: &Self::Mark, error: E) -> Self::Error {
        self.custom(error)
    }

    /// Indicate that we've entered a struct with the given `name`.
    fn enter_struct(&self, name: &'static str) {
    }

    /// Trace that we've left the last struct that was entered.
    fn leave_struct(&self) {
    }

    /// Indicate that we've entered an enum with the given `name`.
    fn enter_enum(&self, name: &'static str) {
    }

    /// Trace that we've left the last enum that was entered.
    fn leave_enum(&self) {
    }

    /// Trace that we've entered the given named field.
    fn enter_named_field<F>(&self, name: &'static str, field: F) {
    }

    /// Trace that we've entered the given unnamed field.
    fn enter_unnamed_field<F>(&self, index: u32, name: F) {
    }

    /// Trace that we've left the last field that was entered.
    fn leave_field(&self) {
    }

    /// Trace that we've entered the given variant in an enum.
    fn enter_variant<V>(&self, name: &'static str, tag: V) {
    }

    /// Trace that we've left the last variant that was entered.
    fn leave_variant(&self) {
    }

    /// Trace a that a map key has been entered.
    fn enter_map_key<K>(&self, field: K) {
    }

    /// Trace that we've left the last map field that was entered.
    fn leave_map_key(&self) {
    }

    /// Trace a sequence field.
    fn enter_sequence_index(&self, index: usize) {
    }

    /// Trace that we've left the last sequence index that was entered.
    fn leave_sequence_index(&self) {
    }
}

/// `error` is what `cx` reports for `message` at a mark that `cx.mark()` returned.
pub open spec fn reported_at<C: Context>(cx: &C, message: Message, error: C::Error) -> bool {
    exists|mark: C::Mark|
        call_ensures(C::mark, (cx,), mark) && #[trigger] call_ensures(
            C::message_at,
            (cx, &mark, message),
            error,
        )
}

/// A context that reports every diagnostic as the [`Message`] itself.
pub struct Same;

impl Context for Same {
    type Error = Message;
    type Mark = ();

    open spec fn message_error(&self, message: Message) -> Message {
        message
    }

    fn clear(&self) {
    }

    fn advance(&self, n: usize) {
    }

    fn mark(&self) {
    }

    fn restore(&self, mark: &()) {
    }

    fn custom<E>(&self, error: E) -> (e: Message)
        ensures
            e == Message::Custom,
    {
        Message::Custom
    }

    fn message(&self, message: Message) -> (error: Message) {
        message
    }
}

} // verus!
