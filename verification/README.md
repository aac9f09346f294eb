# musli (verified core)

A Verus library holding the logic of musli's storage decoder, its context and
value visitor traits, and the decisions the `Encode` derive makes, each with a
contract proved by Verus.

- `src/` — the verified library (see the module list in `src/lib.rs`).
- `app/` — ordinary Rust around it: rendering planned `Encode` implementations
  into tokens with `quote`, decoding floats from their bit patterns, and
  human readable diagnostics.
- `tests/` — tests of the library on concrete inputs.

Integers and lengths are laid out as `Options` say: continuation-encoded
(LEB128 style, zig-zag for signed values) or fixed width in little or big
endian byte order. The main laws: decoding consumes exactly the encoding of a
value and nothing after it (numbers are self-delimiting), never more than the
input holds; pack items decode back to back; a length-prefixed decoder hands
out exactly the items it announced, its size hint counting down; and the map
length hint of a derived encoder equals the number of entries it writes.
Decoders hand byte and string payloads to the caller's visitor as borrows of
the input and return what the visitor returns; bytes that are not UTF-8 give
an error (which error is the context's `custom` one, and is not stated).
