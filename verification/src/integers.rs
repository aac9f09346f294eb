//! Decoding of integers and lengths as the options of a storage stream lay them out.

use vstd::arithmetic::div_mod::*;
use vstd::arithmetic::mul::*;
use vstd::arithmetic::power2::*;
use vstd::prelude::*;

use crate::context::{Context, Message};
use crate::options::{width_bytes, ByteOrder, Integer, Options, Width};
use crate::reader::{underflow, SliceReader};

verus! {

/// The number of leading bytes of `input` that carry the continuation bit (`0x80`).
pub open spec fn cont_run(input: Seq<u8>) -> nat
    decreases input.len(),
{
    if input.len() == 0 || input[0] < 128 {
        0
    } else {
        1 + cont_run(input.drop_first())
    }
}

/// The value of continuation-encoded bytes: the low seven bits of byte `i` weigh `2^(7 i)`.
pub open spec fn cont_value(bytes: Seq<u8>) -> nat
    decreases bytes.len(),
{
    if bytes.len() == 0 {
        0
    } else {
        cont_value(bytes.drop_last()) + (bytes.last() % 128) as nat * pow2(
            (7 * (bytes.len() - 1)) as nat,
        )
    }
}

/// The most bytes a continuation-encoded integer of `bits` bits may take.
pub open spec fn max_cont_bytes(bits: nat) -> nat {
    (bits + 6) / 7
}

/// Decoding a continuation-encoded integer of `bits` bits from the front of `input`:
/// the result and the number of bytes consumed.
///
/// The encoding ends at the first byte without the continuation bit; the value is
/// taken modulo `2^bits`. An encoding longer than `max_cont_bytes(bits)` bytes fails
/// once that many continuation bytes have been read.
pub open spec fn spec_continuation(bits: nat, input: Seq<u8>) -> (Result<nat, Message>, nat) {
    let k = cont_run(input);
    if k >= max_cont_bytes(bits) {
        (Err(Message::BitsOverflow), max_cont_bytes(bits))
    } else if k == input.len() {
        (Err(underflow(1, 0)), k)
    } else {
        (Ok(cont_value(input.take(k + 1 as int)) % pow2(bits)), k + 1)
    }
}

/// The little endian value of `bytes`.
pub open spec fn le_value(bytes: Seq<u8>) -> nat
    decreases bytes.len(),
{
    if bytes.len() == 0 {
        0
    } else {
        le_value(bytes.drop_last()) + bytes.last() as nat * pow2((8 * (bytes.len() - 1)) as nat)
    }
}

/// The big endian value of `bytes`.
pub open spec fn be_value(bytes: Seq<u8>) -> nat
    decreases bytes.len(),
{
    if bytes.len() == 0 {
        0
    } else {
        be_value(bytes.drop_last()) * 256 + bytes.last() as nat
    }
}

/// Decoding an `n`-byte integer in `order` from the front of `input`: the result and
/// the number of bytes consumed. Nothing is consumed when fewer than `n` bytes are left.
pub open spec fn spec_fixed(n: nat, order: ByteOrder, input: Seq<u8>) -> (Result<nat, Message>, nat) {
    if input.len() < n {
        (Err(underflow(n, input.len())), 0)
    } else {
        (
            Ok(
                match order {
                    ByteOrder::LittleEndian => le_value(input.take(n as int)),
                    ByteOrder::BigEndian => be_value(input.take(n as int)),
                },
            ),
            n,
        )
    }
}

/// Decoding an unsigned integer of `bits` bits as `options` lay it out.
pub open spec fn spec_unsigned(options: Options, bits: nat, input: Seq<u8>) -> (
    Result<nat, Message>,
    nat,
) {
    match options.integer {
        Integer::Variable => spec_continuation(bits, input),
        Integer::Fixed => spec_fixed(bits / 8, options.byte_order, input),
    }
}

/// The zig-zag mapping of naturals onto integers: `0, -1, 1, -2, 2, ...`.
pub open spec fn zigzag(n: nat) -> int {
    if n % 2 == 0 {
        (n / 2) as int
    } else {
        -((n / 2) as int) - 1
    }
}

/// The two's complement reading of the `bits`-bit pattern `n`.
pub open spec fn twos_complement(n: nat, bits: nat) -> int {
    if n < pow2((bits - 1) as nat) {
        n as int
    } else {
        n - pow2(bits)
    }
}

/// Decoding a signed integer of `bits` bits as `options` lay it out: variable integers
/// are zig-zag mapped, fixed ones are read in two's complement.
pub open spec fn spec_signed(options: Options, bits: nat, input: Seq<u8>) -> (
    Result<int, Message>,
    nat,
) {
    let (r, used) = spec_unsigned(options, bits, input);
    (
        match r {
            Ok(n) => Ok(
                match options.integer {
                    Integer::Variable => zigzag(n),
                    Integer::Fixed => twos_complement(n, bits),
                },
            ),
            Err(m) => Err(m),
        },
        used,
    )
}

/// Decoding a length (`usize`) as `options` lay it out.
pub open spec fn spec_usize(options: Options, input: Seq<u8>) -> (Result<nat, Message>, nat) {
    match options.length {
        Integer::Variable => spec_continuation(usize::BITS as nat, input),
        Integer::Fixed => {
            let (r, used) = spec_fixed(width_bytes(options.length_width), options.byte_order, input);
            (
                match r {
                    Ok(n) => if n <= usize::MAX {
                        Ok(n)
                    } else {
                        Err(Message::UsizeOverflow)
                    },
                    Err(m) => Err(m),
                },
                used,
            )
        },
    }
}

/// The widths of integers this module decodes.
pub open spec fn supported_bits(bits: nat) -> bool {
    bits == 8 || bits == 16 || bits == 32 || bits == 64 || bits == 128
}

proof fn lemma_pow2_values()
    ensures
        pow2(7) == 128,
        pow2(8) == 256,
        pow2(16) == 65536,
        pow2(32) == 0x1_0000_0000,
        pow2(64) == 0x1_0000_0000_0000_0000,
        pow2(128) == 0x1_0000_0000_0000_0000_0000_0000_0000_0000,
        pow2(15) == 0x8000,
        pow2(31) == 0x8000_0000,
        pow2(63) == 0x8000_0000_0000_0000,
        pow2(127) == 0x8000_0000_0000_0000_0000_0000_0000_0000,
{
    lemma2_to64();
    lemma2_to64_rest();
    lemma_pow2_adds(64, 63);
    lemma_pow2_adds(64, 64);
}

proof fn lemma_pow2_le(a: nat, b: nat)
    requires
        a <= b,
    ensures
        pow2(a) <= pow2(b),
{
    if a < b {
        lemma_pow2_strictly_increases(a, b);
    }
}

/// `2^bits - 1`, the largest integer of `bits` bits.
fn max_for_bits(bits: u32) -> (max: u128)
    requires
        supported_bits(bits as nat),
    ensures
        max == pow2(bits as nat) - 1,
{
    proof {
        lemma_pow2_values();
    }
    if bits == 8 {
        0xff
    } else if bits == 16 {
        0xffff
    } else if bits == 32 {
        0xffff_ffff
    } else if bits == 64 {
        0xffff_ffff_ffff_ffff
    } else {
        0xffff_ffff_ffff_ffff_ffff_ffff_ffff_ffff
    }
}

proof fn lemma_cont_value_push(input: Seq<u8>, i: int)
    requires
        0 <= i < input.len(),
    ensures
        cont_value(input.take(i + 1)) == cont_value(input.take(i)) + (input[i] % 128) as nat
            * pow2((7 * i) as nat),
{
    assert(input.take(i + 1).drop_last() =~= input.take(i));
}

proof fn lemma_cont_run_step(input: Seq<u8>, i: int)
    requires
        0 <= i <= cont_run(input),
    ensures
        i <= input.len(),
        i < input.len() ==> (input[i] >= 128 <==> i + 1 <= cont_run(input)),
        i == input.len() ==> cont_run(input) == i,
    decreases i,
{
    if i > 0 {
        lemma_cont_run_step(input.drop_first(), i - 1);
    } else {
        if input.len() > 0 && input[0] >= 128 {
            assert(cont_run(input) == 1 + cont_run(input.drop_first()));
        }
    }
}

/// `(a + c·p) mod (q·p) = a + (c mod q)·p` when `0 <= a < p`.
proof fn lemma_mod_digit(a: int, c: int, p: int, q: int)
    requires
        0 <= a < p,
        0 <= c,
        0 < q,
    ensures
        (a + c * p) % (q * p) == a + (c % q) * p,
{
    let r = c % q;
    let d = c / q;
    lemma_fundamental_div_mod(c, q);
    lemma_mod_bound(c, q);
    assert(c * p == d * (q * p) + r * p) by (nonlinear_arith)
        requires
            c == q * d + r,
    ;
    assert(0 <= a + r * p < q * p) by (nonlinear_arith)
        requires
            0 <= a < p,
            0 <= r < q,
    ;
    assert(a + c * p == d * (q * p) + (a + r * p));
    lemma_fundamental_div_mod_converse_mod(a + c * p, q * p, d, a + r * p);
}

/// `(q·p - 1) / p = q - 1` when `p > 0`, `q > 0`.
proof fn lemma_div_max(p: int, q: int)
    requires
        0 < p,
        0 < q,
    ensures
        (q * p - 1) / p == q - 1,
{
    assert(q * p - 1 == (q - 1) * p + (p - 1)) by (nonlinear_arith);
    lemma_fundamental_div_mod_converse_div(q * p - 1, p, q - 1, p - 1);
}

/// Decode a continuation-encoded integer of `bits` bits.
pub fn decode_continuation<C: Context>(cx: &C, reader: &mut SliceReader, bits: u32) -> (r: Result<
    u128,
    C::Error,
>)
    requires
        supported_bits(bits as nat),
    ensures
        ({
            let (res, used) = spec_continuation(bits as nat, old(reader)@);
            &&& final(reader)@ == old(reader)@.skip(used as int)
            &&& match res {
                Ok(v) => r == Ok::<u128, C::Error>(v as u128) && v < pow2(bits as nat),
                Err(m) => r == Err::<u128, C::Error>(cx.message_error(m)),
            }
        }),
{
    let ghost input = reader@;
    let max = max_for_bits(bits);
    let mut value: u128 = 0;
    let mut scale: u128 = 1;
    let mut i: u32 = 0;
    proof {
        lemma_pow2_values();
        lemma2_to64();
        assert(input.take(0) =~= Seq::<u8>::empty());
    }
    loop
        invariant
            input == old(reader)@,
            supported_bits(bits as nat),
            max == pow2(bits as nat) - 1,
            7 * i < bits,
            i <= cont_run(input),
            i <= input.len(),
            reader@ == input.skip(i as int),
            scale == pow2((7 * i) as nat),
            value == cont_value(input.take(i as int)),
            value < scale,
        decreases bits - 7 * i,
    {
        proof {
            lemma_pow2_values();
            lemma_cont_run_step(input, i as int);
            lemma_pow2_strictly_increases((7 * i) as nat, bits as nat);
            lemma_pow2_subtracts((7 * i) as nat, bits as nat);
            lemma_pow2_pos((bits - 7 * i) as nat);
            lemma_pow2_pos((7 * i) as nat);
        }
        let b = match reader.read_byte(cx) {
            Ok(b) => b,
            Err(e) => {
                proof {
                    assert(input.skip(i as int).len() == 0);
                }
                return Err(e);
            },
        };
        let ghost p = pow2((7 * i) as nat) as int;
        let ghost q = pow2((bits - 7 * i) as nat) as int;
        proof {
            assert(b == input[i as int]);
            assert(input.skip(i as int).drop_first() =~= input.skip(i + 1));
            lemma_cont_value_push(input, i as int);
            lemma_pow2_adds((7 * i) as nat, (bits - 7 * i) as nat);
            assert(pow2(bits as nat) == p * q) by (nonlinear_arith)
                requires
                    pow2(bits as nat) == pow2((7 * i) as nat) * pow2((bits - 7 * i) as nat),
                    p == pow2((7 * i) as nat),
                    q == pow2((bits - 7 * i) as nat),
            ;
            lemma_div_max(p, q);
            lemma_mul_is_commutative(p, q);
        }
        let digit = (b % 128) as u128;
        let lim = max / scale;
        assert(lim == q - 1);
        let d = if digit <= lim {
            digit
        } else {
            digit % (lim + 1)
        };
        proof {
            assert(d == (digit as int) % q) by {
                if digit <= lim {
                    lemma_small_mod(digit as nat, q as nat);
                }
            }
            assert(d * p <= (q - 1) * p) by (nonlinear_arith)
                requires
                    0 <= d <= q - 1,
                    0 < p,
            ;
            assert((q - 1) * p == q * p - p) by (nonlinear_arith);
            lemma_mod_digit(value as int, digit as int, p, q);
        }
        let next = value + d * scale;
        if b < 128 {
            proof {
                lemma_cont_run_step(input, i as int);
                assert(cont_run(input) == i);
                assert(i < max_cont_bytes(bits as nat));
                assert(cont_value(input.take(i + 1)) == value + digit * p);
                assert(next == (value + digit * p) % (q * p));
            }
            return Ok(next);
        }
        i = i + 1;
        if 7 * i >= bits {
            proof {
                assert(cont_run(input) >= i);
                assert(i == max_cont_bytes(bits as nat));
            }
            return Err(cx.message(Message::BitsOverflow));
        }
        proof {
            lemma_pow2_adds((7 * (i - 1)) as nat, 7);
            assert(7 * (i - 1) + 7 == 7 * i);
            assert(pow2(7) <= q) by {
                lemma_pow2_le(7, (bits - 7 * (i - 1)) as nat);
            }
            lemma_small_mod(digit as nat, q as nat);
            assert(next == value + digit * p);
            assert(value + digit * p < p * 128) by (nonlinear_arith)
                requires
                    value < p,
                    digit <= 127,
            ;
            lemma_pow2_strictly_increases((7 * i) as nat, bits as nat);
        }
        value = next;
        scale = scale * 128;
    }
}

proof fn lemma_le_value_push(bytes: Seq<u8>, i: int)
    requires
        0 <= i < bytes.len(),
    ensures
        le_value(bytes.take(i + 1)) == le_value(bytes.take(i)) + bytes[i] as nat * pow2(
            (8 * i) as nat,
        ),
        be_value(bytes.take(i + 1)) == be_value(bytes.take(i)) * 256 + bytes[i] as nat,
{
    assert(bytes.take(i + 1).drop_last() =~= bytes.take(i));
}

/// Decode an `n`-byte integer in `order`.
pub fn decode_fixed<C: Context>(cx: &C, reader: &mut SliceReader, n: usize, order: ByteOrder) -> (r:
    Result<u128, C::Error>)
    requires
        1 <= n <= 16,
    ensures
        ({
            let (res, used) = spec_fixed(n as nat, order, old(reader)@);
            &&& final(reader)@ == old(reader)@.skip(used as int)
            &&& match res {
                Ok(v) => r == Ok::<u128, C::Error>(v as u128) && v < pow2(8 * n as nat),
                Err(m) => r == Err::<u128, C::Error>(cx.message_error(m)),
            }
        }),
{
    let ghost input = reader@;
    let bytes = match reader.read_slice(cx, n) {
        Ok(bytes) => bytes,
        Err(e) => {
            proof {
                assert(input.skip(0) =~= input);
            }
            return Err(e);
        },
    };
    let mut value: u128 = 0;
    let mut scale: u128 = 1;
    let mut i: usize = 0;
    proof {
        lemma_pow2_values();
        lemma2_to64();
        assert(bytes@.take(0) =~= Seq::<u8>::empty());
    }
    while i < n
        invariant
            1 <= n <= 16,
            bytes@.len() == n,
            i <= n,
            i < n ==> scale == pow2((8 * i) as nat),
            value < pow2((8 * i) as nat),
            value == match order {
                ByteOrder::LittleEndian => le_value(bytes@.take(i as int)),
                ByteOrder::BigEndian => be_value(bytes@.take(i as int)),
            },
        decreases n - i,
    {
        proof {
            lemma_pow2_values();
            lemma_le_value_push(bytes@, i as int);
            lemma_pow2_adds((8 * i) as nat, 8);
            assert(8 * i + 8 == 8 * (i + 1));
            lemma_pow2_le((8 * (i + 1)) as nat, 128);
        }
        let b = bytes[i] as u128;
        let ghost p = pow2((8 * i) as nat);
        match order {
            ByteOrder::LittleEndian => {
                assert(value + b * scale < p * 256) by (nonlinear_arith)
                    requires
                        value < p,
                        b <= 255,
                        scale == p,
                ;
                value = value + b * scale;
            },
            ByteOrder::BigEndian => {
                assert(value * 256 + b < p * 256) by (nonlinear_arith)
                    requires
                        value < p,
                        b <= 255,
                ;
                value = value * 256 + b;
            },
        }
        i = i + 1;
        if i < n {
            proof {
                lemma_pow2_strictly_increases((8 * i) as nat, 128);
            }
            scale = scale * 256;
        }
    }
    proof {
        assert(bytes@.take(n as int) =~= bytes@);
    }
    Ok(value)
}

/// Decode an unsigned integer of `bits` bits as `options` lay it out.
pub fn decode_unsigned<C: Context>(cx: &C, reader: &mut SliceReader, options: Options, bits: u32) -> (r:
    Result<u128, C::Error>)
    requires
        supported_bits(bits as nat),
    ensures
        ({
            let (res, used) = spec_unsigned(options, bits as nat, old(reader)@);
            &&& final(reader)@ == old(reader)@.skip(used as int)
            &&& match res {
                Ok(v) => r == Ok::<u128, C::Error>(v as u128) && v < pow2(bits as nat),
                Err(m) => r == Err::<u128, C::Error>(cx.message_error(m)),
            }
        }),
{
    match options.integer {
        Integer::Variable => decode_continuation(cx, reader, bits),
        Integer::Fixed => {
            let n = (bits / 8) as usize;
            assert(8 * n == bits);
            decode_fixed(cx, reader, n, options.byte_order)
        },
    }
}

proof fn lemma_signed_ranges(n: nat, bits: nat)
    requires
        supported_bits(bits),
        n < pow2(bits),
    ensures
        pow2(bits) == 2 * pow2((bits - 1) as nat),
        n / 2 < pow2((bits - 1) as nat),
        -pow2((bits - 1) as nat) <= zigzag(n) < pow2((bits - 1) as nat),
        -pow2((bits - 1) as nat) <= twos_complement(n, bits) < pow2((bits - 1) as nat),
        pow2((bits - 1) as nat) <= pow2(127),
{
    lemma_pow2_unfold(bits);
    lemma_pow2_le((bits - 1) as nat, 127);
}

/// Decode a signed integer of `bits` bits as `options` lay it out.
pub fn decode_signed<C: Context>(cx: &C, reader: &mut SliceReader, options: Options, bits: u32) -> (r:
    Result<i128, C::Error>)
    requires
        supported_bits(bits as nat),
    ensures
        ({
            let (res, used) = spec_signed(options, bits as nat, old(reader)@);
            &&& final(reader)@ == old(reader)@.skip(used as int)
            &&& match res {
                Ok(v) => r == Ok::<i128, C::Error>(v as i128) && -pow2((bits - 1) as nat) <= v
                    < pow2((bits - 1) as nat),
                Err(m) => r == Err::<i128, C::Error>(cx.message_error(m)),
            }
        }),
{
    let n = match decode_unsigned(cx, reader, options, bits) {
        Ok(n) => n,
        Err(e) => return Err(e),
    };
    proof {
        lemma_pow2_values();
        lemma_signed_ranges(n as nat, bits as nat);
    }
    match options.integer {
        Integer::Variable => {
            let half = n / 2;
            if n % 2 == 0 {
                Ok(half as i128)
            } else {
                Ok(-(half as i128) - 1)
            }
        },
        Integer::Fixed => {
            let max = max_for_bits(bits);
            let top = max / 2;
            assert(top == pow2((bits - 1) as nat) - 1);
            if n <= top {
                Ok(n as i128)
            } else {
                Ok(-((max - n) as i128) - 1)
            }
        },
    }
}

/// Decode a length (`usize`) as `options` lay it out.
pub fn decode_usize<C: Context>(cx: &C, reader: &mut SliceReader, options: Options) -> (r: Result<
    usize,
    C::Error,
>)
    ensures
        ({
            let (res, used) = spec_usize(options, old(reader)@);
            &&& final(reader)@ == old(reader)@.skip(used as int)
            &&& match res {
                Ok(v) => r == Ok::<usize, C::Error>(v as usize) && v <= usize::MAX,
                Err(m) => r == Err::<usize, C::Error>(cx.message_error(m)),
            }
        }),
{
    proof {
        lemma_pow2_values();
    }
    match options.length {
        Integer::Variable => {
            let v = match decode_continuation(cx, reader, usize::BITS) {
                Ok(v) => v,
                Err(e) => return Err(e),
            };
            assert(v <= usize::MAX);
            Ok(v as usize)
        },
        Integer::Fixed => {
            let n: usize = match options.length_width {
                Width::U8 => 1,
                Width::U16 => 2,
                Width::U32 => 4,
                Width::U64 => 8,
            };
            let v = match decode_fixed(cx, reader, n, options.byte_order) {
                Ok(v) => v,
                Err(e) => return Err(e),
            };
            if v > usize::MAX as u128 {
                return Err(cx.message(Message::UsizeOverflow));
            }
            Ok(v as usize)
        },
    }
}

proof fn lemma_fixed_bound(bytes: Seq<u8>)
    ensures
        le_value(bytes) < pow2((8 * bytes.len()) as nat),
        be_value(bytes) < pow2((8 * bytes.len()) as nat),
    decreases bytes.len(),
{
    lemma2_to64();
    if bytes.len() > 0 {
        let n = (bytes.len() - 1) as nat;
        let p = pow2(8 * n);
        lemma_fixed_bound(bytes.drop_last());
        lemma_pow2_adds(8 * n, 8);
        assert(8 * bytes.len() == 8 * n + 8);
        let b = bytes.last() as nat;
        assert(le_value(bytes.drop_last()) + b * p < p * 256) by (nonlinear_arith)
            requires
                le_value(bytes.drop_last()) < p,
                b <= 255,
        ;
        assert(be_value(bytes.drop_last()) * 256 + b < p * 256) by (nonlinear_arith)
            requires
                be_value(bytes.drop_last()) < p,
                b <= 255,
        ;
    }
}

/// A decoded unsigned integer of `bits` bits is below `2^bits`.
pub proof fn lemma_unsigned_bound(options: Options, bits: nat, input: Seq<u8>)
    requires
        supported_bits(bits),
    ensures
        spec_unsigned(options, bits, input).0 matches Ok(v) ==> v < pow2(bits),
{
    lemma_pow2_pos(bits);
    if input.len() >= bits / 8 {
        lemma_fixed_bound(input.take((bits / 8) as int));
    }
}

/// A decoded signed integer of `bits` bits lies in `[-2^(bits-1), 2^(bits-1))`.
pub proof fn lemma_signed_bound(options: Options, bits: nat, input: Seq<u8>)
    requires
        supported_bits(bits),
    ensures
        spec_signed(options, bits, input).0 matches Ok(v) ==> -pow2((bits - 1) as nat) <= v
            < pow2((bits - 1) as nat),
{
    lemma_unsigned_bound(options, bits, input);
    if let Ok(n) = spec_unsigned(options, bits, input).0 {
        lemma_signed_ranges(n, bits);
    }
}

/// A decoded length fits in `usize`.
pub proof fn lemma_usize_bound(options: Options, input: Seq<u8>)
    ensures
        spec_usize(options, input).0 matches Ok(v) ==> v <= usize::MAX,
{
    lemma_pow2_values();
    lemma_pow2_pos(usize::BITS as nat);
}

proof fn lemma_cont_run_append(s1: Seq<u8>, s2: Seq<u8>)
    requires
        cont_run(s1) < s1.len(),
    ensures
        cont_run(s1 + s2) == cont_run(s1),
    decreases s1.len(),
{
    if s1[0] >= 128 {
        assert((s1 + s2).drop_first() =~= s1.drop_first() + s2);
        lemma_cont_run_append(s1.drop_first(), s2);
    }
}

proof fn lemma_cont_run_bound(s: Seq<u8>)
    ensures
        cont_run(s) <= s.len(),
    decreases s.len(),
{
    if s.len() > 0 && s[0] >= 128 {
        lemma_cont_run_bound(s.drop_first());
    }
}

/// Decoding never consumes more bytes than the input holds.
pub proof fn lemma_consumed_within_input(options: Options, bits: nat, input: Seq<u8>)
    requires
        supported_bits(bits),
    ensures
        spec_unsigned(options, bits, input).1 <= input.len(),
        spec_signed(options, bits, input).1 <= input.len(),
        spec_usize(options, input).1 <= input.len(),
{
    lemma_cont_run_bound(input);
}

/// The storage layout of numbers is self-delimiting: once an unsigned integer decodes
/// from `s1`, bytes after it change neither its value nor how much is consumed.
pub proof fn lemma_unsigned_prefix(options: Options, bits: nat, s1: Seq<u8>, s2: Seq<u8>)
    requires
        supported_bits(bits),
        spec_unsigned(options, bits, s1).0 is Ok,
    ensures
        spec_unsigned(options, bits, s1 + s2) == spec_unsigned(options, bits, s1),
{
    prefix_lemma_inner(options.integer, options.byte_order, bits, s1, s2);
}

proof fn prefix_lemma_inner(integer: Integer, order: ByteOrder, bits: nat, s1: Seq<u8>, s2: Seq<u8>)
    requires
        match integer {
            Integer::Variable => spec_continuation(bits, s1).0 is Ok,
            Integer::Fixed => spec_fixed(bits / 8, order, s1).0 is Ok,
        },
    ensures
        match integer {
            Integer::Variable => spec_continuation(bits, s1 + s2) == spec_continuation(bits, s1),
            Integer::Fixed => spec_fixed(bits / 8, order, s1 + s2) == spec_fixed(bits / 8, order, s1),
        },
{
    match integer {
        Integer::Variable => {
            lemma_cont_run_bound(s1);
            let k = cont_run(s1);
            lemma_cont_run_append(s1, s2);
            assert((s1 + s2).take(k + 1 as int) =~= s1.take(k + 1 as int));
        },
        Integer::Fixed => {
            assert((s1 + s2).take((bits / 8) as int) =~= s1.take((bits / 8) as int));
        },
    }
}

/// Signed integers are self-delimiting in the same way.
pub proof fn lemma_signed_prefix(options: Options, bits: nat, s1: Seq<u8>, s2: Seq<u8>)
    requires
        supported_bits(bits),
        spec_signed(options, bits, s1).0 is Ok,
    ensures
        spec_signed(options, bits, s1 + s2) == spec_signed(options, bits, s1),
{
    lemma_unsigned_prefix(options, bits, s1, s2);
}

/// Lengths are self-delimiting in the same way.
pub proof fn lemma_usize_prefix(options: Options, s1: Seq<u8>, s2: Seq<u8>)
    requires
        spec_usize(options, s1).0 is Ok,
    ensures
        spec_usize(options, s1 + s2) == spec_usize(options, s1),
{
    match options.length {
        Integer::Variable => {
            prefix_lemma_inner(Integer::Variable, options.byte_order, usize::BITS as nat, s1, s2);
        },
        Integer::Fixed => {
            let n = width_bytes(options.length_width);
            assert((s1 + s2).take(n as int) =~= s1.take(n as int));
        },
    }
}

/// Variable layout: a signed integer is the zig-zag image of the unsigned integer read
/// from the same bytes, whatever its width. The unsigned reading is `2 v` for `v >= 0` and
/// `-2 v - 1` for `v < 0`, so `0, 1, 2, 3, 4, ...` read as `0, -1, 1, -2, 2, ...`; the
/// same bytes are consumed and errors are the same.
pub proof fn lemma_variable_signed_is_zigzag(options: Options, bits: nat, input: Seq<u8>)
    requires
        supported_bits(bits),
        options.integer == Integer::Variable,
    ensures
        spec_signed(options, bits, input).1 == spec_unsigned(options, bits, input).1,
        spec_unsigned(options, bits, input).0 matches Err(m) ==> spec_signed(
            options,
            bits,
            input,
        ).0 == Err::<int, Message>(m),
        spec_unsigned(options, bits, input).0 matches Ok(n) ==> (spec_signed(
            options,
            bits,
            input,
        ).0 matches Ok(v) && if v >= 0 {
            n == 2 * v
        } else {
            n == -2 * v - 1
        }),
{
}

/// Fixed layout: a signed integer of `bits` bits is the two's complement reading of the
/// unsigned integer read from the same bytes: it is congruent to it modulo `2^bits` and
/// lies in `[-2^(bits-1), 2^(bits-1))`; the same bytes are consumed and errors are the same.
pub proof fn lemma_fixed_signed_is_twos_complement(options: Options, bits: nat, input: Seq<u8>)
    requires
        supported_bits(bits),
        options.integer == Integer::Fixed,
    ensures
        spec_signed(options, bits, input).1 == spec_unsigned(options, bits, input).1,
        spec_unsigned(options, bits, input).0 matches Err(m) ==> spec_signed(
            options,
            bits,
            input,
        ).0 == Err::<int, Message>(m),
        spec_unsigned(options, bits, input).0 matches Ok(n) ==> (spec_signed(
            options,
            bits,
            input,
        ).0 matches Ok(v) && (v == n || v == n - pow2(bits)) && -pow2((bits - 1) as nat) <= v
            < pow2((bits - 1) as nat)),
{
    lemma_signed_bound(options, bits, input);
}

proof fn lemma_le_value_first(s: Seq<u8>)
    requires
        s.len() >= 1,
    ensures
        le_value(s) == s[0] as nat + 256 * le_value(s.drop_first()),
    decreases s.len(),
{
    lemma2_to64();
    let k = s.len();
    if k == 1 {
        assert(s.drop_last().len() == 0);
        assert(s.drop_first().len() == 0);
        assert(le_value(s) == le_value(s.drop_last()) + s.last() as nat * pow2(0));
    } else {
        lemma_le_value_first(s.drop_last());
        assert(s.drop_last()[0] == s[0]);
        assert(s.drop_last().drop_first() =~= s.drop_first().drop_last());
        assert(s.drop_first().last() == s.last());
        lemma_pow2_adds(8, (8 * (k - 2)) as nat);
        assert(8 + 8 * (k - 2) == 8 * (k - 1));
        let p = pow2((8 * (k - 2)) as nat);
        let a = le_value(s.drop_first().drop_last());
        let b = s.last() as nat;
        assert(pow2((8 * (k - 1)) as nat) == 256 * p);
        assert(le_value(s) == le_value(s.drop_last()) + b * pow2((8 * (k - 1)) as nat));
        assert(le_value(s.drop_last()) == s[0] as nat + 256 * a);
        assert(le_value(s.drop_first()) == a + b * p);
        assert(256 * (a + b * p) == 256 * a + b * (256 * p)) by (nonlinear_arith);
    }
}

/// Fixed-width integers are read byte by byte. Reading no bytes gives 0. Little endian:
/// the first byte is the least significant, so reading `n` bytes gives the first byte plus
/// 256 times the reading of the `n - 1` bytes after it. Big endian: the last byte is the least
/// significant, so reading `n` bytes gives 256 times the reading of the first `n - 1` bytes
/// plus the last one. Exactly `n` bytes are consumed.
pub proof fn lemma_fixed_byte_order(n: nat, input: Seq<u8>)
    requires
        1 <= n <= input.len(),
    ensures
        spec_fixed(0, ByteOrder::LittleEndian, input) == (Ok::<nat, Message>(0), 0nat),
        spec_fixed(0, ByteOrder::BigEndian, input) == (Ok::<nat, Message>(0), 0nat),
        spec_fixed(n, ByteOrder::LittleEndian, input).1 == n,
        spec_fixed(n, ByteOrder::BigEndian, input).1 == n,
        spec_fixed(n, ByteOrder::LittleEndian, input).0 matches Ok(v) && spec_fixed(
            (n - 1) as nat,
            ByteOrder::LittleEndian,
            input.skip(1),
        ).0 matches Ok(w) && v == input[0] + 256 * w,
        spec_fixed(n, ByteOrder::BigEndian, input).0 matches Ok(v) && spec_fixed(
            (n - 1) as nat,
            ByteOrder::BigEndian,
            input,
        ).0 matches Ok(w) && v == 256 * w + input[n - 1],
{
    assert(input.take(0).len() == 0);
    let t = input.take(n as int);
    lemma_le_value_first(t);
    assert(t.drop_first() =~= input.skip(1).take(n - 1));
    assert(t.drop_last() =~= input.take(n - 1));
}

/// A fixed-width length reads exactly the bytes of its declared width (one for `U8`, two
/// for `U16`, four for `U32`, eight for `U64`) as a fixed unsigned integer of that many
/// bytes in the stream's byte order, and fails when that value does not fit in `usize`;
/// with fewer bytes left it underflows and consumes nothing.
pub proof fn lemma_fixed_length_width(options: Options, input: Seq<u8>)
    requires
        options.length == Integer::Fixed,
    ensures
        ({
            let k: nat = match options.length_width {
                Width::U8 => 1,
                Width::U16 => 2,
                Width::U32 => 4,
                Width::U64 => 8,
            };
            let (r, used) = spec_usize(options, input);
            &&& input.len() < k ==> r == Err::<nat, Message>(underflow(k, input.len())) && used
                == 0
            &&& input.len() >= k ==> used == k && match spec_fixed(k, options.byte_order, input).0 {
                Ok(n) => r == if n <= usize::MAX {
                    Ok::<nat, Message>(n)
                } else {
                    Err(Message::UsizeOverflow)
                },
                Err(m) => false,
            }
        }),
{
}

proof fn lemma_cont_value_first(s: Seq<u8>)
    requires
        s.len() >= 1,
    ensures
        cont_value(s) == (s[0] % 128) as nat + 128 * cont_value(s.drop_first()),
    decreases s.len(),
{
    lemma2_to64();
    let k = s.len();
    if k == 1 {
        assert(s.drop_last().len() == 0);
        assert(s.drop_first().len() == 0);
        assert(cont_value(s) == cont_value(s.drop_last()) + (s.last() % 128) as nat * pow2(0));
    } else {
        lemma_cont_value_first(s.drop_last());
        assert(s.drop_last()[0] == s[0]);
        assert(s.drop_last().drop_first() =~= s.drop_first().drop_last());
        assert(s.drop_first().last() == s.last());
        lemma_pow2_adds(7, (7 * (k - 2)) as nat);
        assert(7 + 7 * (k - 2) == 7 * (k - 1));
        let p = pow2((7 * (k - 2)) as nat);
        let a = cont_value(s.drop_first().drop_last());
        let b = (s.last() % 128) as nat;
        assert(pow2((7 * (k - 1)) as nat) == 128 * p);
        assert(cont_value(s) == cont_value(s.drop_last()) + b * pow2((7 * (k - 1)) as nat));
        assert(cont_value(s.drop_last()) == (s[0] % 128) as nat + 128 * a);
        assert(cont_value(s.drop_first()) == a + b * p);
        assert(128 * (a + b * p) == 128 * a + b * (128 * p)) by (nonlinear_arith);
    }
}

/// Variable layout reads seven bits per byte, least significant group first; a byte with
/// the top bit (`0x80`) set is followed by more. An empty input underflows. A first byte
/// below `0x80` is the whole number (taken modulo `2^bits`) and one byte is consumed. A
/// first byte with the top bit set contributes its low seven bits, and the bytes after it
/// are read as a number of `bits - 7` bits that is worth 128 times as much, one more byte
/// being consumed and any error passed on; when fewer than seven bits are left it overflows.
pub proof fn lemma_continuation_bytes(bits: nat, input: Seq<u8>)
    requires
        bits >= 1,
    ensures
        input.len() == 0 ==> spec_continuation(bits, input) == (
            Err::<nat, Message>(underflow(1, 0)),
            0nat,
        ),
        input.len() > 0 && input[0] < 128 ==> spec_continuation(bits, input) == (
            Ok::<nat, Message>(input[0] as nat % pow2(bits)),
            1nat,
        ),
        input.len() > 0 && input[0] >= 128 && bits < 7 ==> spec_continuation(bits, input) == (
            Err::<nat, Message>(Message::BitsOverflow),
            1nat,
        ),
        input.len() > 0 && input[0] >= 128 && bits >= 7 ==> ({
            let (r, used) = spec_continuation((bits - 7) as nat, input.skip(1));
            spec_continuation(bits, input) == (
                match r {
                    Ok(w) => Ok::<nat, Message>(((input[0] - 128) + 128 * w) as nat),
                    Err(m) => Err(m),
                },
                used + 1,
            )
        }),
{
    lemma2_to64();
    if input.len() > 0 {
        assert(cont_run(input.take(0)) == 0);
        if input[0] < 128 {
            assert(cont_run(input) == 0);
            lemma_cont_value_first(input.take(1));
            assert(input.take(1).drop_first().len() == 0);
        } else {
            let rest = input.skip(1);
            assert(input.drop_first() =~= rest);
            assert(cont_run(input) == 1 + cont_run(rest));
            if bits >= 7 {
                let k = cont_run(rest);
                lemma_cont_run_bound(rest);
                assert(max_cont_bytes((bits - 7) as nat) + 1 == max_cont_bytes(bits));
                if k < max_cont_bytes((bits - 7) as nat) && k < rest.len() {
                    let t = input.take(k + 2int);
                    lemma_cont_value_first(t);
                    assert(t.drop_first() =~= rest.take(k + 1int));
                    let c = cont_value(rest.take(k + 1int));
                    let q = pow2((bits - 7) as nat);
                    lemma_pow2_pos((bits - 7) as nat);
                    lemma_pow2_adds(7, (bits - 7) as nat);
                    assert(pow2(bits) == q * 128) by {
                        assert(7 + (bits - 7) == bits);
                    }
                    lemma_mod_digit((input[0] % 128) as int, c as int, 128, q as int);
                    assert(c * 128 == 128 * c) by (nonlinear_arith);
                    assert((c % q) * 128 == 128 * (c % q)) by (nonlinear_arith);
                }
            }
        }
    }
}

/// An unsigned integer of `bits` bits is laid out as the options say: in variable layout
/// it is a continuation-encoded number of `bits` bits; in fixed layout it takes exactly
/// `bits / 8` bytes in the stream's byte order (one byte per eight bits), and nothing is
/// consumed when fewer are left. A variable length is a continuation-encoded number as wide
/// as `usize`.
pub proof fn lemma_unsigned_layout(options: Options, bits: nat, input: Seq<u8>)
    requires
        supported_bits(bits),
    ensures
        options.integer == Integer::Variable ==> spec_unsigned(options, bits, input)
            == spec_continuation(bits, input),
        options.integer == Integer::Fixed && 8 * input.len() >= bits ==> ({
            let (r, used) = spec_unsigned(options, bits, input);
            &&& 8 * used == bits
            &&& r == spec_fixed(used, options.byte_order, input).0
        }),
        options.integer == Integer::Fixed && 8 * input.len() < bits ==> spec_unsigned(
            options,
            bits,
            input,
        ).1 == 0 && spec_unsigned(options, bits, input).0 is Err,
        options.length == Integer::Variable ==> spec_usize(options, input) == spec_continuation(
            usize::BITS as nat,
            input,
        ),
{
}

} // verus!
