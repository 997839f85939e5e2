//! Two's complement conversion and Minecraft variable-length integers.
use vstd::arithmetic::power2::{
    lemma2_to64, lemma2_to64_rest, lemma_pow2_adds, lemma_pow2_pos, lemma_pow2_strictly_increases,
    pow2,
};
use vstd::prelude::*;

use crate::buffer::{be_encode, Buffer, ByteSink};
use crate::error::{IoError, IoErrorKind};
use crate::text::{push_decimal, push_signed_decimal, push_str};

verus! {

// ── Two's Complement Conversion ──────────────────────────────────────────────

/// The width actually used for a requested bit width: integers here have at most 64 bits.
pub open spec fn effective_bits(bits: nat) -> nat {
    if bits >= 64 {
        64
    } else {
        bits
    }
}

/// Whether `n` can be written in `bits`-bit two's complement.
pub open spec fn fits_twos(n: int, bits: nat) -> bool {
    let b = effective_bits(bits);
    -(pow2((b - 1) as nat) as int) <= n < pow2((b - 1) as nat)
}

/// The unsigned `bits`-bit two's complement pattern of `n`.
pub open spec fn twos_encode(n: int, bits: nat) -> int {
    if n < 0 {
        n + pow2(effective_bits(bits))
    } else {
        n
    }
}

/// The signed number whose `bits`-bit two's complement pattern is `u`.
pub open spec fn twos_decode(u: int, bits: nat) -> int {
    let b = effective_bits(bits);
    if u >= pow2((b - 1) as nat) {
        u - pow2(b)
    } else {
        u
    }
}

/// `2^k` for `k < 64`, computed.
fn pow2_u64(k: u32) -> (r: u64)
    requires
        k < 64,
    ensures
        r == pow2(k as nat),
        r > 0,
{
    let mut r: u64 = 1;
    let mut i: u32 = 0;
    proof {
        lemma2_to64();
    }
    while i < k
        invariant
            i <= k < 64,
            r == pow2(i as nat),
        decreases k - i,
    {
        proof {
            lemma_pow2_adds(i as nat, 1);
            lemma2_to64();
            lemma_pow2_strictly_increases((i + 1) as nat, 64);
        }
        r = r * 2;
        i = i + 1;
    }
    proof {
        lemma_pow2_pos(k as nat);
    }
    r
}

/// Converts a signed integer to its two's complement representation with the
/// specified number of bits.
///
/// Returns an error if the number is out of range for the given bit width.
/// Widths of 64 bits or more represent every `i64`.
pub fn to_twos_complement(number: i64, bits: u32) -> (r: Result<u64, String>)
    requires
        bits >= 1,
    ensures
        r is Ok <==> fits_twos(number as int, bits as nat),
        r matches Ok(u) ==> u as int == twos_encode(number as int, bits as nat),
{
    proof {
        lemma2_to64();
        lemma2_to64_rest();
        if bits < 64 {
            lemma_pow2_strictly_increases((bits - 1) as nat, 63);
        }
    }
    if bits >= 64 {
        if number < 0 {
            return Ok(((number as i128) + 0x1_0000_0000_0000_0000i128) as u64);
        }
        return Ok(number as u64);
    }
    let value_max: i64 = pow2_u64(bits - 1) as i64;
    let value_min: i64 = -value_max;
    if number >= value_max || number < value_min {
        let mut msg = String::new();
        push_str(&mut msg, "Can't convert number ");
        push_signed_decimal(&mut msg, number);
        push_str(&mut msg, " into ");
        push_decimal(&mut msg, bits as u64);
        push_str(&mut msg, "-bit twos complement format - out of range");
        return Err(msg);
    }
    proof {
        lemma_pow2_adds((bits - 1) as nat, 1);
    }
    if number < 0 {
        let full: i128 = pow2_u64(bits) as i128;
        Ok(((number as i128) + full) as u64)
    } else {
        Ok(number as u64)
    }
}

/// Converts from a two's complement representation back to a signed integer.
///
/// Returns an error if the number doesn't fit into the given bit width.
/// Widths of 64 bits or more accept every `u64`.
pub fn from_twos_complement(number: u64, bits: u32) -> (r: Result<i64, String>)
    requires
        bits >= 1,
    ensures
        r is Ok <==> number < pow2(effective_bits(bits as nat)),
        r matches Ok(v) ==> v as int == twos_decode(number as int, bits as nat),
{
    proof {
        lemma2_to64();
        lemma2_to64_rest();
    }
    if bits >= 64 {
        if number >= 0x8000_0000_0000_0000u64 {
            return Ok(((number as i128) - 0x1_0000_0000_0000_0000i128) as i64);
        }
        return Ok(number as i64);
    }
    let full: u64 = pow2_u64(bits);
    let value_max: u64 = full - 1;
    if number > value_max {
        let mut msg = String::new();
        push_str(&mut msg, "Can't convert number ");
        push_decimal(&mut msg, number);
        push_str(&mut msg, " from ");
        push_decimal(&mut msg, bits as u64);
        push_str(&mut msg, "-bit twos complement format - out of range");
        return Err(msg);
    }
    let half: u64 = pow2_u64(bits - 1);
    proof {
        lemma_pow2_adds((bits - 1) as nat, 1);
    }
    if number >= half {
        Ok(((number as i128) - (full as i128)) as i64)
    } else {
        Ok(number as i64)
    }
}

/// Encoding a number in range and decoding the pattern gives the number back.
pub proof fn lemma_twos_roundtrip(n: int, bits: nat)
    requires
        1 <= bits,
        fits_twos(n, bits),
    ensures
        0 <= twos_encode(n, bits) < pow2(effective_bits(bits)),
        twos_decode(twos_encode(n, bits), bits) == n,
{
    let b = effective_bits(bits);
    lemma_pow2_adds((b - 1) as nat, 1);
    lemma2_to64();
}

/// Decoding a pattern of the right width and encoding the number gives the pattern back.
pub proof fn lemma_twos_roundtrip_unsigned(u: int, bits: nat)
    requires
        1 <= bits,
        0 <= u < pow2(effective_bits(bits)),
    ensures
        fits_twos(twos_decode(u, bits), bits),
        twos_encode(twos_decode(u, bits), bits) == u,
{
    let b = effective_bits(bits);
    lemma_pow2_adds((b - 1) as nat, 1);
    lemma2_to64();
}

// ── Varint Encoding / Decoding ───────────────────────────────────────────────

/// The variable-length encoding of `v`: seven bits per byte, least significant
/// group first, with the high bit set on every byte but the last.
pub open spec fn varint_encode(v: nat) -> Seq<u8>
    decreases v,
{
    if v < 128 {
        seq![v as u8]
    } else {
        seq![(v % 128 + 128) as u8] + varint_encode(v / 128)
    }
}

/// The outcome of reading a variable-length integer; `len` is the number of
/// bytes consumed in each case.
pub ghost enum VarintRead {
    /// A complete number was read.
    Done { len: nat, value: nat },
    /// The input ended before the last byte.
    Eof { len: nat },
    /// The number exceeds the largest value allowed.
    OutOfRange { len: nat },
    /// The continuation bit was still set on the last byte allowed.
    TooLong { len: nat },
}

/// The number of bytes allowed for a `max_bits`-bit number: `ceil(max_bits / 7)`.
pub open spec fn varint_byte_limit(max_bits: nat) -> nat {
    (max_bits + 6) / 7
}

/// The largest value of a `max_bits`-bit unsigned number (`max_bits <= 64`).
pub open spec fn varint_max(max_bits: nat) -> nat {
    (pow2(max_bits) - 1) as nat
}

/// Reading from byte `i` on, with `acc` the value of the groups read so far.
/// Values are kept modulo `2^64`, as a 64-bit accumulator does.
pub open spec fn varint_scan(s: Seq<u8>, i: nat, acc: nat, limit: nat, max: nat) -> VarintRead
    decreases limit - i,
{
    if i >= limit {
        VarintRead::TooLong { len: i }
    } else if i >= s.len() {
        VarintRead::Eof { len: i }
    } else {
        let acc2 = acc + (s[i as int] as nat % 128) * pow2(7 * i);
        let value = acc2 % pow2(64);
        if value > max {
            VarintRead::OutOfRange { len: i + 1 }
        } else if s[i as int] < 128 {
            VarintRead::Done { len: i + 1, value }
        } else {
            varint_scan(s, i + 1, acc2, limit, max)
        }
    }
}

/// A number that reading accepts is at most the allowed maximum and below `2^64`.
pub proof fn lemma_varint_scan_bound(s: Seq<u8>, i: nat, acc: nat, limit: nat, max: nat)
    ensures
        varint_scan(s, i, acc, limit, max) matches VarintRead::Done { value, .. } ==> value <= max
            && value < pow2(64),
    decreases limit - i,
{
    if i < limit && i < s.len() {
        let acc2 = acc + (s[i as int] as nat % 128) * pow2(7 * i);
        lemma_pow2_pos(64);
        assert(acc2 % pow2(64) < pow2(64));
        lemma_varint_scan_bound(s, i + 1, acc2, limit, max);
    }
}

/// A read never consumes more bytes than there are.
pub proof fn lemma_varint_scan_consumed(s: Seq<u8>, i: nat, acc: nat, limit: nat, max: nat)
    requires
        i <= s.len(),
    ensures
        i <= varint_consumed(varint_scan(s, i, acc, limit, max)) <= s.len(),
    decreases limit - i,
{
    if i < limit && i < s.len() {
        let acc2 = acc + (s[i as int] as nat % 128) * pow2(7 * i);
        lemma_varint_scan_consumed(s, i + 1, acc2, limit, max);
    }
}

/// Reading an unsigned variable-length number of at most `max_bits` bits from `s`.
pub open spec fn varint_decode(s: Seq<u8>, max_bits: nat) -> VarintRead {
    varint_scan(s, 0, 0, varint_byte_limit(max_bits), varint_max(max_bits))
}

/// The number of bytes that a read consumes.
pub open spec fn varint_consumed(r: VarintRead) -> nat {
    match r {
        VarintRead::Done { len, .. } => len,
        VarintRead::Eof { len } => len,
        VarintRead::OutOfRange { len } => len,
        VarintRead::TooLong { len } => len,
    }
}

/// Reads an unsigned varint of at most `max_bits` bits from the buffer.
///
/// Varints use 7 bits per byte with the MSB as a continuation flag. The bytes
/// examined are consumed whether or not the read succeeds.
pub fn read_varuint(reader: &mut Buffer, max_bits: u32) -> (r: Result<u64, IoError>)
    requires
        max_bits <= 64,
    ensures
        final(reader).bytes() == old(reader).bytes(),
        final(reader).position() == old(reader).position() + varint_consumed(
            varint_decode(old(reader).unread(), max_bits as nat),
        ),
        match varint_decode(old(reader).unread(), max_bits as nat) {
            VarintRead::Done { value, .. } => r == Ok::<u64, IoError>(value as u64),
            VarintRead::Eof { .. } => r matches Err(e) && e.kind == IoErrorKind::UnexpectedEof,
            _ => r matches Err(e) && e.kind == IoErrorKind::InvalidData,
        },
{
    proof {
        lemma2_to64();
    }
    let value_max: u64 = if max_bits < 64 {
        pow2_u64(max_bits) - 1
    } else {
        0xFFFF_FFFF_FFFF_FFFFu64
    };
    proof {
        lemma2_to64();
    }
    let byte_limit: u32 = (max_bits + 6) / 7;
    let ghost s = old(reader).unread();
    let ghost p0 = old(reader).position();
    let ghost limit = varint_byte_limit(max_bits as nat);
    let ghost maxv = varint_max(max_bits as nat);
    assert(value_max == maxv);
    let mut acc: u128 = 0;
    let mut mult: u128 = 1;
    let mut i: u32 = 0;
    while i < byte_limit
        invariant
            i <= byte_limit <= 10,
            byte_limit == limit,
            value_max == maxv,
            s == old(reader).unread(),
            p0 == old(reader).position(),
            reader.bytes() == old(reader).bytes(),
            reader.position() == p0 + i,
            i <= s.len(),
            reader.unread() == s.skip(i as int),
            mult == pow2(7 * i as nat),
            acc < mult,
            varint_decode(s, max_bits as nat) == varint_scan(s, i as nat, acc as nat, limit, maxv),
        decreases byte_limit - i,
    {
        let b = match reader.read_ubyte() {
            Ok(b) => b,
            Err(e) => {
                assert(s.skip(i as int).len() < 1);
                return Err(e);
            },
        };
        assert(b == s[i as int]);
        proof {
            lemma2_to64();
            lemma2_to64_rest();
            lemma_pow2_adds(7 * i as nat, 7);
            if 7 * i < 63 {
                lemma_pow2_strictly_increases(7 * i as nat, 63);
            }
            assert(mult <= 0x8000_0000_0000_0000u128);
            assert((b as nat % 128) * mult <= 127 * mult) by (nonlinear_arith)
                requires
                    (b as nat % 128) <= 127,
            ;
            assert(reader.unread() =~= s.skip(i + 1));
        }
        acc = acc + ((b % 128) as u128) * mult;
        let value: u64 = (acc % 0x1_0000_0000_0000_0000u128) as u64;
        if value > value_max {
            let mut msg = String::new();
            push_str(&mut msg, "Received varint was outside the range of ");
            push_decimal(&mut msg, max_bits as u64);
            push_str(&mut msg, "-bit int.");
            return Err(IoError::new(IoErrorKind::InvalidData, msg));
        }
        if b < 128 {
            return Ok(value);
        }
        mult = mult * 128;
        i = i + 1;
    }
    let mut msg = String::new();
    push_str(&mut msg, "Received varint had too many bytes for ");
    push_decimal(&mut msg, max_bits as u64);
    push_str(&mut msg, "-bit int (continuation bit set on byte ");
    push_decimal(&mut msg, byte_limit as u64);
    push_str(&mut msg, ").");
    Err(IoError::new(IoErrorKind::InvalidData, msg))
}

/// Writes an unsigned varint to the writer.
///
/// Fails, writing nothing, if `value` does not fit in `max_bits` bits.
pub fn write_varuint<W: ByteSink>(writer: &mut W, value: u64, max_bits: u32) -> (r: Result<
    (),
    IoError,
>)
    requires
        max_bits <= 64,
    ensures
        r is Ok <==> value <= varint_max(max_bits as nat),
        r is Ok ==> final(writer).written() == old(writer).written() + varint_encode(value as nat),
        r matches Err(e) ==> e.kind == IoErrorKind::InvalidInput && final(writer).written() == old(
            writer,
        ).written(),
{
    proof {
        lemma2_to64();
    }
    let value_max: u64 = if max_bits < 64 {
        pow2_u64(max_bits) - 1
    } else {
        0xFFFF_FFFF_FFFF_FFFFu64
    };
    if value > value_max {
        let mut msg = String::new();
        push_str(&mut msg, "Tried to write varint outside of the range of ");
        push_decimal(&mut msg, max_bits as u64);
        push_str(&mut msg, "-bit int.");
        return Err(IoError::new(IoErrorKind::InvalidInput, msg));
    }
    let mut remaining: u64 = value;
    loop
        invariant_except_break
            old(writer).written() + varint_encode(value as nat) == writer.written()
                + varint_encode(remaining as nat),
        ensures
            writer.written() == old(writer).written() + varint_encode(value as nat),
        decreases remaining,
    {
        if remaining < 128 {
            let byte: u8 = remaining as u8;
            writer.write_all(&[byte]);
            assert(varint_encode(remaining as nat) =~= seq![byte]);
            assert(writer.written() =~= old(writer).written() + varint_encode(value as nat));
            break;
        }
        let byte: u8 = (remaining % 128 + 128) as u8;
        let ghost before = writer.written();
        writer.write_all(&[byte]);
        assert([byte]@ =~= seq![byte]);
        assert(before + varint_encode(remaining as nat) =~= writer.written() + varint_encode(
            (remaining / 128) as nat,
        ));
        remaining = remaining / 128;
    }
    Ok(())
}

/// Reading the encoding of the groups from `i` on: `acc` holds the value of
/// the `i` groups already read and `w` the value still to come.
proof fn lemma_varint_scan_encode(
    s: Seq<u8>,
    i: nat,
    acc: nat,
    w: nat,
    bits: nat,
)
    requires
        1 <= bits <= 64,
        i + varint_encode(w).len() <= s.len(),
        s.subrange(i as int, (i + varint_encode(w).len()) as int) == varint_encode(w),
        acc < pow2(7 * i),
        acc + w * pow2(7 * i) <= varint_max(bits),
        i == 0 || w >= 1,
    ensures
        varint_scan(s, i, acc, varint_byte_limit(bits), varint_max(bits)) == (VarintRead::Done {
            len: i + varint_encode(w).len(),
            value: acc + w * pow2(7 * i),
        }),
    decreases w,
{
    let limit = varint_byte_limit(bits);
    let max = varint_max(bits);
    let p = pow2(7 * i);
    let v = acc + w * p;
    let e = varint_encode(w);
    lemma2_to64();
    lemma_pow2_pos(7 * i);
    lemma_pow2_pos(bits);
    assert(max < pow2(64)) by {
        if bits < 64 {
            lemma_pow2_strictly_increases(bits, 64);
        }
    }
    // the group at position `i` is still within the allowed number of bytes
    assert(i < limit) by {
        if i > 0 {
            assert(w * p >= p) by (nonlinear_arith)
                requires
                    w >= 1,
                    p > 0,
            ;
            if 7 * i >= bits {
                if 7 * i > bits {
                    lemma_pow2_strictly_increases(bits, 7 * i);
                }
            }
        }
    }
    assert(s[i as int] == e[0]);
    if w < 128 {
        assert(e =~= seq![w as u8]);
        assert((w as u8) as nat % 128 == w);
        assert(v % pow2(64) == v) by {
            vstd::arithmetic::div_mod::lemma_small_mod(v, pow2(64));
        }
    } else {
        let e2 = varint_encode(w / 128);
        assert(e =~= seq![(w % 128 + 128) as u8] + e2);
        let acc2 = acc + (w % 128) * p;
        lemma_pow2_adds(7 * i, 7);
        assert(7 * i + 7 == 7 * (i + 1));
        let p2 = pow2(7 * (i + 1));
        assert(p2 == p * 128);
        assert(acc2 < p2) by (nonlinear_arith)
            requires
                acc < p,
                w % 128 <= 127,
                p2 == p * 128,
                acc2 == acc + (w % 128) * p,
        ;
        assert(acc2 + (w / 128) * p2 == v) by (nonlinear_arith)
            requires
                p2 == p * 128,
                acc2 == acc + (w % 128) * p,
                v == acc + w * p,
                w == 128 * (w / 128) + w % 128,
        ;
        assert(acc2 <= v) by (nonlinear_arith)
            requires
                acc2 + (w / 128) * p2 == v,
                w / 128 >= 0,
                p2 >= 0,
        ;
        assert(acc2 % pow2(64) == acc2) by {
            vstd::arithmetic::div_mod::lemma_small_mod(acc2, pow2(64));
        }
        assert(((w % 128 + 128) as u8) as nat % 128 == w % 128);
        assert(s.subrange((i + 1) as int, (i + 1 + e2.len()) as int) =~= e2) by {
            assert(s.subrange(i as int, (i + e.len()) as int).subrange(1, e.len() as int) =~= e2);
        }
        lemma_varint_scan_encode(s, i + 1, acc2, w / 128, bits);
    }
}

/// Reading back a written varint: decoding the encoding of any value that fits
/// in `bits` bits (followed by anything) gives the value and consumes exactly
/// its encoding.
pub proof fn lemma_varint_roundtrip(v: nat, rest: Seq<u8>, bits: nat)
    requires
        1 <= bits <= 64,
        v <= varint_max(bits),
    ensures
        varint_decode(varint_encode(v) + rest, bits) == (VarintRead::Done {
            len: varint_encode(v).len(),
            value: v,
        }),
{
    let s = varint_encode(v) + rest;
    lemma2_to64();
    assert(s.subrange(0, varint_encode(v).len() as int) =~= varint_encode(v));
    assert(pow2(7 * 0nat) == 1);
    assert(0 + v * pow2(7 * 0nat) == v);
    lemma_varint_scan_encode(s, 0, 0, v, bits);
}

/// Every 32-bit signed integer survives a varint write followed by a varint read.
pub proof fn lemma_varint_signed_roundtrip(x: i32, rest: Seq<u8>)
    ensures
        ({
            let u = twos_encode(x as int, 32) as nat;
            &&& varint_decode(varint_encode(u) + rest, 32) == (VarintRead::Done {
                len: varint_encode(u).len(),
                value: u,
            })
            &&& varint_signed32(u) == x
        }),
{
    lemma2_to64();
    lemma_pow2_adds(31, 1);
    lemma_twos_roundtrip(x as int, 32);
    lemma_varint_roundtrip(twos_encode(x as int, 32) as nat, rest, 32);
}

/// Every 64-bit signed integer survives a varlong write followed by a varlong read.
pub proof fn lemma_varlong_signed_roundtrip(x: i64, rest: Seq<u8>)
    ensures
        ({
            let u = twos_encode(x as int, 64) as nat;
            &&& varint_decode(varint_encode(u) + rest, 64) == (VarintRead::Done {
                len: varint_encode(u).len(),
                value: u,
            })
            &&& twos_decode(u as int, 64) == x
        }),
{
    lemma2_to64();
    lemma2_to64_rest();
    lemma_pow2_adds(63, 1);
    lemma_twos_roundtrip(x as int, 64);
    lemma_varint_roundtrip(twos_encode(x as int, 64) as nat, rest, 64);
}

/// The signed 32-bit value that a varint read gives for the unsigned number `u`.
pub open spec fn varint_signed32(u: nat) -> int {
    twos_decode(u as int, 32)
}

/// Reads a 32-bit signed varint from the buffer.
pub fn read_varint(reader: &mut Buffer) -> (r: Result<i32, IoError>)
    ensures
        final(reader).bytes() == old(reader).bytes(),
        final(reader).position() == old(reader).position() + varint_consumed(
            varint_decode(old(reader).unread(), 32),
        ),
        match varint_decode(old(reader).unread(), 32) {
            VarintRead::Done { value, .. } => r matches Ok(v) && v as int == varint_signed32(value),
            VarintRead::Eof { .. } => r matches Err(e) && e.kind == IoErrorKind::UnexpectedEof,
            _ => r matches Err(e) && e.kind == IoErrorKind::InvalidData,
        },
{
    let unsigned = read_varuint(reader, 32)?;
    proof {
        lemma2_to64();
        lemma_varint_scan_bound(old(reader).unread(), 0, 0, varint_byte_limit(32), varint_max(32));
    }
    match from_twos_complement(unsigned, 32) {
        Ok(v) => {
            proof {
                lemma_pow2_adds(31, 1);
            }
            Ok(v as i32)
        },
        Err(_) => vstd::pervasive::unreached(),
    }
}

/// Reads a 64-bit signed varlong from the buffer.
pub fn read_varlong(reader: &mut Buffer) -> (r: Result<i64, IoError>)
    ensures
        final(reader).bytes() == old(reader).bytes(),
        final(reader).position() == old(reader).position() + varint_consumed(
            varint_decode(old(reader).unread(), 64),
        ),
        match varint_decode(old(reader).unread(), 64) {
            VarintRead::Done { value, .. } => r matches Ok(v) && v as int == twos_decode(
                value as int,
                64,
            ),
            VarintRead::Eof { .. } => r matches Err(e) && e.kind == IoErrorKind::UnexpectedEof,
            _ => r matches Err(e) && e.kind == IoErrorKind::InvalidData,
        },
{
    let unsigned = read_varuint(reader, 64)?;
    proof {
        lemma2_to64();
        lemma_varint_scan_bound(old(reader).unread(), 0, 0, varint_byte_limit(64), varint_max(64));
    }
    match from_twos_complement(unsigned, 64) {
        Ok(v) => Ok(v),
        Err(_) => {
            proof {
                lemma2_to64();
            }
            vstd::pervasive::unreached()
        },
    }
}

/// Writes a 32-bit signed integer as a varint (of its two's complement pattern).
pub fn write_varint<W: ByteSink>(writer: &mut W, value: i32) -> (r: Result<(), IoError>)
    ensures
        r is Ok,
        final(writer).written() == old(writer).written() + varint_encode(
            twos_encode(value as int, 32) as nat,
        ),
{
    proof {
        lemma2_to64();
        lemma_pow2_adds(31, 1);
    }
    match to_twos_complement(value as i64, 32) {
        Ok(unsigned) => write_varuint(writer, unsigned, 32),
        Err(_) => vstd::pervasive::unreached(),
    }
}

/// Writes a 64-bit signed integer as a varlong (of its two's complement pattern).
pub fn write_varlong<W: ByteSink>(writer: &mut W, value: i64) -> (r: Result<(), IoError>)
    ensures
        r is Ok,
        final(writer).written() == old(writer).written() + varint_encode(
            twos_encode(value as int, 64) as nat,
        ),
{
    proof {
        lemma2_to64();
        lemma_pow2_adds(63, 1);
    }
    match to_twos_complement(value, 64) {
        Ok(unsigned) => write_varuint(writer, unsigned, 64),
        Err(_) => vstd::pervasive::unreached(),
    }
}

} // verus!

verus! {

// ── Protocol-level reads and writes ──────────────────────────────────────────

/// All possible struct format types for reading/writing binary data
/// (the format characters of a binary struct layout).
#[derive(Debug, Clone, Copy, PartialEq, Eq, Structural)]
pub enum StructFormat {
    Bool,
    Char,
    Byte,
    UByte,
    Short,
    UShort,
    Int,
    UInt,
    Long,
    ULong,
    Float,
    Double,
    HalfFloat,
}

/// The size in bytes of a struct format.
pub open spec fn format_size(fmt: StructFormat) -> nat {
    match fmt {
        StructFormat::Bool | StructFormat::Byte | StructFormat::UByte | StructFormat::Char => 1,
        StructFormat::Short | StructFormat::UShort | StructFormat::HalfFloat => 2,
        StructFormat::Int | StructFormat::UInt | StructFormat::Float => 4,
        StructFormat::Long | StructFormat::ULong | StructFormat::Double => 8,
    }
}

impl StructFormat {
    /// Returns the size in bytes of this format.
    pub fn size(&self) -> (n: usize)
        ensures
            n == format_size(*self),
    {
        match self {
            StructFormat::Bool | StructFormat::Byte | StructFormat::UByte | StructFormat::Char => 1,
            StructFormat::Short | StructFormat::UShort | StructFormat::HalfFloat => 2,
            StructFormat::Int | StructFormat::UInt | StructFormat::Float => 4,
            StructFormat::Long | StructFormat::ULong | StructFormat::Double => 8,
        }
    }
}

/// A value read from or to be written to a binary stream.
///
/// Floating-point values are carried as their IEEE 754 bit patterns
/// (`Float` as single precision, `Double` as double precision).
#[derive(Debug, Clone, Copy, PartialEq, Eq, Structural)]
pub enum Value {
    Bool(bool),
    Char(u8),
    Byte(i8),
    UByte(u8),
    Short(i16),
    UShort(u16),
    Int(i32),
    UInt(u32),
    Long(i64),
    ULong(u64),
    Float(u32),
    Double(u64),
    HalfFloat(u16),
}

/// Shifting a half-precision subnormal mantissa left until its leading bit
/// reaches the implicit-one position (bit 10).
pub open spec fn normalize_mantissa(m: nat) -> nat
    decreases 0x800 - m,
{
    if m == 0 || m >= 0x400 {
        m
    } else {
        normalize_mantissa(2 * m)
    }
}

/// The single-precision bit pattern that a half-precision pattern `half`
/// converts to: sign copied, exponent rebased from bias 15 to bias 127,
/// mantissa widened; infinities and NaNs keep their mantissa. A subnormal
/// input has its mantissa normalized and gets exponent field 113.
pub open spec fn half_to_float_spec(half: u16) -> nat {
    let sign = half as nat / 0x8000;
    let exponent = (half as nat / 0x400) % 0x20;
    let mantissa = half as nat % 0x400;
    if exponent == 0 {
        if mantissa == 0 {
            sign * 0x8000_0000
        } else {
            sign * 0x8000_0000 + 113 * 0x80_0000 + ((normalize_mantissa(mantissa) - 0x400) as nat)
                * 0x2000
        }
    } else if exponent == 0x1F {
        sign * 0x8000_0000 + 0x7F80_0000 + mantissa * 0x2000
    } else {
        sign * 0x8000_0000 + (exponent + 112) * 0x80_0000 + mantissa * 0x2000
    }
}

/// Converts a half-precision float bit pattern to a single-precision bit pattern.
pub fn half_to_float_bits(half: u16) -> (bits: u32)
    ensures
        bits as nat == half_to_float_spec(half),
{
    let sign: u32 = (half / 0x8000) as u32;
    let exponent: u32 = ((half / 0x400) % 0x20) as u32;
    let mantissa: u32 = (half % 0x400) as u32;
    if exponent == 0 {
        if mantissa == 0 {
            sign * 0x8000_0000
        } else {
            let mut m: u32 = mantissa;
            while m < 0x400
                invariant
                    0 < m < 0x800,
                    normalize_mantissa(m as nat) == normalize_mantissa(mantissa as nat),
                decreases 0x800 - m,
            {
                m = m * 2;
            }
            sign * 0x8000_0000 + 113 * 0x80_0000 + (m - 0x400) * 0x2000
        }
    } else if exponent == 0x1F {
        sign * 0x8000_0000 + 0x7F80_0000 + mantissa * 0x2000
    } else {
        sign * 0x8000_0000 + (exponent + 112) * 0x80_0000 + mantissa * 0x2000
    }
}

/// The value that a format gives for its bytes (big-endian).
pub open spec fn decode_value(fmt: StructFormat, b: Seq<u8>) -> Value {
    let u = crate::buffer::be_decode(b);
    match fmt {
        StructFormat::Bool => Value::Bool(b[0] != 0),
        StructFormat::Byte => Value::Byte(b[0] as i8),
        StructFormat::UByte => Value::UByte(b[0]),
        StructFormat::Short => Value::Short((u as u16) as i16),
        StructFormat::UShort => Value::UShort(u as u16),
        StructFormat::Int => Value::Int((u as u32) as i32),
        StructFormat::UInt => Value::UInt(u as u32),
        StructFormat::Long => Value::Long((u as u64) as i64),
        StructFormat::ULong => Value::ULong(u as u64),
        StructFormat::Float => Value::Float(u as u32),
        StructFormat::Double => Value::Double(u as u64),
        StructFormat::Char => Value::Char(b[0]),
        StructFormat::HalfFloat => Value::Float(half_to_float_spec(u as u16) as u32),
    }
}

/// The big-endian number held by `b` (at most 8 bytes).
fn be_value(b: &Vec<u8>) -> (v: u64)
    requires
        b@.len() <= 8,
    ensures
        v as nat == crate::buffer::be_decode(b@),
{
    let mut v: u64 = 0;
    let mut i: usize = 0;
    while i < b.len()
        invariant
            i <= b.len() <= 8,
            v == crate::buffer::be_decode(b@.take(i as int)),
            v < crate::buffer::pow256(i as nat),
        decreases b.len() - i,
    {
        proof {
            assert(b@.take(i + 1).drop_last() =~= b@.take(i as int));
            crate::buffer::lemma_pow256_bound(i as nat);
        }
        v = v * 256 + b[i] as u64;
        i += 1;
    }
    assert(b@.take(b.len() as int) =~= b@);
    v
}

/// Reads a big-endian value of the given struct format.
pub fn read_value(reader: &mut Buffer, fmt: StructFormat) -> (r: Result<Value, IoError>)
    ensures
        final(reader).bytes() == old(reader).bytes(),
        match r {
            Ok(v) => {
                &&& old(reader).unread().len() >= format_size(fmt)
                &&& v == decode_value(fmt, old(reader).unread().take(format_size(fmt) as int))
                &&& final(reader).position() == old(reader).position() + format_size(fmt)
            },
            Err(e) => {
                &&& old(reader).unread().len() < format_size(fmt)
                &&& e.kind == IoErrorKind::UnexpectedEof
                &&& final(reader).position() == old(reader).position()
            },
        },
{
    let len = fmt.size();
    let buf = reader.read_bytes(len)?;
    let u = be_value(&buf);
    proof {
        crate::buffer::lemma_be_decode_bound(buf@);
        reveal_with_fuel(crate::buffer::pow256, 9);
    }
    let v = match fmt {
        StructFormat::Bool => Value::Bool(buf[0] != 0),
        StructFormat::Byte => Value::Byte(buf[0] as i8),
        StructFormat::UByte => Value::UByte(buf[0]),
        StructFormat::Short => Value::Short((u as u16) as i16),
        StructFormat::UShort => Value::UShort(u as u16),
        StructFormat::Int => Value::Int((u as u32) as i32),
        StructFormat::UInt => Value::UInt(u as u32),
        StructFormat::Long => Value::Long(u as i64),
        StructFormat::ULong => Value::ULong(u),
        StructFormat::Float => Value::Float(u as u32),
        StructFormat::Double => Value::Double(u),
        StructFormat::Char => Value::Char(buf[0]),
        StructFormat::HalfFloat => Value::Float(half_to_float_bits(u as u16)),
    };
    Ok(v)
}

/// The bytes that a format writes for a value, or `None` when the value's
/// type does not match the format.
pub open spec fn encode_value(fmt: StructFormat, value: Value) -> Option<Seq<u8>> {
    match (fmt, value) {
        (StructFormat::Bool, Value::Bool(v)) => Some(seq![if v { 1u8 } else { 0u8 }]),
        (StructFormat::Byte, Value::Byte(v)) => Some(seq![v as u8]),
        (StructFormat::UByte, Value::UByte(v)) => Some(seq![v]),
        (StructFormat::Short, Value::Short(v)) => Some(be_encode((v as u16) as nat, 2)),
        (StructFormat::UShort, Value::UShort(v)) => Some(be_encode(v as nat, 2)),
        (StructFormat::Int, Value::Int(v)) => Some(be_encode((v as u32) as nat, 4)),
        (StructFormat::UInt, Value::UInt(v)) => Some(be_encode(v as nat, 4)),
        (StructFormat::Long, Value::Long(v)) => Some(be_encode((v as u64) as nat, 8)),
        (StructFormat::ULong, Value::ULong(v)) => Some(be_encode(v as nat, 8)),
        (StructFormat::Float, Value::Float(v)) => Some(be_encode(v as nat, 4)),
        (StructFormat::Double, Value::Double(v)) => Some(be_encode(v as nat, 8)),
        (StructFormat::Char, Value::Char(v)) => Some(seq![v]),
        (StructFormat::HalfFloat, Value::HalfFloat(v)) => Some(be_encode(v as nat, 2)),
        _ => None,
    }
}

/// `value` as `n` big-endian bytes.
fn be_bytes(value: u64, n: usize) -> (v: Vec<u8>)
    requires
        n <= 8,
    ensures
        v@ == crate::buffer::be_encode(value as nat, n as nat),
    decreases n,
{
    if n == 0 {
        Vec::new()
    } else {
        let mut v = be_bytes(value / 256, n - 1);
        v.push((value % 256) as u8);
        v
    }
}

/// Writes a big-endian value of the given struct format.
///
/// Fails, writing nothing, when the value's type does not match the format.
pub fn write_value<W: ByteSink>(writer: &mut W, fmt: StructFormat, value: Value) -> (r: Result<
    (),
    IoError,
>)
    ensures
        r is Ok <==> encode_value(fmt, value) is Some,
        match encode_value(fmt, value) {
            Some(b) => final(writer).written() == old(writer).written() + b,
            None => final(writer).written() == old(writer).written() && (r matches Err(e)
                && e.kind == IoErrorKind::InvalidInput
                && e.message@ == "Type mismatch for format "@ + format_label(fmt)),
        },
{
    let bytes: Vec<u8> = match (fmt, value) {
        (StructFormat::Bool, Value::Bool(v)) => vec![if v { 1u8 } else { 0u8 }],
        (StructFormat::Byte, Value::Byte(v)) => vec![v as u8],
        (StructFormat::UByte, Value::UByte(v)) => vec![v],
        (StructFormat::Short, Value::Short(v)) => be_bytes((v as u16) as u64, 2),
        (StructFormat::UShort, Value::UShort(v)) => be_bytes(v as u64, 2),
        (StructFormat::Int, Value::Int(v)) => be_bytes((v as u32) as u64, 4),
        (StructFormat::UInt, Value::UInt(v)) => be_bytes(v as u64, 4),
        (StructFormat::Long, Value::Long(v)) => be_bytes(v as u64, 8),
        (StructFormat::ULong, Value::ULong(v)) => be_bytes(v, 8),
        (StructFormat::Float, Value::Float(v)) => be_bytes(v as u64, 4),
        (StructFormat::Double, Value::Double(v)) => be_bytes(v, 8),
        (StructFormat::Char, Value::Char(v)) => vec![v],
        (StructFormat::HalfFloat, Value::HalfFloat(v)) => be_bytes(v as u64, 2),
        _ => {
            let mut msg = String::new();
            push_str(&mut msg, "Type mismatch for format ");
            push_str(&mut msg, format_name(fmt));
            return Err(IoError::new(IoErrorKind::InvalidInput, msg));
        },
    };
    writer.write_all(bytes.as_slice());
    Ok(())
}

/// The name of a struct format, as messages print it.
pub open spec fn format_label(fmt: StructFormat) -> Seq<char> {
    match fmt {
        StructFormat::Bool => "Bool"@,
        StructFormat::Char => "Char"@,
        StructFormat::Byte => "Byte"@,
        StructFormat::UByte => "UByte"@,
        StructFormat::Short => "Short"@,
        StructFormat::UShort => "UShort"@,
        StructFormat::Int => "Int"@,
        StructFormat::UInt => "UInt"@,
        StructFormat::Long => "Long"@,
        StructFormat::ULong => "ULong"@,
        StructFormat::Float => "Float"@,
        StructFormat::Double => "Double"@,
        StructFormat::HalfFloat => "HalfFloat"@,
    }
}

/// The name of a struct format, as it is printed in messages.
fn format_name(fmt: StructFormat) -> (r: &'static str)
    ensures
        r@ == format_label(fmt),
{
    match fmt {
        StructFormat::Bool => "Bool",
        StructFormat::Char => "Char",
        StructFormat::Byte => "Byte",
        StructFormat::UByte => "UByte",
        StructFormat::Short => "Short",
        StructFormat::UShort => "UShort",
        StructFormat::Int => "Int",
        StructFormat::UInt => "UInt",
        StructFormat::Long => "Long",
        StructFormat::ULong => "ULong",
        StructFormat::Float => "Float",
        StructFormat::Double => "Double",
        StructFormat::HalfFloat => "HalfFloat",
    }
}

} // verus!

verus! {

/// Characters read one per byte (ISO-8859-1): each byte is the code point.
pub open spec fn latin1_decode(b: Seq<u8>) -> Seq<char> {
    Seq::new(b.len(), |i: int| b[i] as char)
}

/// Characters written one per byte (ISO-8859-1): code points above 0xFF
/// become `?`.
pub open spec fn latin1_encode(s: Seq<char>) -> Seq<u8> {
    Seq::new(s.len(), |i: int| if (s[i] as u32) <= 0xFF { (s[i] as u32) as u8 } else { 0x3Fu8 })
}

/// The index of the first zero byte of `b`, if there is one.
pub open spec fn first_zero(b: Seq<u8>) -> Option<nat> {
    if exists|i: int| 0 <= i < b.len() && b[i] == 0 {
        Some(
            (choose|i: int| 0 <= i < b.len() && b[i] == 0 && forall|j: int| 0 <= j < i ==> b[j] != 0) as nat,
        )
    } else {
        None
    }
}

/// If some byte of `b` is zero, there is a first one.
proof fn lemma_first_zero(b: Seq<u8>, k: int)
    requires
        0 <= k < b.len(),
        b[k] == 0,
        forall|j: int| 0 <= j < k ==> b[j] != 0,
    ensures
        first_zero(b) == Some(k as nat),
{
    let c = choose|i: int| 0 <= i < b.len() && b[i] == 0 && forall|j: int| 0 <= j < i ==> b[j] != 0;
    assert(0 <= c < b.len() && b[c] == 0 && forall|j: int| 0 <= j < c ==> b[j] != 0);
    if c < k {
        assert(b[c] != 0);
    } else if c > k {
        assert(b[k] != 0);
    }
}

/// Reads a null-terminated ISO-8859-1 (Latin-1) string.
///
/// Fails if the data ends before a zero byte; the bytes examined are consumed.
pub fn read_mc_ascii(reader: &mut Buffer) -> (r: Result<String, IoError>)
    ensures
        final(reader).bytes() == old(reader).bytes(),
        match first_zero(old(reader).unread()) {
            Some(k) => {
                &&& r matches Ok(s) && s@ == latin1_decode(old(reader).unread().take(k as int))
                &&& final(reader).position() == old(reader).position() + k + 1
            },
            None => {
                &&& r matches Err(e) && e.kind == IoErrorKind::UnexpectedEof
                &&& final(reader).position() == old(reader).position() + old(reader).unread().len()
            },
        },
{
    let ghost s = old(reader).unread();
    let total = reader.len();
    let mut result = String::new();
    let mut i: usize = 0;
    loop
        invariant
            s == old(reader).unread(),
            reader.bytes() == old(reader).bytes(),
            s.len() <= total,
            total == reader.bytes().len(),
            i <= s.len(),
            reader.position() == old(reader).position() + i,
            reader.unread() == s.skip(i as int),
            forall|j: int| 0 <= j < i ==> s[j] != 0,
            result@ == latin1_decode(s.take(i as int)),
        decreases s.len() - i,
    {
        let b = match reader.read_ubyte() {
            Ok(b) => b,
            Err(e) => {
                proof {
                    assert(i == s.len());
                    if exists|k: int| 0 <= k < s.len() && s[k] == 0 {
                        let k = choose|k: int| 0 <= k < s.len() && s[k] == 0;
                        assert(s[k] != 0);
                    }
                }
                return Err(e);
            },
        };
        assert(b == s[i as int]);
        assert(reader.unread() =~= s.skip(i + 1));
        if b == 0 {
            proof {
                lemma_first_zero(s, i as int);
            }
            return Ok(result);
        }
        crate::text::push_char(&mut result, b as char);
        i += 1;
        assert(result@ =~= latin1_decode(s.take(i as int)));
    }
}

/// Writes a null-terminated ISO-8859-1 (Latin-1) string; characters outside
/// Latin-1 are written as `?`.
pub fn write_mc_ascii<W: ByteSink>(writer: &mut W, value: &str)
    ensures
        final(writer).written() == old(writer).written() + latin1_encode(value@).push(0u8),
{
    let chars = crate::text::chars_of(value);
    let mut i: usize = 0;
    while i < chars.len()
        invariant
            i <= chars.len(),
            chars@ == value@,
            writer.written() == old(writer).written() + latin1_encode(chars@.take(i as int)),
        decreases chars.len() - i,
    {
        let ch = chars[i];
        let byte: u8 = if (ch as u32) <= 0xFF { (ch as u32) as u8 } else { 0x3F };
        writer.write_all(&[byte]);
        i += 1;
        assert(latin1_encode(chars@.take(i as int)) =~= latin1_encode(chars@.take(i - 1)).push(
            byte,
        ));
        assert([byte]@ =~= seq![byte]);
    }
    writer.write_all(&[0u8]);
    assert(chars@.take(chars.len() as int) =~= chars@);
    assert([0u8]@ =~= seq![0u8]);
}

/// The outcome of reading a length-prefixed field: the prefix (a 32-bit
/// varint) has been read and gives `length`, with `len` bytes consumed.
pub open spec fn prefix_length(s: Seq<u8>) -> Option<(nat, int)> {
    match varint_decode(s, 32) {
        VarintRead::Done { len, value } => Some((len, varint_signed32(value))),
        _ => None,
    }
}

/// Reads a byte array prefixed with its length as a varint.
///
/// Fails on a negative length, or when the data ends before the array does
/// (the prefix is then consumed, the array is not).
pub fn read_mc_bytearray(reader: &mut Buffer) -> (r: Result<Vec<u8>, IoError>)
    ensures
        final(reader).bytes() == old(reader).bytes(),
        match prefix_length(old(reader).unread()) {
            None => r is Err,
            Some((len, n)) => if n < 0 {
                r matches Err(e) && e.kind == IoErrorKind::InvalidData
            } else if old(reader).unread().len() < len + n {
                r matches Err(e) && e.kind == IoErrorKind::UnexpectedEof
            } else {
                &&& r matches Ok(v) && v@ == old(reader).unread().subrange(len as int, len + n)
                &&& final(reader).position() == old(reader).position() + len + n
            },
        },
{
    let length = read_varint(reader)?;
    if length < 0 {
        let mut msg = String::new();
        push_str(&mut msg, "Length prefix for byte arrays must be non-negative, got ");
        push_signed_decimal(&mut msg, length as i64);
        push_str(&mut msg, ".");
        return Err(IoError::new(IoErrorKind::InvalidData, msg));
    }
    proof {
        lemma_varint_scan_consumed(old(reader).unread(), 0, 0, varint_byte_limit(32), varint_max(32));
        assert(reader.unread() =~= old(reader).unread().skip(
            varint_consumed(varint_decode(old(reader).unread(), 32)) as int,
        ));
    }
    let buf = reader.read_bytes(length as usize)?;
    assert(buf@ =~= old(reader).unread().subrange(
        varint_consumed(varint_decode(old(reader).unread(), 32)) as int,
        varint_consumed(varint_decode(old(reader).unread(), 32)) + length,
    ));
    Ok(buf)
}

/// Writes a byte array prefixed with its length as a varint (the length is
/// converted to `i32`, as the protocol's length field is a 32-bit varint).
pub fn write_mc_bytearray<W: ByteSink>(writer: &mut W, data: &[u8]) -> (r: Result<(), IoError>)
    ensures
        r is Ok,
        final(writer).written() == old(writer).written() + varint_encode(
            twos_encode((data@.len() as i32) as int, 32) as nat,
        ) + data@,
{
    write_varint(writer, data.len() as i32)?;
    writer.write_all(data);
    Ok(())
}

/// Reads a UTF-8 string prefixed with its byte length as a varint.
///
/// The length must be between 0 and 131068 and the bytes valid UTF-8 of at
/// most 32767 characters.
pub fn read_mc_utf(reader: &mut Buffer) -> (r: Result<String, IoError>)
    ensures
        final(reader).bytes() == old(reader).bytes(),
        match prefix_length(old(reader).unread()) {
            None => r is Err,
            Some((len, n)) => if n < 0 || n > 131068 {
                r matches Err(e) && e.kind == IoErrorKind::InvalidData
            } else if old(reader).unread().len() < len + n {
                r matches Err(e) && e.kind == IoErrorKind::UnexpectedEof
            } else {
                let payload = old(reader).unread().subrange(len as int, len + n);
                if !vstd::utf8::valid_utf8(payload) || vstd::utf8::decode_utf8(payload).len()
                    > 32767 {
                    r matches Err(e) && e.kind == IoErrorKind::InvalidData
                } else {
                    &&& r matches Ok(s) && s@ == vstd::utf8::decode_utf8(payload)
                    &&& final(reader).position() == old(reader).position() + len + n
                }
            },
        },
{
    let length = read_varint(reader)?;
    if length < 0 {
        let mut msg = String::new();
        push_str(&mut msg, "Length prefix for utf strings must be non-negative, got ");
        push_signed_decimal(&mut msg, length as i64);
        push_str(&mut msg, ".");
        return Err(IoError::new(IoErrorKind::InvalidData, msg));
    }
    if length > 131068 {
        let mut msg = String::new();
        push_str(&mut msg, "Maximum read limit for utf strings is 131068 bytes, got ");
        push_signed_decimal(&mut msg, length as i64);
        push_str(&mut msg, ".");
        return Err(IoError::new(IoErrorKind::InvalidData, msg));
    }
    proof {
        lemma_varint_scan_consumed(old(reader).unread(), 0, 0, varint_byte_limit(32), varint_max(32));
        assert(reader.unread() =~= old(reader).unread().skip(
            varint_consumed(varint_decode(old(reader).unread(), 32)) as int,
        ));
    }
    let buf = reader.read_bytes(length as usize)?;
    let ghost payload = buf@;
    assert(payload =~= old(reader).unread().subrange(
        varint_consumed(varint_decode(old(reader).unread(), 32)) as int,
        varint_consumed(varint_decode(old(reader).unread(), 32)) + length,
    ));
    let chars = match crate::text::string_from_utf8(buf) {
        Ok(s) => s,
        Err(msg) => {
            return Err(IoError::new(IoErrorKind::InvalidData, msg));
        },
    };
    let n_chars = chars.as_str().unicode_len();
    if n_chars > 32767 {
        let mut msg = String::new();
        push_str(&mut msg, "Maximum read limit for utf strings is 32767 characters, got ");
        push_decimal(&mut msg, n_chars as u64);
        push_str(&mut msg, ".");
        return Err(IoError::new(IoErrorKind::InvalidData, msg));
    }
    Ok(chars)
}

/// Writes a UTF-8 string prefixed with its byte length as a varint.
///
/// Fails, writing nothing, for strings of more than 32767 characters.
pub fn write_mc_utf<W: ByteSink>(writer: &mut W, value: &str) -> (r: Result<(), IoError>)
    ensures
        r is Ok <==> value@.len() <= 32767,
        r is Ok ==> final(writer).written() == old(writer).written() + varint_encode(
            vstd::utf8::encode_utf8(value@).len(),
        ) + vstd::utf8::encode_utf8(value@),
        r matches Err(e) ==> e.kind == IoErrorKind::InvalidInput && final(writer).written() == old(
            writer,
        ).written(),
{
    if value.unicode_len() > 32767 {
        let mut msg = String::new();
        push_str(&mut msg, "Maximum character limit for writing strings is 32767 characters.");
        return Err(IoError::new(IoErrorKind::InvalidInput, msg));
    }
    let data = value.as_bytes();
    proof {
        lemma_utf8_len_bound(value@);
    }
    write_varint(writer, data.len() as i32)?;
    writer.write_all(data);
    Ok(())
}

/// A text takes at most four bytes per character in UTF-8.
pub proof fn lemma_utf8_len_bound(s: Seq<char>)
    ensures
        vstd::utf8::encode_utf8(s).len() <= 4 * s.len(),
    decreases s.len(),
{
    if s.len() > 0 {
        lemma_utf8_len_bound(s.drop_first());
    }
}

/// A string written with `write_mc_utf` is read back unchanged by
/// `read_mc_utf`, whatever follows it.
pub proof fn lemma_mc_utf_roundtrip(s: Seq<char>, rest: Seq<u8>)
    requires
        s.len() <= 32767,
    ensures
        ({
            let b = vstd::utf8::encode_utf8(s);
            let stream = varint_encode(b.len()) + b + rest;
            &&& prefix_length(stream) == Some((varint_encode(b.len()).len(), b.len() as int))
            &&& stream.subrange(
                varint_encode(b.len()).len() as int,
                (varint_encode(b.len()).len() + b.len()) as int,
            ) == b
            &&& vstd::utf8::valid_utf8(b)
            &&& vstd::utf8::decode_utf8(b) == s
            &&& b.len() <= 131068
        }),
{
    let b = vstd::utf8::encode_utf8(s);
    lemma_utf8_len_bound(s);
    let e = varint_encode(b.len());
    lemma2_to64();
    lemma_pow2_adds(31, 1);
    lemma_varint_roundtrip(b.len(), b + rest, 32);
    assert(e + b + rest =~= e + (b + rest));
    assert((e + b + rest).subrange(e.len() as int, (e.len() + b.len()) as int) =~= b);
    vstd::utf8::encode_utf8_valid_utf8(s);
    vstd::utf8::encode_utf8_decode_utf8(s);
}


/// A byte array written with its length prefix (as `write_mc_bytearray`
/// writes it) is read back whole: the prefix gives the array's length, and
/// the array follows it.
pub proof fn lemma_bytearray_roundtrip(data: Seq<u8>, rest: Seq<u8>)
    requires
        data.len() <= i32::MAX,
    ensures
        ({
            let w = varint_encode(twos_encode((data.len() as i32) as int, 32) as nat);
            &&& prefix_length(w + data + rest) == Some((w.len(), data.len() as int))
            &&& (w + data + rest).subrange(w.len() as int, (w.len() + data.len()) as int) == data
        }),
{
    let x = data.len() as i32;
    let w = varint_encode(twos_encode(x as int, 32) as nat);
    lemma_varint_signed_roundtrip(x, data + rest);
    assert(w + data + rest =~= w + (data + rest));
    assert((w + data + rest).subrange(w.len() as int, (w.len() + data.len()) as int) =~= data);
}


/// A text of Latin-1 characters without NUL survives a null-terminated
/// ISO-8859-1 write (as `write_mc_ascii` writes it) and read (as
/// `read_mc_ascii` reads it): the read stops at the terminator and decodes
/// the text.
pub proof fn lemma_mc_ascii_roundtrip(s: Seq<char>, rest: Seq<u8>)
    requires
        forall|i: int| 0 <= i < s.len() ==> 0 < (#[trigger] s[i]) as u32 <= 0xFF,
    ensures
        ({
            let b = latin1_encode(s).push(0u8) + rest;
            &&& first_zero(b) == Some(s.len())
            &&& latin1_decode(b.take(s.len() as int)) == s
        }),
{
    let b = latin1_encode(s).push(0u8) + rest;
    assert forall|j: int| 0 <= j < s.len() implies b[j] != 0 && (b[j] as char) == s[j] by {
        let u = s[j] as u32;
        assert(0 < u <= 0xFF);
        assert(b[j] == (u as u8));
        assert((u as u8) as u32 == u);
        vstd::utf8::char_u32_cast(s[j], u);
        assert((b[j] as char) == (u as char));
    }
    assert(b[s.len() as int] == 0);
    lemma_first_zero(b, s.len() as int);
    assert(latin1_decode(b.take(s.len() as int)) =~= s);
}


/// Writes an optional value: a `0` byte for none, else a `1` byte followed by
/// what `writer_fn` writes for the value.
pub fn write_mc_optional<W: ByteSink, T, F: FnOnce(&mut W, &T) -> Result<(), IoError>>(
    writer: &mut W,
    value: Option<&T>,
    writer_fn: F,
) -> (r: Result<(), IoError>)
    requires
        forall|w: &mut W, v: &T| writer_fn.requires((w, v)),
    ensures
        value is None ==> r is Ok && final(writer).written() == old(writer).written().push(0u8),
        value matches Some(v) ==> exists|w: &mut W|
            {
                &&& (*w).written() == old(writer).written().push(1u8)
                &&& *final(w) == *final(writer)
                &&& call_ensures(writer_fn, (w, v), r)
            },
{
    match value {
        None => {
            writer.write_all(&[0u8]);
            Ok(())
        },
        Some(v) => {
            writer.write_all(&[1u8]);
            writer_fn(writer, v)
        },
    }
}


/// Reads an optional value: a `0` byte means none; any other byte is
/// followed by the value, which `reader_fn` reads.
///
/// With no byte left the read fails with an unexpected end and the reader is
/// left as it was; with a `0` flag the answer is `None`, one byte is consumed
/// and the reader is left otherwise as it was; with any other flag
/// `reader_fn` is called once, on the reader right after the flag, the reader
/// is left as `reader_fn` leaves it, and its value (wrapped in `Some`) or its
/// error is the answer.
pub fn read_mc_optional<T, F: FnOnce(&mut Buffer) -> Result<T, IoError>>(
    reader: &mut Buffer,
    reader_fn: F,
) -> (r: Result<Option<T>, IoError>)
    requires
        forall|b: &mut Buffer| reader_fn.requires((b,)),
    ensures
        old(reader).unread().len() == 0 ==> (r matches Err(e) && e.kind
            == IoErrorKind::UnexpectedEof) && final(reader).bytes() == old(reader).bytes()
            && final(reader).position() == old(reader).position(),
        old(reader).unread().len() > 0 && old(reader).unread()[0] == 0 ==> (r matches Ok(None))
            && final(reader).bytes() == old(reader).bytes() && final(reader).position() == old(
            reader,
        ).position() + 1,
        old(reader).unread().len() > 0 && old(reader).unread()[0] != 0 ==> exists|b: &mut Buffer|
            {
                &&& (*b).bytes() == old(reader).bytes()
                &&& (*b).position() == old(reader).position() + 1
                &&& *final(b) == *final(reader)
                &&& match r {
                    Ok(Some(x)) => call_ensures(reader_fn, (b,), Ok::<T, IoError>(x)),
                    Err(e) => call_ensures(reader_fn, (b,), Err::<T, IoError>(e)),
                    Ok(None) => false,
                }
            },
{
    let flag = match reader.read_ubyte() {
        Ok(b) => b,
        Err(e) => {
            return Err(e);
        },
    };
    if flag == 0 {
        return Ok(None);
    }
    match reader_fn(reader) {
        Ok(x) => Ok(Some(x)),
        Err(e) => Err(e),
    }
}

} // verus!
