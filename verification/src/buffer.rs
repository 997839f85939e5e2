//! An in-memory byte buffer with a read cursor, and the byte-sink abstraction
//! that the protocol writers target.
use vstd::prelude::*;

use crate::error::{IoError, IoErrorKind};
use crate::text::{push_decimal, push_str};

verus! {

/// `n` bytes holding `v` in big-endian order (most significant byte first),
/// keeping only the low `8 * n` bits of `v`.
pub open spec fn be_encode(v: nat, n: nat) -> Seq<u8>
    decreases n,
{
    if n == 0 {
        Seq::empty()
    } else {
        be_encode(v / 256, (n - 1) as nat).push((v % 256) as u8)
    }
}

/// The unsigned number whose big-endian bytes are `s`.
pub open spec fn be_decode(s: Seq<u8>) -> nat
    decreases s.len(),
{
    if s.len() == 0 {
        0
    } else {
        be_decode(s.drop_last()) * 256 + s.last() as nat
    }
}

/// `256` to the power `n`.
pub open spec fn pow256(n: nat) -> nat
    decreases n,
{
    if n == 0 {
        1
    } else {
        256 * pow256((n - 1) as nat)
    }
}

/// Big-endian encoding produces exactly `n` bytes.
pub proof fn lemma_be_encode_len(v: nat, n: nat)
    ensures
        be_encode(v, n).len() == n,
    decreases n,
{
    if n > 0 {
        lemma_be_encode_len(v / 256, (n - 1) as nat);
    }
}

/// Decoding the big-endian encoding of `v` in `n` bytes gives back `v`
/// reduced modulo `256^n`: writing a value and reading it back is lossless
/// whenever the value fits.
pub proof fn lemma_be_roundtrip(v: nat, n: nat)
    ensures
        be_decode(be_encode(v, n)) == v % pow256(n),
    decreases n,
{
    if n == 0 {
    } else {
        let m = (n - 1) as nat;
        lemma_be_roundtrip(v / 256, m);
        lemma_be_encode_len(v / 256, m);
        let e = be_encode(v, n);
        assert(e.drop_last() =~= be_encode(v / 256, m));
        let p = pow256(m);
        assert(pow256(n) == 256 * p);
        assert(p > 0) by {
            lemma_pow256_pos(m);
        }
        // (v / 256 % p) * 256 + v % 256 == v % (256 * p)
        vstd::arithmetic::div_mod::lemma_mod_breakdown(v as int, 256, p as int);
        vstd::arithmetic::mul::lemma_mul_is_commutative(256, (v / 256 % p) as int);
    }
}

/// Every power of 256 is positive.
pub proof fn lemma_pow256_pos(n: nat)
    ensures
        pow256(n) > 0,
    decreases n,
{
    if n > 0 {
        lemma_pow256_pos((n - 1) as nat);
    }
}

/// A destination for bytes: writing appends to what was written before.
pub trait ByteSink {
    /// All bytes written to the sink so far.
    spec fn written(&self) -> Seq<u8>;

    /// Appends `data` to the sink.
    fn write_all(&mut self, data: &[u8])
        ensures
            final(self).written() == old(self).written() + data@,
    ;
}

impl ByteSink for Vec<u8> {
    open spec fn written(&self) -> Seq<u8> {
        self@
    }

    fn write_all(&mut self, data: &[u8]) {
        let mut i: usize = 0;
        let ghost start = self@;
        while i < data.len()
            invariant
                i <= data.len(),
                self@ == start + data@.take(i as int),
            decreases data.len() - i,
        {
            self.push(data[i]);
            i += 1;
            assert(self@ =~= start + data@.take(i as int));
        }
        assert(data@.take(data.len() as int) =~= data@);
    }
}

/// An in-memory byte buffer with a read/write position cursor.
///
/// Used both for packet construction (writing) and for parsing received
/// packets (reading). Writing appends at the end; reading consumes from the
/// cursor, which never passes the end of the data.
#[derive(Debug, Clone)]
pub struct Buffer {
    data: Vec<u8>,
    pos: usize,
}

impl Buffer {
    /// All bytes held by the buffer.
    pub closed spec fn bytes(&self) -> Seq<u8> {
        self.data@
    }

    /// The read position.
    pub closed spec fn position(&self) -> nat {
        self.pos as nat
    }

    /// The bytes that have not been read yet.
    pub open spec fn unread(&self) -> Seq<u8> {
        if self.position() <= self.bytes().len() {
            self.bytes().skip(self.position() as int)
        } else {
            Seq::empty()
        }
    }

    /// Creates a new empty buffer.
    pub fn new() -> (b: Buffer)
        ensures
            b.bytes() == Seq::<u8>::empty(),
            b.position() == 0,
    {
        Buffer { data: Vec::new(), pos: 0 }
    }

    /// Creates a buffer pre-filled with the given data, positioned at its start.
    pub fn from_bytes(data: Vec<u8>) -> (b: Buffer)
        ensures
            b.bytes() == data@,
            b.position() == 0,
    {
        Buffer { data, pos: 0 }
    }

    /// Returns the number of bytes held (written so far).
    pub fn len(&self) -> (n: usize)
        ensures
            n == self.bytes().len(),
    {
        self.data.len()
    }

    /// Returns true if the buffer holds no bytes.
    pub fn is_empty(&self) -> (r: bool)
        ensures
            r == (self.bytes().len() == 0),
    {
        self.data.len() == 0
    }

    /// Returns the number of bytes remaining to be read.
    pub fn remaining(&self) -> (n: usize)
        ensures
            n == self.unread().len(),
    {
        self.data.len().saturating_sub(self.pos)
    }

    /// Returns all the data in the buffer.
    pub fn as_bytes(&self) -> (s: &[u8])
        ensures
            s@ == self.bytes(),
    {
        self.data.as_slice()
    }

    /// Consumes the buffer and returns the underlying data.
    pub fn into_bytes(self) -> (v: Vec<u8>)
        ensures
            v@ == self.bytes(),
    {
        self.data
    }

    /// Resets the read position to the beginning.
    pub fn reset(&mut self)
        ensures
            final(self).bytes() == old(self).bytes(),
            final(self).position() == 0,
    {
        self.pos = 0;
    }

    /// Clears all data and resets the position.
    pub fn clear(&mut self)
        ensures
            final(self).bytes() == Seq::<u8>::empty(),
            final(self).position() == 0,
    {
        self.pos = 0;
        self.data.clear();
    }

    /// Appends raw bytes to the buffer.
    pub fn write_bytes(&mut self, data: &[u8])
        ensures
            final(self).bytes() == old(self).bytes() + data@,
            final(self).position() == old(self).position(),
    {
        let mut i: usize = 0;
        let ghost start = self.data@;
        while i < data.len()
            invariant
                i <= data.len(),
                self.data@ == start + data@.take(i as int),
                self.pos == old(self).pos,
                start == old(self).data@,
            decreases data.len() - i,
        {
            self.data.push(data[i]);
            i += 1;
            assert(self.data@ =~= start + data@.take(i as int));
        }
        assert(data@.take(data.len() as int) =~= data@);
    }

    /// Appends a single unsigned byte to the buffer.
    pub fn write_ubyte(&mut self, value: u8)
        ensures
            final(self).bytes() == old(self).bytes().push(value),
            final(self).position() == old(self).position(),
    {
        self.data.push(value);
    }

    /// Appends `value` as `n` big-endian bytes.
    fn write_be(&mut self, value: u64, n: usize)
        requires
            n <= 8,
        ensures
            final(self).bytes() == old(self).bytes() + be_encode(value as nat, n as nat),
            final(self).position() == old(self).position(),
        decreases n,
    {
        if n > 0 {
            self.write_be(value / 256, n - 1);
            self.write_ubyte((value % 256) as u8);
            assert(old(self).bytes() + be_encode(value as nat, n as nat) =~= (old(self).bytes()
                + be_encode((value / 256) as nat, (n - 1) as nat)).push((value % 256) as u8));
        } else {
            assert(old(self).bytes() + be_encode(value as nat, 0) =~= old(self).bytes());
        }
    }

    /// Appends a big-endian unsigned short (2 bytes) to the buffer.
    pub fn write_ushort(&mut self, value: u16)
        ensures
            final(self).bytes() == old(self).bytes() + be_encode(value as nat, 2),
            final(self).position() == old(self).position(),
    {
        self.write_be(value as u64, 2);
    }

    /// Appends a big-endian unsigned int (4 bytes) to the buffer.
    pub fn write_uint(&mut self, value: u32)
        ensures
            final(self).bytes() == old(self).bytes() + be_encode(value as nat, 4),
            final(self).position() == old(self).position(),
    {
        self.write_be(value as u64, 4);
    }

    /// Appends a big-endian unsigned long long (8 bytes) to the buffer.
    pub fn write_ulonglong(&mut self, value: u64)
        ensures
            final(self).bytes() == old(self).bytes() + be_encode(value as nat, 8),
            final(self).position() == old(self).position(),
    {
        self.write_be(value, 8);
    }

    /// Appends a signed byte (two's complement) to the buffer.
    pub fn write_byte(&mut self, value: i8)
        ensures
            final(self).bytes() == old(self).bytes().push(value as u8),
            final(self).position() == old(self).position(),
    {
        self.write_ubyte(value as u8);
    }

    /// Appends a big-endian signed short (2 bytes, two's complement) to the buffer.
    pub fn write_short(&mut self, value: i16)
        ensures
            final(self).bytes() == old(self).bytes() + be_encode((value as u16) as nat, 2),
            final(self).position() == old(self).position(),
    {
        self.write_be((value as u16) as u64, 2);
    }

    /// Appends a boolean as a single byte (0 or 1).
    pub fn write_bool(&mut self, value: bool)
        ensures
            final(self).bytes() == old(self).bytes().push(if value { 1u8 } else { 0u8 }),
            final(self).position() == old(self).position(),
    {
        self.write_ubyte(if value { 1 } else { 0 });
    }

    /// Reads `length` bytes from the current position, advancing the cursor.
    ///
    /// Returns an error (and leaves the buffer unchanged) if there are not
    /// enough bytes remaining.
    pub fn read_bytes(&mut self, length: usize) -> (r: Result<Vec<u8>, IoError>)
        ensures
            final(self).bytes() == old(self).bytes(),
            match r {
                Ok(v) => {
                    &&& length <= old(self).unread().len()
                    &&& v@ == old(self).unread().take(length as int)
                    &&& final(self).position() == old(self).position() + length
                },
                Err(e) => {
                    &&& length > old(self).unread().len()
                    &&& e.kind == IoErrorKind::UnexpectedEof
                    &&& final(self).position() == old(self).position()
                },
            },
    {
        if length == 0 {
            assert(old(self).unread().take(0) =~= Seq::<u8>::empty());
            return Ok(Vec::new());
        }
        let available = self.data.len().saturating_sub(self.pos);
        if length > available {
            let mut msg = String::new();
            push_str(&mut msg, "Not enough bytes to read: requested ");
            push_decimal(&mut msg, length as u64);
            push_str(&mut msg, ", available ");
            push_decimal(&mut msg, available as u64);
            return Err(IoError::new(IoErrorKind::UnexpectedEof, msg));
        }
        let mut out: Vec<u8> = Vec::new();
        let mut i: usize = 0;
        while i < length
            invariant
                i <= length,
                self.pos + length <= self.data.len(),
                out@ == self.data@.subrange(self.pos as int, self.pos + i),
            decreases length - i,
        {
            out.push(self.data[self.pos + i]);
            i += 1;
            assert(out@ =~= self.data@.subrange(self.pos as int, self.pos + i));
        }
        assert(out@ =~= old(self).unread().take(length as int));
        self.pos = self.pos + length;
        Ok(out)
    }

    /// Reads a single unsigned byte.
    pub fn read_ubyte(&mut self) -> (r: Result<u8, IoError>)
        ensures
            final(self).bytes() == old(self).bytes(),
            match r {
                Ok(b) => {
                    &&& old(self).unread().len() >= 1
                    &&& b == old(self).unread()[0]
                    &&& final(self).position() == old(self).position() + 1
                },
                Err(e) => {
                    &&& old(self).unread().len() < 1
                    &&& e.kind == IoErrorKind::UnexpectedEof
                    &&& final(self).position() == old(self).position()
                },
            },
    {
        let bytes = self.read_bytes(1)?;
        Ok(bytes[0])
    }

    /// Reads `n` big-endian bytes as an unsigned number.
    fn read_be(&mut self, n: usize) -> (r: Result<u64, IoError>)
        requires
            1 <= n <= 8,
        ensures
            final(self).bytes() == old(self).bytes(),
            match r {
                Ok(v) => {
                    &&& old(self).unread().len() >= n
                    &&& v == be_decode(old(self).unread().take(n as int))
                    &&& final(self).position() == old(self).position() + n
                },
                Err(e) => {
                    &&& old(self).unread().len() < n
                    &&& e.kind == IoErrorKind::UnexpectedEof
                    &&& final(self).position() == old(self).position()
                },
            },
    {
        let bytes = self.read_bytes(n)?;
        let mut v: u64 = 0;
        let mut i: usize = 0;
        while i < n
            invariant
                i <= n <= 8,
                bytes@.len() == n,
                v == be_decode(bytes@.take(i as int)),
                v < pow256(i as nat),
            decreases n - i,
        {
            proof {
                assert(bytes@.take(i + 1).drop_last() =~= bytes@.take(i as int));
                lemma_pow256_bound(i as nat);
            }
            v = v * 256 + bytes[i] as u64;
            i += 1;
        }
        assert(bytes@.take(n as int) =~= bytes@);
        Ok(v)
    }

    /// Reads a big-endian unsigned short (2 bytes).
    pub fn read_ushort(&mut self) -> (r: Result<u16, IoError>)
        ensures
            final(self).bytes() == old(self).bytes(),
            match r {
                Ok(v) => {
                    &&& old(self).unread().len() >= 2
                    &&& v == be_decode(old(self).unread().take(2))
                    &&& final(self).position() == old(self).position() + 2
                },
                Err(e) => {
                    &&& old(self).unread().len() < 2
                    &&& e.kind == IoErrorKind::UnexpectedEof
                    &&& final(self).position() == old(self).position()
                },
            },
    {
        let v = self.read_be(2)?;
        proof {
            lemma_be_decode_bound(old(self).unread().take(2));
            reveal_with_fuel(pow256, 3);
        }
        Ok(v as u16)
    }

    /// Reads a big-endian unsigned int (4 bytes).
    pub fn read_uint(&mut self) -> (r: Result<u32, IoError>)
        ensures
            final(self).bytes() == old(self).bytes(),
            match r {
                Ok(v) => {
                    &&& old(self).unread().len() >= 4
                    &&& v == be_decode(old(self).unread().take(4))
                    &&& final(self).position() == old(self).position() + 4
                },
                Err(e) => {
                    &&& old(self).unread().len() < 4
                    &&& e.kind == IoErrorKind::UnexpectedEof
                    &&& final(self).position() == old(self).position()
                },
            },
    {
        let v = self.read_be(4)?;
        proof {
            lemma_be_decode_bound(old(self).unread().take(4));
            reveal_with_fuel(pow256, 5);
        }
        Ok(v as u32)
    }

    /// Reads a big-endian unsigned long long (8 bytes).
    pub fn read_ulonglong(&mut self) -> (r: Result<u64, IoError>)
        ensures
            final(self).bytes() == old(self).bytes(),
            match r {
                Ok(v) => {
                    &&& old(self).unread().len() >= 8
                    &&& v == be_decode(old(self).unread().take(8))
                    &&& final(self).position() == old(self).position() + 8
                },
                Err(e) => {
                    &&& old(self).unread().len() < 8
                    &&& e.kind == IoErrorKind::UnexpectedEof
                    &&& final(self).position() == old(self).position()
                },
            },
    {
        self.read_be(8)
    }

    /// Reads a bool (single byte, 0 = false, anything else = true).
    pub fn read_bool(&mut self) -> (r: Result<bool, IoError>)
        ensures
            final(self).bytes() == old(self).bytes(),
            match r {
                Ok(b) => {
                    &&& old(self).unread().len() >= 1
                    &&& b == (old(self).unread()[0] != 0)
                    &&& final(self).position() == old(self).position() + 1
                },
                Err(e) => {
                    &&& old(self).unread().len() < 1
                    &&& e.kind == IoErrorKind::UnexpectedEof
                    &&& final(self).position() == old(self).position()
                },
            },
    {
        let b = self.read_ubyte()?;
        Ok(b != 0)
    }
}

impl ByteSink for Buffer {
    open spec fn written(&self) -> Seq<u8> {
        self.bytes()
    }

    fn write_all(&mut self, data: &[u8]) {
        self.write_bytes(data);
    }
}

/// Powers of 256 up to `256^8`, the first one that no longer fits a `u64`.
pub proof fn lemma_pow256_bound(i: nat)
    requires
        i < 8,
    ensures
        pow256(i) * 256 == pow256(i + 1),
        pow256(i + 1) <= 0x1_0000_0000_0000_0000,
{
    reveal_with_fuel(pow256, 9);
    assert(pow256(8) == 0x1_0000_0000_0000_0000);
    if i == 0 {
    } else if i == 1 {
    } else if i == 2 {
    } else if i == 3 {
    } else if i == 4 {
    } else if i == 5 {
    } else if i == 6 {
    } else {
    }
}

/// A big-endian number of `n` bytes is below `256^n`.
pub proof fn lemma_be_decode_bound(s: Seq<u8>)
    ensures
        be_decode(s) < pow256(s.len()),
    decreases s.len(),
{
    if s.len() > 0 {
        lemma_be_decode_bound(s.drop_last());
        assert(be_decode(s.drop_last()) + 1 <= pow256((s.len() - 1) as nat));
        vstd::arithmetic::mul::lemma_mul_inequality(
            (be_decode(s.drop_last()) + 1) as int,
            pow256((s.len() - 1) as nat) as int,
            256,
        );
    }
}

/// Whether `c` is a Unicode white-space character (the `White_Space` property).
pub open spec fn is_unicode_whitespace(c: char) -> bool {
    let u = c as u32;
    (0x09 <= u <= 0x0D) || u == 0x20 || u == 0x85 || u == 0xA0 || u == 0x1680 || (0x2000 <= u
        <= 0x200A) || u == 0x2028 || u == 0x2029 || u == 0x202F || u == 0x205F || u == 0x3000
}

/// Whether `c` is an ASCII hexadecimal digit.
pub open spec fn is_hex_digit(c: char) -> bool {
    ('0' <= c <= '9') || ('a' <= c <= 'f') || ('A' <= c <= 'F')
}

/// The value of an ASCII hexadecimal digit.
pub open spec fn hex_value(c: char) -> nat {
    if '0' <= c <= '9' {
        (c as nat - 48) as nat
    } else if 'a' <= c <= 'f' {
        (c as nat - 87) as nat
    } else {
        (c as nat - 55) as nat
    }
}

/// The characters of `s` with white space removed.
pub open spec fn strip_whitespace(s: Seq<char>) -> Seq<char> {
    s.filter(|c: char| !is_unicode_whitespace(c))
}

/// The bytes denoted by pairs of hexadecimal digits.
pub open spec fn hex_pairs(s: Seq<char>) -> Seq<u8> {
    Seq::new(s.len() / 2, |i: int| (hex_value(s[2 * i]) * 16 + hex_value(s[2 * i + 1])) as u8)
}

/// Whether `s`, white space aside, is an even number of hexadecimal digits.
pub open spec fn is_hex_text(s: Seq<char>) -> bool {
    let t = strip_whitespace(s);
    t.len() % 2 == 0 && forall|i: int| 0 <= i < t.len() ==> is_hex_digit(#[trigger] t[i])
}

/// Decodes hexadecimal text, ignoring white space between digits.
///
/// Fails if, once white space is removed, the text has an odd number of
/// characters or holds a character that is not a hexadecimal digit.
pub fn decode_hex(hex: &str) -> (r: Result<Vec<u8>, String>)
    ensures
        r is Ok <==> is_hex_text(hex@),
        r matches Ok(v) ==> v@ == hex_pairs(strip_whitespace(hex@)),
{
    let chars = crate::text::chars_of(hex);
    let mut digits: Vec<char> = Vec::new();
    let mut i: usize = 0;
    while i < chars.len()
        invariant
            i <= chars.len(),
            chars@ == hex@,
            digits@ == strip_whitespace(chars@.take(i as int)),
        decreases chars.len() - i,
    {
        let c = chars[i];
        let u: u32 = c as u32;
        let ws = (0x09 <= u && u <= 0x0D) || u == 0x20 || u == 0x85 || u == 0xA0 || u == 0x1680
            || (0x2000 <= u && u <= 0x200A) || u == 0x2028 || u == 0x2029 || u == 0x202F || u
            == 0x205F || u == 0x3000;
        proof {
            reveal(Seq::filter);
            assert(chars@.take(i + 1).drop_last() =~= chars@.take(i as int));
            assert(chars@.take(i + 1).last() == c);
        }
        if !ws {
            digits.push(c);
        }
        i += 1;
    }
    assert(chars@.take(chars.len() as int) =~= chars@);
    if digits.len() % 2 != 0 {
        return Err("Hex string must have an even number of characters".to_owned());
    }
    let mut out: Vec<u8> = Vec::new();
    let mut k: usize = 0;
    while k < digits.len() / 2
        invariant
            k <= digits.len() / 2,
            digits.len() % 2 == 0,
            digits@ == strip_whitespace(hex@),
            forall|j: int| 0 <= j < 2 * k ==> is_hex_digit(#[trigger] digits@[j]),
            out@ == hex_pairs(digits@).take(k as int),
        decreases digits.len() / 2 - k,
    {
        let a = digits[2 * k];
        let b = digits[2 * k + 1];
        let va = hex_digit_value(a);
        let vb = hex_digit_value(b);
        match (va, vb) {
            (Some(x), Some(y)) => {
                out.push(x * 16 + y);
                assert(is_hex_digit(digits@[2 * k as int]));
                assert(is_hex_digit(digits@[2 * k + 1]));
                k += 1;
                assert(out@ =~= hex_pairs(digits@).take(k as int));
            },
            _ => {
                return Err("Invalid hex string: invalid digit found in string".to_owned());
            },
        }
    }
    assert(out@ =~= hex_pairs(digits@));
    Ok(out)
}

/// The value of a hexadecimal digit, or `None` for any other character.
pub fn hex_digit_value(c: char) -> (r: Option<u8>)
    ensures
        r is Some <==> is_hex_digit(c),
        r matches Some(v) ==> v as nat == hex_value(c) && v < 16,
{
    if '0' <= c && c <= '9' {
        Some(((c as u32) - 48) as u8)
    } else if 'a' <= c && c <= 'f' {
        Some(((c as u32) - 87) as u8)
    } else if 'A' <= c && c <= 'F' {
        Some(((c as u32) - 55) as u8)
    } else {
        None
    }
}

impl Buffer {
    /// Creates a buffer pre-filled with hex-encoded bytes (white space between
    /// digits is ignored).
    pub fn from_hex(hex: &str) -> (b: Buffer)
        requires
            is_hex_text(hex@),
        ensures
            b.bytes() == hex_pairs(strip_whitespace(hex@)),
            b.position() == 0,
    {
        match decode_hex(hex) {
            Ok(data) => Buffer { data, pos: 0 },
            Err(_) => Buffer { data: Vec::new(), pos: 0 },
        }
    }
}


impl Buffer {
    /// Reads unread bytes into `buf`, as many as fit: returns how many were
    /// read (none once the data is exhausted).
    pub fn read(&mut self, buf: &mut [u8]) -> (r: Result<usize, IoError>)
        ensures
            final(self).bytes() == old(self).bytes(),
            r matches Ok(n) && {
                &&& n as nat == (if old(buf)@.len() < old(self).unread().len() {
                    old(buf)@.len()
                } else {
                    old(self).unread().len()
                })
                &&& final(buf)@ == old(self).unread().take(n as int) + old(buf)@.skip(n as int)
                &&& final(self).position() == old(self).position() + n
            },
    {
        let available = self.data.len().saturating_sub(self.pos);
        let to_read = if buf.len() < available {
            buf.len()
        } else {
            available
        };
        if to_read == 0 {
            assert(buf@ =~= old(self).unread().take(0) + buf@.skip(0));
            return Ok(0);
        }
        let mut i: usize = 0;
        while i < to_read
            invariant
                i <= to_read,
                to_read <= buf@.len(),
                self.pos + to_read <= self.data.len(),
                self.data@ == old(self).bytes(),
                self.pos == old(self).position(),
                buf@.len() == old(buf)@.len(),
                forall|j: int| 0 <= j < i ==> buf@[j] == self.data@[self.pos + j],
                forall|j: int| i <= j < buf@.len() ==> buf@[j] == old(buf)@[j],
            decreases to_read - i,
        {
            buf[i] = self.data[self.pos + i];
            i += 1;
        }
        assert(buf@ =~= old(self).unread().take(to_read as int) + old(buf)@.skip(to_read as int));
        self.pos = self.pos + to_read;
        Ok(to_read)
    }
}

impl Default for Buffer {
    fn default() -> (b: Buffer)
        ensures
            b.bytes() == Seq::<u8>::empty(),
            b.position() == 0,
    {
        Buffer::new()
    }
}

} // verus!
