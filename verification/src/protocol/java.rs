//! Java Edition (1.7+) Server List Ping protocol client.
use rand::Rng;
use vstd::arithmetic::power2::{lemma2_to64, lemma2_to64_rest};
use vstd::prelude::*;

use crate::address::Address;
use crate::buffer::{be_decode, be_encode, Buffer};
use crate::error::{IoErrorKind, McStatusError};
use crate::io::{
    from_twos_complement, to_twos_complement, twos_decode, twos_encode, varint_encode, write_mc_bytearray,
    write_mc_utf, write_varint,
};
use crate::text::{push_signed_decimal, push_str, signed_decimal, string_from_utf8};

verus! {

/// Client for the Java Edition Server List Ping protocol (1.7+); `C` is the
/// connection it talks over.
///
/// Handles handshake, status request, and ping request/response.
#[derive(Debug)]
pub struct JavaClient<C> {
    pub connection: C,
    pub address: Address,
    pub version: i32,
    pub ping_token: i64,
}

/// The varint of a 32-bit signed integer.
pub open spec fn varint32(v: i32) -> Seq<u8> {
    varint_encode(twos_encode(v as int, 32) as nat)
}

/// A packet framed for the wire: prefixed with its length as a varint.
pub open spec fn frame(p: Seq<u8>) -> Seq<u8> {
    varint32(p.len() as i32) + p
}

/// The handshake packet's payload: packet ID 0, the protocol version, the
/// host as a length-prefixed UTF-8 text, the port (big-endian) and the next
/// state, 1 (status).
pub open spec fn handshake_payload(version: i32, host: Seq<char>, port: u16) -> Seq<u8> {
    let h = vstd::utf8::encode_utf8(host);
    varint32(0) + varint32(version) + varint_encode(h.len()) + h + be_encode(port as nat, 2)
        + varint32(1)
}

/// The ping request's payload: packet ID 1 and the ping token (big-endian).
pub open spec fn ping_payload(token: i64) -> Seq<u8> {
    varint32(1) + be_encode(twos_encode(token as int, 64) as nat, 8)
}

/// What reading a varint of at most five bytes gives: the groups read from
/// position `i` of `s` on, `acc` holding those before and `mult` the weight
/// of the next.
pub ghost enum LooseVarint {
    /// The varint ends after `len` bytes with the value `value`.
    Done { len: nat, value: nat },
    /// The data ends first.
    Eof,
    /// Five bytes all continue.
    TooLong,
}

/// Reads a varint of at most five bytes (see `LooseVarint`).
pub open spec fn loose_varint(s: Seq<u8>, i: nat, acc: nat, mult: nat) -> LooseVarint
    decreases 5 - i,
{
    if i >= 5 {
        LooseVarint::TooLong
    } else if i >= s.len() {
        LooseVarint::Eof
    } else {
        let b = s[i as int];
        let acc2 = acc + (b % 128) as nat * mult;
        if b < 128 {
            LooseVarint::Done { len: i + 1, value: acc2 }
        } else {
            loose_varint(s, i + 1, acc2, mult * 128)
        }
    }
}

/// A varint that ends, ends inside the data.
pub proof fn lemma_loose_varint_len(s: Seq<u8>, i: nat, acc: nat, mult: nat)
    ensures
        loose_varint(s, i, acc, mult) matches LooseVarint::Done { len, .. } ==> i < len <= s.len(),
    decreases 5 - i,
{
    if i < 5 && i < s.len() && s[i as int] >= 128 {
        lemma_loose_varint_len(s, i + 1, acc + (s[i as int] % 128) as nat * mult, mult * 128);
    }
}

/// The 32-bit signed value of a varint's groups: their low 32 bits, read in
/// two's complement.
pub open spec fn loose_i32(value: nat) -> int {
    twos_decode((value % 0x1_0000_0000) as int, 32)
}

/// The JSON text of a status answer, or that it cannot be read: packet ID 0,
/// then a varint length and that many bytes of UTF-8.
pub open spec fn status_json(u: Seq<u8>) -> Option<Seq<char>> {
    if u.len() < 1 || u[0] != 0 {
        None
    } else {
        match loose_varint(u.skip(1), 0, 0, 1) {
            LooseVarint::Done { len, value } => {
                let n = loose_i32(value);
                let start = 1 + len;
                if n < 0 || u.len() < start + n || !vstd::utf8::valid_utf8(
                    u.subrange(start as int, start + n),
                ) {
                    None
                } else {
                    Some(vstd::utf8::decode_utf8(u.subrange(start as int, start + n)))
                }
            },
            _ => None,
        }
    }
}

/// The token that a ping answer carries: packet ID 1 and eight bytes,
/// big-endian.
pub open spec fn ping_answer_token(u: Seq<u8>) -> Option<int> {
    if u.len() < 9 || u[0] != 1 {
        None
    } else {
        Some(twos_decode(be_decode(u.subrange(1, 9)) as int, 64))
    }
}

/// The message for a ping answer with another token.
pub open spec fn mangled_message(expected: i64, got: int) -> Seq<char> {
    "Received mangled ping response (expected token "@ + signed_decimal(expected as int)
        + ", got "@ + signed_decimal(got) + ")"@
}

/// A random number in `[0, i64::MAX)` (wraps `rand::Rng::gen_range` on
/// `rand::thread_rng()`). What number comes is chance; the contract states
/// only its range.
#[verifier::external_body]
fn random_ping_token() -> (r: i64)
    ensures
        0 <= r < i64::MAX,
{
    rand::thread_rng().gen_range(0..i64::MAX)
}

/// Reads a varint from a Buffer (see `loose_varint`).
pub fn read_varint_from_buffer(buf: &mut Buffer) -> (r: Result<i32, McStatusError>)
    ensures
        final(buf).bytes() == old(buf).bytes(),
        match loose_varint(old(buf).unread(), 0, 0, 1) {
            LooseVarint::Done { len, value } => r matches Ok(v) && v as int == loose_i32(value)
                && final(buf).position() == old(buf).position() + len,
            LooseVarint::Eof => r matches Err(McStatusError::Protocol(_)),
            LooseVarint::TooLong => r matches Err(McStatusError::Protocol(m)) && m@
                == "Varint too long for 32-bit integer"@,
        },
{
    let ghost u = buf.unread();
    let ghost p0 = buf.position();
    let mut result: u64 = 0;
    let mut mult: u64 = 1;
    let mut i: u64 = 0;
    while i < 5
        invariant
            i <= 5,
            buf.bytes() == old(buf).bytes(),
            u == old(buf).unread(),
            p0 == old(buf).position(),
            i <= u.len(),
            buf.position() == p0 + i,
            buf.unread() == u.skip(i as int),
            mult == (if i == 0 {
                1u64
            } else if i == 1 {
                128u64
            } else if i == 2 {
                16384u64
            } else if i == 3 {
                2097152u64
            } else if i == 4 {
                268435456u64
            } else {
                34359738368u64
            }),
            result < mult,
            loose_varint(u, 0, 0, 1) == loose_varint(u, i as nat, result as nat, mult as nat),
        decreases 5 - i,
    {
        let byte = match buf.read_bytes(1) {
            Ok(b) => b,
            Err(e) => {
                let mut m = String::new();
                push_str(&mut m, "Failed to read varint byte: ");
                push_str(&mut m, e.message.as_str());
                return Err(McStatusError::Protocol(m));
            },
        };
        assert(byte@ == u.skip(i as int).take(1));
        let b = byte[0];
        assert(b == u[i as int]);
        let low: u64 = (b % 128) as u64;
        assert(low * mult <= 127 * mult) by (nonlinear_arith)
            requires
                low <= 127,
        ;
        result = result + low * mult;
        assert(buf.unread() =~= u.skip(i + 1));
        if b < 128 {
            proof {
                lemma2_to64();
            }
            let low32: u64 = result % 0x1_0000_0000;
            match from_twos_complement(low32, 32) {
                Ok(v) => {
                    return Ok(v as i32);
                },
                Err(_) => {
                    return vstd::pervasive::unreached();
                },
            }
        }
        mult = mult * 128;
        i += 1;
    }
    Err(McStatusError::Protocol("Varint too long for 32-bit integer".to_owned()))
}

/// The big-endian number of a byte list.
fn be_u64(bytes: &Vec<u8>) -> (n: u64)
    requires
        bytes@.len() <= 8,
    ensures
        n as nat == be_decode(bytes@),
{
    let mut n: u64 = 0;
    let mut i: usize = 0;
    while i < bytes.len()
        invariant
            i <= bytes.len() <= 8,
            n as nat == be_decode(bytes@.take(i as int)),
            n as nat <= crate::buffer::pow256(i as nat) - 1,
        decreases bytes.len() - i,
    {
        proof {
            crate::buffer::lemma_pow256_bound(i as nat);
            assert(bytes@.take(i + 1).drop_last() =~= bytes@.take(i as int));
        }
        assert(n * 256 + 255 <= 0xFFFF_FFFF_FFFF_FFFF) by (nonlinear_arith)
            requires
                n as nat <= crate::buffer::pow256(i as nat) - 1,
                crate::buffer::pow256(i as nat) <= 0x0100_0000_0000_0000,
        ;
        n = n * 256 + bytes[i] as u64;
        i += 1;
        assert(crate::buffer::pow256(i as nat) == crate::buffer::pow256((i - 1) as nat) * 256);
    }
    assert(bytes@.take(bytes.len() as int) =~= bytes@);
    n
}

impl<C> JavaClient<C> {
    /// Creates a new Java client; without a ping token, a random one in
    /// `[0, i64::MAX)` is drawn.
    pub fn new(connection: C, address: Address, version: i32, ping_token: Option<i64>) -> (r: Self)
        ensures
            r.connection == connection,
            r.address == address,
            r.version == version,
            match ping_token {
                Some(t) => r.ping_token == t,
                None => 0 <= r.ping_token < i64::MAX,
            },
    {
        let ping_token = match ping_token {
            Some(t) => t,
            None => random_ping_token(),
        };
        JavaClient { connection, address, version, ping_token }
    }

    /// Builds the handshake packet that initiates the protocol, framed for
    /// the wire. Fails when the host is longer than 32767 characters.
    pub fn handshake_packet(&self) -> (r: Result<Vec<u8>, McStatusError>)
        ensures
            r is Ok <==> self.address.host@.len() <= 32767,
            r matches Ok(p) ==> p@ == frame(
                handshake_payload(self.version, self.address.host@, self.address.port),
            ),
            r matches Err(e) ==> (e matches McStatusError::Io(io) && io.kind
                == IoErrorKind::InvalidInput),
    {
        let mut packet = Buffer::new();
        let _ = write_varint(&mut packet, 0);
        let _ = write_varint(&mut packet, self.version);
        match write_mc_utf(&mut packet, self.address.host.as_str()) {
            Ok(()) => {},
            Err(e) => {
                return Err(McStatusError::Io(e));
            },
        }
        packet.write_ushort(self.address.port);
        let _ = write_varint(&mut packet, 1);
        let ghost payload = packet.bytes();
        assert(payload =~= handshake_payload(self.version, self.address.host@, self.address.port));
        let mut framed = Buffer::new();
        let _ = write_mc_bytearray(&mut framed, packet.as_bytes());
        let v = framed.into_bytes();
        assert(v@ =~= frame(payload));
        Ok(v)
    }

    /// Builds the status request (packet ID 0), framed for the wire.
    pub fn status_request_packet(&self) -> (p: Vec<u8>)
        ensures
            p@ == frame(varint32(0)),
    {
        let mut request = Buffer::new();
        let _ = write_varint(&mut request, 0);
        let mut framed = Buffer::new();
        let _ = write_mc_bytearray(&mut framed, request.as_bytes());
        let v = framed.into_bytes();
        assert(v@ =~= frame(varint32(0)));
        v
    }

    /// Builds the ping request (packet ID 1 and the ping token), framed for
    /// the wire.
    pub fn ping_request_packet(&self) -> (p: Vec<u8>)
        ensures
            p@ == frame(ping_payload(self.ping_token)),
    {
        let mut request = Buffer::new();
        let _ = write_varint(&mut request, 1);
        proof {
            lemma2_to64();
            lemma2_to64_rest();
        }
        let token: u64 = match to_twos_complement(self.ping_token, 64) {
            Ok(u) => u,
            Err(_) => {
                return vstd::pervasive::unreached();
            },
        };
        request.write_ulonglong(token);
        let mut framed = Buffer::new();
        let _ = write_mc_bytearray(&mut framed, request.as_bytes());
        let v = framed.into_bytes();
        assert(v@ =~= frame(ping_payload(self.ping_token)));
        v
    }

    /// Checks the length that prefixes a packet: it must be positive.
    pub fn check_packet_length(length: i32) -> (r: Result<usize, McStatusError>)
        ensures
            length > 0 ==> r == Ok::<usize, McStatusError>(length as usize),
            length <= 0 ==> (r matches Err(McStatusError::Protocol(m)) && m@
                == "Received empty or invalid packet"@),
    {
        if length <= 0 {
            return Err(McStatusError::Protocol("Received empty or invalid packet".to_owned()));
        }
        Ok(length as usize)
    }

    /// Reads the status answer's JSON text (see `status_json`).
    pub fn handle_status_response(&self, response: Buffer) -> (r: Result<String, McStatusError>)
        ensures
            match status_json(response.unread()) {
                Some(t) => r matches Ok(s) && s@ == t,
                None => r matches Err(McStatusError::Protocol(_)),
            },
    {
        let mut response = response;
        let ghost u = response.unread();
        let packet_id = match response.read_bytes(1) {
            Ok(b) => b,
            Err(e) => {
                let mut m = String::new();
                push_str(&mut m, "Failed to read packet ID: ");
                push_str(&mut m, e.message.as_str());
                return Err(McStatusError::Protocol(m));
            },
        };
        assert(packet_id@ == u.take(1));
        if packet_id[0] != 0 {
            return Err(
                McStatusError::Protocol("Received invalid status response packet".to_owned()),
            );
        }
        assert(response.unread() =~= u.skip(1));
        proof {
            lemma_loose_varint_len(u.skip(1), 0, 0, 1);
        }
        let length = match read_varint_from_buffer(&mut response) {
            Ok(l) => l,
            Err(e) => {
                return Err(e);
            },
        };
        let ghost len = match loose_varint(u.skip(1), 0, 0, 1) {
            LooseVarint::Done { len, .. } => len,
            _ => 0,
        };
        assert(loose_varint(u.skip(1), 0, 0, 1) is Done);
        assert(response.unread() =~= u.skip((1 + len) as int));
        if length < 0 {
            return Err(
                McStatusError::Protocol("Invalid JSON length in status response".to_owned()),
            );
        }
        let json_bytes = match response.read_bytes(length as usize) {
            Ok(b) => b,
            Err(e) => {
                let mut m = String::new();
                push_str(&mut m, "Failed to read JSON payload: ");
                push_str(&mut m, e.message.as_str());
                return Err(McStatusError::Protocol(m));
            },
        };
        assert(json_bytes@ =~= u.subrange((1 + len) as int, 1 + len + length));
        match string_from_utf8(json_bytes) {
            Ok(s) => Ok(s),
            Err(e) => {
                let mut m = String::new();
                push_str(&mut m, "Invalid UTF-8 in status response: ");
                push_str(&mut m, e.as_str());
                Err(McStatusError::Protocol(m))
            },
        }
    }

    /// Checks the ping answer: packet ID 1 carrying this client's token.
    pub fn handle_ping_response(&self, response: Buffer) -> (r: Result<(), McStatusError>)
        ensures
            match ping_answer_token(response.unread()) {
                Some(t) => if t == self.ping_token {
                    r is Ok
                } else {
                    r matches Err(McStatusError::Protocol(m)) && m@ == mangled_message(
                        self.ping_token,
                        t,
                    )
                },
                None => r matches Err(McStatusError::Protocol(_)),
            },
    {
        let mut response = response;
        let ghost u = response.unread();
        let packet_id = match response.read_bytes(1) {
            Ok(b) => b,
            Err(e) => {
                let mut m = String::new();
                push_str(&mut m, "Failed to read packet ID: ");
                push_str(&mut m, e.message.as_str());
                return Err(McStatusError::Protocol(m));
            },
        };
        assert(packet_id@ == u.take(1));
        if packet_id[0] != 1 {
            return Err(McStatusError::Protocol("Received invalid ping response packet".to_owned()));
        }
        assert(response.unread() =~= u.skip(1));
        let token_bytes = match response.read_bytes(8) {
            Ok(b) => b,
            Err(e) => {
                let mut m = String::new();
                push_str(&mut m, "Failed to read ping token: ");
                push_str(&mut m, e.message.as_str());
                return Err(McStatusError::Protocol(m));
            },
        };
        assert(token_bytes@ =~= u.subrange(1, 9));
        let raw = be_u64(&token_bytes);
        proof {
            lemma2_to64();
            lemma2_to64_rest();
        }
        let received_token = match from_twos_complement(raw, 64) {
            Ok(v) => v,
            Err(_) => {
                return vstd::pervasive::unreached();
            },
        };
        if received_token != self.ping_token {
            let mut m = String::new();
            push_str(&mut m, "Received mangled ping response (expected token ");
            push_signed_decimal(&mut m, self.ping_token);
            push_str(&mut m, ", got ");
            push_signed_decimal(&mut m, received_token);
            push_str(&mut m, ")");
            assert(m@ =~= mangled_message(self.ping_token, received_token as int));
            return Err(McStatusError::Protocol(m));
        }
        Ok(())
    }
}


/// `128` to the power `k`.
spec fn pow128(k: nat) -> nat
    decreases k,
{
    if k == 0 {
        1
    } else {
        128 * pow128((k - 1) as nat)
    }
}

/// A varint of `n` has at most `k` bytes when `n < 128^k`.
proof fn lemma_varint_encode_len(n: nat, k: nat)
    requires
        1 <= k,
        n < pow128(k),
    ensures
        varint_encode(n).len() <= k,
    decreases k,
{
    if n >= 128 {
        if k == 1 {
            assert(pow128(1) == 128);
        } else {
            assert(n / 128 < pow128((k - 1) as nat)) by (nonlinear_arith)
                requires
                    n < 128 * pow128((k - 1) as nat),
            ;
            lemma_varint_encode_len(n / 128, (k - 1) as nat);
        }
    }
}

/// Reading five-byte-limited varint groups from position `i` of a text that
/// holds the varint of `n` there gives `n` at the weight `mult`.
proof fn lemma_loose_varint_encode(n: nat, i: nat, acc: nat, mult: nat, pre: Seq<u8>, rest: Seq<u8>)
    requires
        pre.len() == i,
        i + varint_encode(n).len() <= 5,
    ensures
        loose_varint(pre + varint_encode(n) + rest, i, acc, mult) == (LooseVarint::Done {
            len: i + varint_encode(n).len(),
            value: acc + n * mult,
        }),
    decreases n,
{
    let s = pre + varint_encode(n) + rest;
    if n < 128 {
        assert(s[i as int] == n as u8);
    } else {
        let b = (n % 128 + 128) as u8;
        assert(s[i as int] == b);
        let pre2 = pre.push(b);
        assert(pre + varint_encode(n) + rest =~= pre2 + varint_encode(n / 128) + rest);
        lemma_loose_varint_encode(n / 128, i + 1, acc + (n % 128) * mult, mult * 128, pre2, rest);
        assert(acc + (n % 128) * mult + (n / 128) * (mult * 128) == acc + n * mult) by (nonlinear_arith);
    }
}

/// A status answer as a server writes it — packet ID 0, then the JSON text
/// as a length-prefixed UTF-8 string — is read back as that text.
pub proof fn lemma_status_json_roundtrip(t: Seq<char>)
    requires
        vstd::utf8::encode_utf8(t).len() < 0x8000_0000,
    ensures
        status_json(seq![0u8] + varint_encode(vstd::utf8::encode_utf8(t).len()) + vstd::utf8::encode_utf8(t)) == Some(t),
{
    let b = vstd::utf8::encode_utf8(t);
    let n = b.len();
    let u = seq![0u8] + varint_encode(n) + b;
    assert(pow128(5) == 0x8_0000_0000) by {
        reveal_with_fuel(pow128, 6);
    }
    lemma_varint_encode_len(n, 5);
    assert(u.skip(1) =~= Seq::<u8>::empty() + varint_encode(n) + b);
    lemma_loose_varint_encode(n, 0, 0, 1, Seq::empty(), b);
    lemma2_to64();
    lemma2_to64_rest();
    let len = varint_encode(n).len();
    assert(u.subrange((1 + len) as int, (1 + len + n) as int) =~= b);
    vstd::utf8::encode_utf8_valid_utf8(t);
    vstd::utf8::encode_utf8_decode_utf8(t);
}

/// A server that echoes the ping request's payload passes the token check:
/// the answer carries the token that was sent.
pub proof fn lemma_ping_echo(token: i64)
    ensures
        ping_answer_token(ping_payload(token)) == Some(token as int),
{
    let p = ping_payload(token);
    lemma2_to64();
    lemma2_to64_rest();
    crate::io::lemma_twos_roundtrip(token as int, 64);
    let u = twos_encode(token as int, 64) as nat;
    assert(varint32(1) == seq![1u8]) by {
        lemma_pow2_values();
    }
    crate::buffer::lemma_be_encode_len(u, 8);
    assert(p.subrange(1, 9) =~= be_encode(u, 8));
    crate::buffer::lemma_be_roundtrip(u, 8);
    assert(crate::buffer::pow256(8) == 0x1_0000_0000_0000_0000) by {
        reveal_with_fuel(crate::buffer::pow256, 9);
    }
}

/// The powers of two that the varint of 1 needs.
proof fn lemma_pow2_values()
    ensures
        twos_encode(1, 32) == 1,
{
}

} // verus!
