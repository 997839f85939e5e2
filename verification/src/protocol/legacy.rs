//! Legacy (pre-1.7) Java Edition Server List Ping protocol client.
use vstd::prelude::*;

use crate::error::McStatusError;
use crate::json::str_equal;
use crate::response::bedrock::u32_or_zero;
use crate::response::legacy::{legacy_built, LegacyStatusResponse};
use crate::text::{
    char_from_u32, is_scalar_value, parse_u32, push_char, split_char, split_on, strings_view,
};

verus! {

/// The request of the legacy server list ping.
pub const REQUEST_STATUS_DATA: [u8; 3] = [0xFE, 0x01, 0xFA];

/// Client for the pre-1.7 Java Edition server list ping protocol; `C` is the
/// connection it talks over.
#[derive(Debug)]
pub struct LegacyClient<C> {
    pub connection: C,
}

/// The 16-bit code units of big-endian UTF-16 data (a trailing odd byte is
/// not part of any unit).
pub open spec fn utf16be_units(data: Seq<u8>) -> Seq<u32> {
    Seq::new(data.len() / 2, |i: int| ((data[2 * i] as u32) * 256 + (data[2 * i + 1] as u32)) as u32)
}

/// The characters of a list of code units: each unit that is a Unicode scalar
/// value, in order (surrogate units are dropped).
pub open spec fn decode_units(us: Seq<u32>) -> Seq<char>
    decreases us.len(),
{
    if us.len() == 0 {
        Seq::empty()
    } else if is_scalar_value(us.last()) {
        decode_units(us.drop_last()).push(us.last() as char)
    } else {
        decode_units(us.drop_last())
    }
}

/// The fields of a legacy status answer, or the reason it cannot be read:
/// the protocol version, version name, MOTD, and player counts.
pub open spec fn legacy_fields(data: Seq<u8>) -> Result<(u32, Seq<char>, Seq<char>, u32, u32), Seq<char>> {
    let parts = split_on(decode_units(utf16be_units(data)), '\0');
    if parts[0] == "§1"@ {
        if parts.len() < 6 {
            Err("Received invalid legacy response (expected 6 fields)"@)
        } else {
            Ok((u32_or_zero(parts[1]), parts[2], parts[3], u32_or_zero(parts[4]), u32_or_zero(parts[5])))
        }
    } else {
        let lp = split_on(parts[0], '§');
        if lp.len() < 3 {
            Err("Received invalid kick packet reason"@)
        } else {
            Ok((0, "<1.4"@, lp[0], u32_or_zero(lp[1]), u32_or_zero(lp[2])))
        }
    }
}

/// Decodes UTF-16BE bytes into a string, dropping surrogate code units.
pub fn decode_utf16be(data: &[u8]) -> (s: String)
    ensures
        s@ == decode_units(utf16be_units(data@)),
{
    let mut result = String::new();
    let mut i: usize = 0;
    let ghost us = utf16be_units(data@);
    while i + 1 < data.len()
        invariant
            i % 2 == 0,
            i <= data.len(),
            us == utf16be_units(data@),
            result@ == decode_units(us.take(i as int / 2)),
        decreases data.len() - i,
    {
        let unit: u32 = (data[i] as u32) * 256 + (data[i + 1] as u32);
        assert(us[i as int / 2] == unit);
        assert(us.take(i as int / 2 + 1).drop_last() =~= us.take(i as int / 2));
        if let Some(ch) = char_from_u32(unit) {
            push_char(&mut result, ch);
        }
        i += 2;
    }
    assert(us.take(i as int / 2) =~= us);
    result
}

/// The `u32` a field denotes, 0 when it does not parse.
fn u32_field(s: &String) -> (n: u32)
    ensures
        n == u32_or_zero(s@),
{
    match parse_u32(s.as_str()) {
        Some(n) => n,
        None => 0,
    }
}

impl<C> LegacyClient<C> {
    /// Creates a new Legacy client.
    pub fn new(connection: C) -> (r: Self)
        ensures
            r.connection == connection,
    {
        LegacyClient { connection }
    }

    /// Checks the first byte of a legacy answer: the kick packet ID, `0xFF`.
    pub fn check_packet_id(packet_id: u8) -> (r: Result<(), McStatusError>)
        ensures
            packet_id == 0xFF ==> r is Ok,
            packet_id != 0xFF ==> (r matches Err(McStatusError::Protocol(m)) && m@
                == "Received invalid packet ID from legacy server"@),
    {
        if packet_id != 0xFF {
            return Err(
                McStatusError::Protocol("Received invalid packet ID from legacy server".to_owned()),
            );
        }
        Ok(())
    }

    /// Parses the legacy response data.
    pub fn parse_response<L>(data: &[u8], latency: L) -> (r: Result<
        LegacyStatusResponse<L>,
        McStatusError,
    >)
        ensures
            match legacy_fields(data@) {
                Err(m) => r matches Err(McStatusError::Protocol(e)) && e@ == m,
                Ok((p, v, m, on, mx)) => r matches Ok(resp) && legacy_built(
                    resp,
                    p,
                    v,
                    m,
                    on,
                    mx,
                    latency,
                ),
            },
    {
        let decoded = decode_utf16be(data);
        let parts = split_char(decoded.as_str(), '\0');
        let ghost f = strings_view(parts@);
        if parts.len() < 1 {
            return Err(McStatusError::Protocol("Received empty legacy response".to_owned()));
        }
        assert(f[0] == parts@[0]@);
        if str_equal(parts[0].as_str(), "§1") {
            if parts.len() < 6 {
                return Err(
                    McStatusError::Protocol(
                        "Received invalid legacy response (expected 6 fields)".to_owned(),
                    ),
                );
            }
            assert(f[1] == parts@[1]@ && f[2] == parts@[2]@ && f[3] == parts@[3]@ && f[4]
                == parts@[4]@ && f[5] == parts@[5]@);
            let protocol = u32_field(&parts[1]);
            let online = u32_field(&parts[4]);
            let max = u32_field(&parts[5]);
            Ok(
                LegacyStatusResponse::build(
                    protocol,
                    parts[2].as_str(),
                    parts[3].as_str(),
                    online,
                    max,
                    latency,
                ),
            )
        } else {
            let legacy_parts = split_char(parts[0].as_str(), '§');
            let ghost lp = strings_view(legacy_parts@);
            if legacy_parts.len() < 3 {
                return Err(McStatusError::Protocol("Received invalid kick packet reason".to_owned()));
            }
            assert(lp[0] == legacy_parts@[0]@ && lp[1] == legacy_parts@[1]@ && lp[2]
                == legacy_parts@[2]@);
            let online = u32_field(&legacy_parts[1]);
            let max = u32_field(&legacy_parts[2]);
            Ok(LegacyStatusResponse::build(0, "<1.4", legacy_parts[0].as_str(), online, max, latency))
        }
    }
}

} // verus!
