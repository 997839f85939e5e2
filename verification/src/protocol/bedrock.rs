//! Bedrock Edition RakNet Unconnected Ping protocol client.
use vstd::prelude::*;

use crate::address::Address;
use crate::error::McStatusError;
use crate::response::bedrock::{bedrock_built, too_few_fields_message, BedrockStatusResponse};
use crate::text::{split_char, split_on, string_from_utf8_lossy, strings_view, utf8_lossy};

verus! {

/// RakNet Unconnected Ping request: the packet ID, a zero timestamp, the
/// RakNet magic bytes and a zero client GUID.
pub const REQUEST_STATUS_DATA: [u8; 33] = [
    0x01,
    0x00,
    0x00,
    0x00,
    0x00,
    0x00,
    0x00,
    0x00,
    0x00,
    0x00,
    0xFF,
    0xFF,
    0x00,
    0xFE,
    0xFE,
    0xFE,
    0xFE,
    0xFD,
    0xFD,
    0xFD,
    0xFD,
    0x12,
    0x34,
    0x56,
    0x78,
    0x00,
    0x00,
    0x00,
    0x00,
    0x00,
    0x00,
    0x00,
    0x00,
];

/// Client for the Bedrock Edition RakNet Unconnected Ping protocol; `T` is
/// the type of the timeout.
#[derive(Debug)]
pub struct BedrockClient<T> {
    pub address: Address,
    pub timeout: T,
}

/// The length of the server info string: the two bytes after the packet ID
/// and 33 bytes of header, big-endian.
pub open spec fn bedrock_name_length(data: Seq<u8>) -> nat {
    data[34] as nat * 256 + data[35] as nat
}

/// The semicolon-separated fields of a Bedrock status answer, or the reason
/// it cannot be read.
pub open spec fn bedrock_fields(data: Seq<u8>) -> Result<Seq<Seq<char>>, Seq<char>> {
    if data.len() < 35 {
        Err("Bedrock response too short"@)
    } else if data.len() < 36 {
        Err("Bedrock response too short for name length"@)
    } else if data.len() < 36 + bedrock_name_length(data) {
        Err("Bedrock response too short for server info"@)
    } else {
        Ok(
            split_on(
                utf8_lossy(data.subrange(36, 36 + bedrock_name_length(data) as int)),
                ';',
            ),
        )
    }
}

impl<T> BedrockClient<T> {
    /// Creates a new Bedrock client.
    pub fn new(address: Address, timeout: T) -> (r: Self)
        ensures
            r.address == address,
            r.timeout == timeout,
    {
        BedrockClient { address, timeout }
    }

    /// Parses the raw RakNet Unconnected Ping response.
    pub fn parse_response<L>(data: &[u8], latency: L) -> (r: Result<
        BedrockStatusResponse<L>,
        McStatusError,
    >)
        ensures
            match bedrock_fields(data@) {
                Err(m) => r matches Err(McStatusError::Protocol(e)) && e@ == m,
                Ok(fields) => if fields.len() < 6 {
                    r matches Err(McStatusError::Protocol(e)) && e@ == too_few_fields_message(
                        fields.len(),
                    )
                } else {
                    r matches Ok(resp) && bedrock_built(resp, fields, latency)
                },
            },
    {
        if data.len() < 35 {
            return Err(McStatusError::Protocol("Bedrock response too short".to_owned()));
        }
        // skip the packet ID
        let body = &data[1..data.len()];
        if body.len() < 35 {
            return Err(
                McStatusError::Protocol("Bedrock response too short for name length".to_owned()),
            );
        }
        let name_length: usize = body[33] as usize * 256 + body[34] as usize;
        assert(name_length == bedrock_name_length(data@));
        if body.len() < 35 + name_length {
            return Err(
                McStatusError::Protocol("Bedrock response too short for server info".to_owned()),
            );
        }
        let name_data = &body[35..35 + name_length];
        assert(name_data@ =~= data@.subrange(36, 36 + name_length));
        let name_str = string_from_utf8_lossy(name_data);
        let fields = split_char(name_str.as_str(), ';');
        assert(strings_view(fields@).len() == fields@.len());
        match BedrockStatusResponse::build(fields.as_slice(), latency) {
            Ok(resp) => Ok(resp),
            Err(e) => Err(McStatusError::Protocol(e)),
        }
    }
}

} // verus!
