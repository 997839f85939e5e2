//! Bedrock Edition server status response model.
use vstd::prelude::*;

use crate::motd::motd_impl::legacy_components;
use crate::motd::simplify::list_view;
use crate::motd::Motd;
use crate::text::{
    decimal, lemma_parse_decimal, parse_u32, parse_unsigned, push_decimal, push_str, strings_view,
};

verus! {

/// Response from a Bedrock Edition server status query; `L` is the type of
/// the measured latency.
#[derive(Debug)]
pub struct BedrockStatusResponse<L> {
    /// Player count information.
    pub players: BedrockStatusPlayers,
    /// Version information (includes server brand).
    pub version: BedrockStatusVersion,
    /// The parsed Message of the Day.
    pub motd: Motd,
    /// Round-trip latency in milliseconds.
    pub latency: L,
    /// Current world/map name.
    pub map_name: Option<String>,
    /// Current gamemode.
    pub gamemode: Option<String>,
}

/// Player count for a Bedrock server.
#[derive(Debug, Clone)]
pub struct BedrockStatusPlayers {
    pub online: u32,
    pub max: u32,
}

/// Version info for a Bedrock server.
#[derive(Debug, Clone)]
pub struct BedrockStatusVersion {
    /// Version name (e.g. "1.20.80").
    pub name: Option<String>,
    /// Protocol version number.
    pub protocol: Option<u32>,
    /// Server brand (e.g. "Pocketmine-MP").
    pub brand: Option<String>,
}

/// The view of an optional string.
pub open spec fn opt_text(o: Option<String>) -> Option<Seq<char>> {
    match o {
        Some(s) => Some(s@),
        None => None,
    }
}

/// A text as an optional value: `None` when it is empty.
pub open spec fn nonempty(s: Seq<char>) -> Option<Seq<char>> {
    if s.len() == 0 {
        None
    } else {
        Some(s)
    }
}

/// The `i`-th field as an optional value: `None` when it is missing or empty.
pub open spec fn field_nonempty(fields: Seq<Seq<char>>, i: int) -> Option<Seq<char>> {
    if i < fields.len() {
        nonempty(fields[i])
    } else {
        None
    }
}

/// A number field as `str::parse::<u32>` reads it, 0 when it does not parse.
pub open spec fn u32_or_zero(s: Seq<char>) -> u32 {
    match parse_unsigned(s, u32::MAX as nat) {
        Some(n) => n as u32,
        None => 0,
    }
}

/// The message for a status line with fewer than six fields.
pub open spec fn too_few_fields_message(n: nat) -> Seq<char> {
    "Bedrock response has too few fields: expected at least 6, got "@ + decimal(n)
}

/// What a response built from the fields `f` of a status line holds.
pub open spec fn bedrock_built<L>(resp: BedrockStatusResponse<L>, f: Seq<Seq<char>>, latency: L) -> bool {
    &&& opt_text(resp.version.brand) == nonempty(f[0])
    &&& list_view(&resp.motd.parsed) == legacy_components(f[1], 0)
    &&& resp.motd.raw matches crate::motd::MotdRaw::String(s) && s@ == f[1]
    &&& resp.motd.bedrock
    &&& resp.version.protocol == (match parse_unsigned(f[2], u32::MAX as nat) {
        Some(n) => Some(n as u32),
        None => None,
    })
    &&& opt_text(resp.version.name) == nonempty(f[3])
    &&& resp.players.online == u32_or_zero(f[4])
    &&& resp.players.max == u32_or_zero(f[5])
    &&& opt_text(resp.gamemode) == field_nonempty(f, 7)
    &&& opt_text(resp.map_name) == field_nonempty(f, 8)
    &&& resp.latency == latency
}

/// The counts of a built response are the numbers of the status line: the
/// fifth field is the number of players online and the sixth the maximum,
/// each read in decimal (and 0 for an empty field), and the third field is
/// the protocol version.
pub proof fn lemma_bedrock_counts<L>(
    resp: BedrockStatusResponse<L>,
    f: Seq<Seq<char>>,
    latency: L,
    online: u32,
    max: u32,
    protocol: u32,
)
    requires
        bedrock_built(resp, f, latency),
        f.len() >= 6,
    ensures
        f[4] == decimal(online as nat) ==> resp.players.online == online,
        f[5] == decimal(max as nat) ==> resp.players.max == max,
        f[2] == decimal(protocol as nat) ==> resp.version.protocol == Some(protocol),
        f[4].len() == 0 ==> resp.players.online == 0,
        f[5].len() == 0 ==> resp.players.max == 0,
{
    lemma_parse_decimal(online as nat, u32::MAX as nat);
    lemma_parse_decimal(max as nat, u32::MAX as nat);
    lemma_parse_decimal(protocol as nat, u32::MAX as nat);
}

/// The texts of a built response are the fields of the status line: the
/// first is the brand, the second the MOTD, the fourth the version name, the
/// eighth the game mode and the ninth the map, each kept when non-empty.
pub proof fn lemma_bedrock_texts<L>(resp: BedrockStatusResponse<L>, f: Seq<Seq<char>>, latency: L)
    requires
        bedrock_built(resp, f, latency),
        f.len() >= 6,
    ensures
        f[0].len() > 0 ==> (resp.version.brand matches Some(b) && b@ == f[0]),
        f[3].len() > 0 ==> (resp.version.name matches Some(n) && n@ == f[3]),
        resp.motd.raw matches crate::motd::MotdRaw::String(m) && m@ == f[1],
        f.len() > 7 && f[7].len() > 0 ==> (resp.gamemode matches Some(g) && g@ == f[7]),
        f.len() > 8 && f[8].len() > 0 ==> (resp.map_name matches Some(m) && m@ == f[8]),
        f.len() <= 8 ==> resp.map_name is None,
        resp.latency == latency,
{
}

/// Copies an optional non-empty text.
fn nonempty_copy(s: &String) -> (r: Option<String>)
    ensures
        opt_text(r) == nonempty(s@),
{
    if s.as_str().is_empty() {
        None
    } else {
        Some(s.clone())
    }
}

impl<L> BedrockStatusResponse<L> {
    /// Builds a `BedrockStatusResponse` from parsed data fields.
    ///
    /// The `data` parameter should contain the semicolon-separated fields
    /// from the RakNet Unconnected Ping response, in order:
    /// `[brand, motd, protocol_version, version_name, online, max, game_mode_id, ...]`
    pub fn build(data: &[String], latency: L) -> (r: Result<Self, String>)
        ensures
            data@.len() < 6 <==> r is Err,
            r matches Err(m) ==> m@ == too_few_fields_message(data@.len()),
            r matches Ok(resp) ==> bedrock_built(resp, strings_view(data@), latency),
    {
        let ghost f = strings_view(data@);
        if data.len() < 6 {
            let mut m = String::new();
            push_str(&mut m, "Bedrock response has too few fields: expected at least 6, got ");
            push_decimal(&mut m, data.len() as u64);
            assert(m@ =~= too_few_fields_message(data@.len()));
            return Err(m);
        }
        assert(f[0] == data@[0]@ && f[1] == data@[1]@ && f[2] == data@[2]@ && f[3] == data@[3]@
            && f[4] == data@[4]@ && f[5] == data@[5]@);
        let brand = nonempty_copy(&data[0]);
        let motd = Motd::from_string(data[1].as_str(), true);
        let protocol = parse_u32(data[2].as_str());
        let name = nonempty_copy(&data[3]);
        let online = match parse_u32(data[4].as_str()) {
            Some(n) => n,
            None => 0,
        };
        let max = match parse_u32(data[5].as_str()) {
            Some(n) => n,
            None => 0,
        };
        let gamemode = if data.len() > 7 {
            assert(f[7] == data@[7]@);
            nonempty_copy(&data[7])
        } else {
            None
        };
        let map_name = if data.len() > 8 {
            assert(f[8] == data@[8]@);
            nonempty_copy(&data[8])
        } else {
            None
        };
        Ok(BedrockStatusResponse {
            players: BedrockStatusPlayers { online, max },
            version: BedrockStatusVersion { name, protocol, brand },
            motd,
            latency,
            map_name,
            gamemode,
        })
    }
}

} // verus!
