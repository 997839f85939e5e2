//! Java Edition (1.7+) server status response models.
use vstd::prelude::*;

use crate::json::{json_same, JsonValue};
use crate::motd::motd_impl::{json_components, legacy_components, no_style};
use crate::motd::simplify::list_view;
use crate::motd::{Motd, MotdRaw};
use crate::response::bedrock::opt_text;
use crate::response::forge::{forge_of, raw_forge_info, ForgeData, ForgeInfo};
use crate::response::raw::{RawJavaPlayer, RawJavaPlayers, RawJavaResponse, RawMotd};

verus! {

/// Response from a Java Edition server status query; `L` is the type of the
/// measured latency.
#[derive(Debug)]
pub struct JavaStatusResponse<L> {
    /// The raw JSON response from the server.
    pub raw: JsonValue,
    /// Player count information.
    pub players: JavaStatusPlayers,
    /// Version information.
    pub version: JavaStatusVersion,
    /// The parsed Message of the Day.
    pub motd: Motd,
    /// Round-trip latency in milliseconds.
    pub latency: L,
    /// Whether the server enforces secure chat (1.19+).
    pub enforces_secure_chat: Option<bool>,
    /// Base64-encoded PNG server icon.
    pub icon: Option<String>,
    /// Forge mod data, if available.
    pub forge_data: Option<ForgeData>,
}

/// Player count and sample information for a Java Edition server.
#[derive(Debug, Clone)]
pub struct JavaStatusPlayers {
    /// Number of players currently online.
    pub online: u32,
    /// Maximum number of players allowed.
    pub max: u32,
    /// Optional sample of online player names and UUIDs.
    pub sample: Option<Vec<JavaStatusPlayer>>,
}

/// A player in the sample list.
#[derive(Debug, Clone)]
pub struct JavaStatusPlayer {
    /// Player's display name.
    pub name: String,
    /// Player's UUID (as a string).
    pub id: String,
}

/// Version information for a Java Edition server.
#[derive(Debug, Clone)]
pub struct JavaStatusVersion {
    /// Version name (e.g. "1.21.4").
    pub name: String,
    /// Protocol version number.
    pub protocol: u32,
}

/// The name and ID of each sampled player.
pub open spec fn sample_view(v: Seq<JavaStatusPlayer>) -> Seq<(Seq<char>, Seq<char>)> {
    v.map_values(|p: JavaStatusPlayer| (p.name@, p.id@))
}

/// The name and ID of each raw sampled player.
pub open spec fn raw_sample_view(v: Seq<RawJavaPlayer>) -> Seq<(Seq<char>, Seq<char>)> {
    v.map_values(|p: RawJavaPlayer| (p.name@, p.id@))
}

/// Whether the players section of a response is the raw one: counts of 0
/// and no sample when the server sent none.
pub open spec fn players_from_raw(p: JavaStatusPlayers, raw: Option<RawJavaPlayers>) -> bool {
    match raw {
        None => p.online == 0 && p.max == 0 && p.sample is None,
        Some(rp) => {
            &&& p.online == rp.online
            &&& p.max == rp.max
            &&& match (p.sample, rp.sample) {
                (None, None) => true,
                (Some(s), Some(rs)) => sample_view(s@) == raw_sample_view(rs@),
                _ => false,
            }
        },
    }
}

/// Whether a MOTD is the one a raw description gives: a string is read with
/// its legacy codes, an object as a chat component.
pub open spec fn motd_from_description(m: Motd, d: RawMotd) -> bool {
    &&& !m.bedrock
    &&& match d {
        RawMotd::String(s) => list_view(&m.parsed) == legacy_components(s@, 0) && (
        m.raw matches MotdRaw::String(t) && t@ == s@),
        RawMotd::Object(v) => list_view(&m.parsed) == json_components(v, no_style()) && (
        m.raw matches MotdRaw::Json(j) && json_same(j, v)),
    }
}

/// The forge data of a response: that of `forgeData` when it is there (none
/// when it cannot be read), else that of `modinfo`.
pub open spec fn forge_of_response(raw: RawJavaResponse) -> Option<ForgeInfo> {
    match raw.forge_data {
        Some(fd) => match forge_of(fd) {
            Ok(info) => Some(info),
            Err(_) => None,
        },
        None => match raw.modinfo {
            Some(m) => Some(raw_forge_info(m)),
            None => None,
        },
    }
}

/// The view of optional forge data.
pub open spec fn forge_view(f: Option<ForgeData>) -> Option<ForgeInfo> {
    match f {
        Some(fd) => Some(fd@),
        None => None,
    }
}

/// Copies the sampled players.
fn copy_sample(rs: &Vec<RawJavaPlayer>) -> (r: Vec<JavaStatusPlayer>)
    ensures
        sample_view(r@) == raw_sample_view(rs@),
{
    let mut out: Vec<JavaStatusPlayer> = Vec::new();
    let mut i: usize = 0;
    while i < rs.len()
        invariant
            i <= rs.len(),
            sample_view(out@) == raw_sample_view(rs@.take(i as int)),
        decreases rs.len() - i,
    {
        let p = JavaStatusPlayer { name: rs[i].name.clone(), id: rs[i].id.clone() };
        let ghost before = sample_view(out@);
        out.push(p);
        assert(sample_view(out@) =~= before.push((p.name@, p.id@)));
        assert(raw_sample_view(rs@.take(i + 1)) =~= raw_sample_view(rs@.take(i as int)).push(
            (rs@[i as int].name@, rs@[i as int].id@),
        ));
        i += 1;
    }
    assert(rs@.take(rs.len() as int) =~= rs@);
    out
}

impl<L> JavaStatusResponse<L> {
    /// Builds a `JavaStatusResponse` from the server's JSON, its fields, and
    /// a latency measurement. Fails when the response has no `version`.
    pub fn build(raw_json: JsonValue, raw: RawJavaResponse, latency: L) -> (r: Result<Self, String>)
        ensures
            raw.version is None <==> r is Err,
            r matches Err(e) ==> e@ == "Missing 'version' field in status response"@,
            r matches Ok(resp) ==> {
                &&& resp.raw == raw_json
                &&& resp.version.name@ == raw.version->Some_0.name@
                &&& resp.version.protocol == raw.version->Some_0.protocol
                &&& players_from_raw(resp.players, raw.players)
                &&& motd_from_description(resp.motd, raw.description)
                &&& resp.latency == latency
                &&& resp.enforces_secure_chat == raw.enforces_secure_chat
                &&& opt_text(resp.icon) == opt_text(raw.favicon)
                &&& forge_view(resp.forge_data) == forge_of_response(raw)
            },
    {
        let version = match &raw.version {
            Some(v) => JavaStatusVersion { name: v.name.clone(), protocol: v.protocol },
            None => {
                return Err("Missing 'version' field in status response".to_owned());
            },
        };
        let players = match &raw.players {
            None => JavaStatusPlayers { online: 0, max: 0, sample: None },
            Some(p) => JavaStatusPlayers {
                online: p.online,
                max: p.max,
                sample: match &p.sample {
                    Some(s) => Some(copy_sample(s)),
                    None => None,
                },
            },
        };
        let motd = match &raw.description {
            RawMotd::String(s) => Motd::from_string(s.as_str(), false),
            RawMotd::Object(v) => Motd::from_json(v, false),
        };
        let forge_data = match &raw.forge_data {
            Some(fd) => match ForgeData::build(fd) {
                Ok(f) => Some(f),
                Err(_) => None,
            },
            None => match &raw.modinfo {
                Some(m) => Some(ForgeData::from_raw(m)),
                None => None,
            },
        };
        let icon = match &raw.favicon {
            Some(s) => Some(s.clone()),
            None => None,
        };
        Ok(
            JavaStatusResponse {
                raw: raw_json,
                players,
                version,
                motd,
                latency,
                enforces_secure_chat: raw.enforces_secure_chat,
                icon,
                forge_data,
            },
        )
    }
}

} // verus!
