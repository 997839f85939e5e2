//! Legacy (pre-1.7) Java Edition server status response model.
use vstd::prelude::*;

use crate::motd::motd_impl::legacy_components;
use crate::motd::simplify::list_view;
use crate::motd::Motd;

verus! {

/// Response from a legacy (pre-1.7) Java Edition server; `L` is the type of
/// the measured latency.
#[derive(Debug)]
pub struct LegacyStatusResponse<L> {
    /// Player count information.
    pub players: LegacyStatusPlayers,
    /// Version information.
    pub version: LegacyStatusVersion,
    /// The parsed Message of the Day.
    pub motd: Motd,
    /// Round-trip latency in milliseconds.
    pub latency: L,
}

/// Player count for a legacy server.
#[derive(Debug, Clone)]
pub struct LegacyStatusPlayers {
    pub online: u32,
    pub max: u32,
}

/// Version info for a legacy server.
#[derive(Debug, Clone)]
pub struct LegacyStatusVersion {
    /// Version name (e.g. "1.4.7").
    pub name: String,
    /// Protocol version number.
    pub protocol: u32,
}

/// What a response built from the given fields holds.
pub open spec fn legacy_built<L>(
    resp: LegacyStatusResponse<L>,
    protocol_version: u32,
    version_name: Seq<char>,
    motd_raw: Seq<char>,
    online_players: u32,
    max_players: u32,
    latency: L,
) -> bool {
    &&& resp.players.online == online_players
    &&& resp.players.max == max_players
    &&& resp.version.name@ == version_name
    &&& resp.version.protocol == protocol_version
    &&& list_view(&resp.motd.parsed) == legacy_components(motd_raw, 0)
    &&& resp.motd.raw matches crate::motd::MotdRaw::String(s) && s@ == motd_raw
    &&& !resp.motd.bedrock
    &&& resp.latency == latency
}

impl<L> LegacyStatusResponse<L> {
    /// Builds a `LegacyStatusResponse` from the parsed legacy ping fields.
    ///
    /// Parameters correspond to the legacy server list ping response format:
    /// `[protocol_version, version_name, motd, online_players, max_players]`
    pub fn build(
        protocol_version: u32,
        version_name: &str,
        motd_raw: &str,
        online_players: u32,
        max_players: u32,
        latency: L,
    ) -> (r: Self)
        ensures
            legacy_built(
                r,
                protocol_version,
                version_name@,
                motd_raw@,
                online_players,
                max_players,
                latency,
            ),
    {
        LegacyStatusResponse {
            players: LegacyStatusPlayers { online: online_players, max: max_players },
            version: LegacyStatusVersion { name: version_name.to_owned(), protocol: protocol_version },
            motd: Motd::from_string(motd_raw, false),
            latency,
        }
    }
}

} // verus!
