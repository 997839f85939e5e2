//! Raw response types: the fields of a server's answer as they were read,
//! before the response builders interpret them.
use vstd::prelude::*;

use crate::json::JsonValue;
use crate::response::bedrock::opt_text;

verus! {

/// Raw query response (parsed from binary, not JSON).
#[derive(Debug, Clone)]
pub struct RawQueryResponse {
    pub hostname: Option<String>,
    pub gametype: Option<String>,
    pub game_id: Option<String>,
    pub version: Option<String>,
    pub plugins: Option<String>,
    pub map: Option<String>,
    pub numplayers: Option<u32>,
    pub maxplayers: Option<u32>,
    pub hostport: Option<u16>,
    pub hostip: Option<String>,
    pub players: Vec<String>,
    pub software: Option<String>,
}

/// The fields of a raw query response, as texts and numbers.
pub ghost struct QueryRaw {
    pub hostname: Option<Seq<char>>,
    pub gametype: Option<Seq<char>>,
    pub game_id: Option<Seq<char>>,
    pub version: Option<Seq<char>>,
    pub plugins: Option<Seq<char>>,
    pub map: Option<Seq<char>>,
    pub numplayers: Option<u32>,
    pub maxplayers: Option<u32>,
    pub hostport: Option<u16>,
    pub hostip: Option<Seq<char>>,
    pub players: Seq<Seq<char>>,
    pub software: Option<Seq<char>>,
}

/// A raw query response with no field set.
pub open spec fn empty_query_raw() -> QueryRaw {
    QueryRaw {
        hostname: None,
        gametype: None,
        game_id: None,
        version: None,
        plugins: None,
        map: None,
        numplayers: None,
        maxplayers: None,
        hostport: None,
        hostip: None,
        players: Seq::empty(),
        software: None,
    }
}

impl View for RawQueryResponse {
    type V = QueryRaw;

    open spec fn view(&self) -> QueryRaw {
        QueryRaw {
            hostname: opt_text(self.hostname),
            gametype: opt_text(self.gametype),
            game_id: opt_text(self.game_id),
            version: opt_text(self.version),
            plugins: opt_text(self.plugins),
            map: opt_text(self.map),
            numplayers: self.numplayers,
            maxplayers: self.maxplayers,
            hostport: self.hostport,
            hostip: opt_text(self.hostip),
            players: self.players@.map_values(|p: String| p@),
            software: opt_text(self.software),
        }
    }
}

impl Default for RawQueryResponse {
    fn default() -> (r: RawQueryResponse)
        ensures
            r@ == empty_query_raw(),
    {
        let r = RawQueryResponse {
            hostname: None,
            gametype: None,
            game_id: None,
            version: None,
            plugins: None,
            map: None,
            numplayers: None,
            maxplayers: None,
            hostport: None,
            hostip: None,
            players: Vec::new(),
            software: None,
        };
        assert(r@.players =~= Seq::<Seq<char>>::empty());
        r
    }
}


/// Raw Java Edition status response, as the server's JSON holds it.
#[derive(Debug)]
pub struct RawJavaResponse {
    pub description: RawMotd,
    pub players: Option<RawJavaPlayers>,
    pub version: Option<RawJavaVersion>,
    pub enforces_secure_chat: Option<bool>,
    pub favicon: Option<String>,
    pub forge_data: Option<JsonValue>,
    /// Forge data in its older location.
    pub modinfo: Option<RawForgeData>,
}

/// Raw MOTD value — can be a string or a JSON object.
#[derive(Debug)]
pub enum RawMotd {
    String(String),
    Object(JsonValue),
}

impl Default for RawMotd {
    fn default() -> (r: RawMotd)
        ensures
            r matches RawMotd::String(s) && s@.len() == 0,
    {
        RawMotd::String(String::new())
    }
}

/// Raw Java players section.
#[derive(Debug, Clone)]
pub struct RawJavaPlayers {
    pub online: u32,
    pub max: u32,
    pub sample: Option<Vec<RawJavaPlayer>>,
}

/// Raw Java player in the sample list.
#[derive(Debug, Clone)]
pub struct RawJavaPlayer {
    pub name: String,
    pub id: String,
}

/// Raw Java version section.
#[derive(Debug, Clone)]
pub struct RawJavaVersion {
    pub name: String,
    pub protocol: u32,
}

/// Raw forge data, in the format with `mods` and `channels` lists or with
/// the compressed `d` text.
#[derive(Debug, Clone)]
pub struct RawForgeData {
    pub mods: Option<Vec<RawForgeMod>>,
    pub channels: Option<Vec<RawForgeChannel>>,
    pub fml_network_version: Option<u32>,
    pub truncated: Option<bool>,
    /// Compressed data field.
    pub d: Option<String>,
}

impl Default for RawForgeData {
    fn default() -> (r: RawForgeData)
        ensures
            r.mods is None && r.channels is None && r.fml_network_version is None && r.truncated is None && r.d is None,
    {
        RawForgeData { mods: None, channels: None, fml_network_version: None, truncated: None, d: None }
    }
}

/// Raw forge mod entry.
#[derive(Debug, Clone)]
pub struct RawForgeMod {
    pub mod_id: Option<String>,
    pub mod_marker: Option<String>,
    pub mod_name: Option<String>,
    pub version: Option<String>,
}

/// Raw forge channel entry.
#[derive(Debug, Clone)]
pub struct RawForgeChannel {
    pub res: String,
    pub version: String,
    pub required: bool,
}

} // verus!
