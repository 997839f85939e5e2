//! Forge mod data decoder.
//!
//! Handles both the JSON format with `mods` and `channels` lists and the
//! compressed binary format packed into the `d` text, for forge mod
//! information embedded in server status responses.
use vstd::prelude::*;

use crate::json::{
    get_member, json_bool, json_field, json_str, json_u64,
    JsonNumber, JsonValue,
};
use crate::protocol::query::utf8_or_empty;
use crate::response::bedrock::{nonempty, opt_text};
use crate::response::raw::{RawForgeChannel, RawForgeData, RawForgeMod};
use crate::text::{chars_of, string_from_utf8};

verus! {

/// Decoded forge mod data from a server status response.
#[derive(Debug)]
pub struct ForgeData {
    /// FML network version.
    pub fml_network_version: Option<u32>,
    /// List of forge communication channels.
    pub channels: Vec<ForgeDataChannel>,
    /// List of installed mods.
    pub mods: Vec<ForgeDataMod>,
    /// Whether the mod list was truncated by the server.
    pub truncated: Option<bool>,
}

/// A forge communication channel.
#[derive(Debug, Clone)]
pub struct ForgeDataChannel {
    pub name: String,
    pub version: String,
    pub required: bool,
}

/// A forge mod entry.
#[derive(Debug, Clone)]
pub struct ForgeDataMod {
    /// The mod's internal ID.
    pub mod_id: Option<String>,
    /// Version marker used for network compatibility checks.
    pub marker: Option<String>,
    /// Human-readable mod name.
    pub name: Option<String>,
    /// Mod version string.
    pub version: Option<String>,
}

/// A channel's fields as texts.
pub ghost struct ChannelInfo {
    pub name: Seq<char>,
    pub version: Seq<char>,
    pub required: bool,
}

/// A mod's fields as texts.
pub ghost struct ModInfo {
    pub mod_id: Option<Seq<char>>,
    pub marker: Option<Seq<char>>,
    pub name: Option<Seq<char>>,
    pub version: Option<Seq<char>>,
}

/// Forge data as texts and numbers.
pub ghost struct ForgeInfo {
    pub fml_network_version: Option<u32>,
    pub channels: Seq<ChannelInfo>,
    pub mods: Seq<ModInfo>,
    pub truncated: Option<bool>,
}

impl View for ForgeDataChannel {
    type V = ChannelInfo;

    open spec fn view(&self) -> ChannelInfo {
        ChannelInfo { name: self.name@, version: self.version@, required: self.required }
    }
}

impl View for ForgeDataMod {
    type V = ModInfo;

    open spec fn view(&self) -> ModInfo {
        ModInfo {
            mod_id: opt_text(self.mod_id),
            marker: opt_text(self.marker),
            name: opt_text(self.name),
            version: opt_text(self.version),
        }
    }
}

impl View for ForgeData {
    type V = ForgeInfo;

    open spec fn view(&self) -> ForgeInfo {
        ForgeInfo {
            fml_network_version: self.fml_network_version,
            channels: self.channels@.map_values(|c: ForgeDataChannel| c@),
            mods: self.mods@.map_values(|m: ForgeDataMod| m@),
            truncated: self.truncated,
        }
    }
}

// ── JSON format ──────────────────────────────────────────────────────────────

/// The channel that a JSON value describes: an object's `res`, `version`
/// (empty when missing) and `required` (false when missing).
pub open spec fn channel_of(v: JsonValue) -> Option<ChannelInfo> {
    match v {
        JsonValue::Object(_) => Some(
            ChannelInfo {
                name: match json_str(json_field(v, "res"@)) {
                    Some(s) => s,
                    None => Seq::empty(),
                },
                version: match json_str(json_field(v, "version"@)) {
                    Some(s) => s,
                    None => Seq::empty(),
                },
                required: match json_bool(json_field(v, "required"@)) {
                    Some(b) => b,
                    None => false,
                },
            },
        ),
        _ => None,
    }
}

/// The mod that a JSON value describes: an object's `modId`, `modmarker`,
/// `modName` and `version` texts.
pub open spec fn mod_of(v: JsonValue) -> Option<ModInfo> {
    match v {
        JsonValue::Object(_) => Some(
            ModInfo {
                mod_id: json_str(json_field(v, "modId"@)),
                marker: json_str(json_field(v, "modmarker"@)),
                name: json_str(json_field(v, "modName"@)),
                version: json_str(json_field(v, "version"@)),
            },
        ),
        _ => None,
    }
}

/// The channels of the items that are objects, in order.
pub open spec fn channels_of_items(items: Seq<JsonValue>) -> Seq<ChannelInfo>
    decreases items.len(),
{
    if items.len() == 0 {
        Seq::empty()
    } else {
        match channel_of(items.last()) {
            Some(c) => channels_of_items(items.drop_last()).push(c),
            None => channels_of_items(items.drop_last()),
        }
    }
}

/// The mods of the items that are objects, in order.
pub open spec fn mods_of_items(items: Seq<JsonValue>) -> Seq<ModInfo>
    decreases items.len(),
{
    if items.len() == 0 {
        Seq::empty()
    } else {
        match mod_of(items.last()) {
            Some(m) => mods_of_items(items.drop_last()).push(m),
            None => mods_of_items(items.drop_last()),
        }
    }
}

/// The items of a member that is an array (none otherwise).
pub open spec fn array_items(v: Option<JsonValue>) -> Seq<JsonValue> {
    match v {
        Some(JsonValue::Array(items)) => items@,
        _ => Seq::empty(),
    }
}

// ── Compressed format ────────────────────────────────────────────────────────

/// The UTF-16 code units of a text: one per character below U+10000, a
/// surrogate pair for the others.
pub open spec fn utf16_units(s: Seq<char>) -> Seq<u32>
    decreases s.len(),
{
    if s.len() == 0 {
        Seq::empty()
    } else {
        let u = s.last() as u32;
        let front = utf16_units(s.drop_last());
        if u < 0x10000 {
            front.push(u)
        } else {
            front.push((0xD800 + (u - 0x10000) / 1024) as u32).push(
                (0xDC00 + (u - 0x10000) % 1024) as u32,
            )
        }
    }
}

/// The bytes carried by code units: each unit gives its high byte without
/// its top bit, then its low byte.
pub open spec fn unit_bytes(units: Seq<u32>) -> Seq<u8> {
    Seq::new(
        2 * units.len(),
        |k: int|
            if k % 2 == 0 {
                ((units[k / 2] / 256) % 128) as u8
            } else {
                (units[k / 2] % 256) as u8
            },
    )
}

/// The byte at `p`, or 0 past the end.
pub open spec fn sb_at(d: Seq<u8>, p: nat) -> u8 {
    if p < d.len() {
        d[p as int]
    } else {
        0
    }
}

/// The position after reading a byte at `p`: reading past the end stays put.
pub open spec fn sb_next(d: Seq<u8>, p: nat) -> nat {
    if p < d.len() {
        p + 1
    } else {
        p
    }
}

/// A variable-length number read from `p`: seven bits per byte, least
/// significant group first, at most five bytes; `acc` holds the groups read
/// so far and `mult` the weight of the next one.
pub open spec fn sb_varuint_from(d: Seq<u8>, p: nat, i: nat, acc: nat, mult: nat) -> (nat, nat)
    decreases 5 - i,
{
    if i >= 5 {
        (acc, p)
    } else {
        let b = sb_at(d, p);
        let acc2 = acc + (b % 128) as nat * mult;
        if b < 128 {
            (acc2, sb_next(d, p))
        } else {
            sb_varuint_from(d, sb_next(d, p), i + 1, acc2, mult * 128)
        }
    }
}

/// A variable-length number read from `p`, and the position after it.
pub open spec fn sb_varuint(d: Seq<u8>, p: nat) -> (nat, nat) {
    sb_varuint_from(d, p, 0, 0, 1)
}

/// A length-prefixed UTF-8 text read from `p` (empty when not UTF-8), and the
/// position after it.
pub open spec fn sb_utf(d: Seq<u8>, p: nat) -> (Seq<char>, nat) {
    let (n, p1) = sb_varuint(d, p);
    let len = (n as usize) as nat;
    let bytes = Seq::new(len, |k: int| sb_at(d, (p1 + k) as nat));
    (utf8_or_empty(bytes), if p1 + len <= d.len() {
        p1 + len
    } else if p1 <= d.len() {
        d.len() as nat
    } else {
        p1
    })
}

/// `count` mods read from `p`: the ID and marker (none when empty), then,
/// unless the list is truncated, the name and version; and the position
/// after them.
pub open spec fn sb_mods(d: Seq<u8>, p: nat, count: nat, truncated: bool) -> (Seq<ModInfo>, nat)
    decreases count,
{
    if count == 0 {
        (Seq::empty(), p)
    } else {
        let (ms, p1) = sb_mods(d, p, (count - 1) as nat, truncated);
        let (id, p2) = sb_utf(d, p1);
        let (mk, p3) = sb_utf(d, p2);
        let (name, p4) = if truncated {
            (None, p3)
        } else {
            (Some(sb_utf(d, p3).0), sb_utf(d, p3).1)
        };
        let (ver, p5) = if truncated {
            (None, p4)
        } else {
            (Some(sb_utf(d, p4).0), sb_utf(d, p4).1)
        };
        (ms.push(ModInfo { mod_id: nonempty(id), marker: nonempty(mk), name, version: ver }), p5)
    }
}

/// `count` channels read from `p`: name, version and whether it is required;
/// and the position after them.
pub open spec fn sb_channels(d: Seq<u8>, p: nat, count: nat) -> (Seq<ChannelInfo>, nat)
    decreases count,
{
    if count == 0 {
        (Seq::empty(), p)
    } else {
        let (cs, p1) = sb_channels(d, p, (count - 1) as nat);
        let (name, p2) = sb_utf(d, p1);
        let (version, p3) = sb_utf(d, p2);
        let required = sb_at(d, p3) != 0;
        (cs.push(ChannelInfo { name, version, required }), sb_next(d, p3))
    }
}

/// The channels and mods packed into a compressed forge text: a truncation
/// flag, the mods, then the channels.
pub open spec fn decode_optimized(s: Seq<char>) -> (Seq<ChannelInfo>, Seq<ModInfo>) {
    let units = utf16_units(s);
    if units.len() == 0 {
        (Seq::empty(), Seq::empty())
    } else {
        let d = unit_bytes(units);
        let truncated = sb_at(d, 0) != 0;
        let (nm, p2) = sb_varuint(d, sb_next(d, 0));
        let (mods, p3) = sb_mods(d, p2, (nm as usize) as nat, truncated);
        let (nc, p4) = sb_varuint(d, p3);
        let (channels, _p5) = sb_channels(d, p4, (nc as usize) as nat);
        (channels, mods)
    }
}

/// The forge data that a JSON value describes, or why it cannot be read.
///
/// The value must be an object. Its `fmlNetworkVersion` (cut to 32 bits) and
/// `truncated` are kept; the channels and mods come from the compressed `d`
/// text when there is one, followed by those of the `channels` and `mods`
/// lists.
pub open spec fn forge_of(raw: JsonValue) -> Result<ForgeInfo, Seq<char>> {
    match raw {
        JsonValue::Object(_) => {
            let fml = match json_u64(json_field(raw, "fmlNetworkVersion"@)) {
                Some(v) => Some(v as u32),
                None => None,
            };
            let truncated = json_bool(json_field(raw, "truncated"@));
            let top_mods = mods_of_items(array_items(json_field(raw, "mods"@)));
            let top_channels = channels_of_items(array_items(json_field(raw, "channels"@)));
            match json_str(json_field(raw, "d"@)) {
                Some(d) => {
                    let (ch, md) = decode_optimized(d);
                    Ok(
                        ForgeInfo {
                            fml_network_version: fml,
                            channels: ch + top_channels,
                            mods: md + top_mods,
                            truncated,
                        },
                    )
                },
                None => Ok(
                    ForgeInfo {
                        fml_network_version: fml,
                        channels: top_channels,
                        mods: top_mods,
                        truncated,
                    },
                ),
            }
        },
        _ => Err("Forge data must be a JSON object"@),
    }
}


/// A reader over the bytes of a compressed forge text; reading past the end
/// gives zero bytes.
struct StringBuffer {
    data: Vec<u8>,
    pos: usize,
}

impl StringBuffer {
    fn read_byte(&mut self) -> (b: u8)
        requires
            old(self).pos <= old(self).data@.len(),
        ensures
            final(self).data@ == old(self).data@,
            b == sb_at(old(self).data@, old(self).pos as nat),
            final(self).pos == sb_next(old(self).data@, old(self).pos as nat),
            final(self).pos <= final(self).data@.len(),
    {
        if self.pos < self.data.len() {
            let byte = self.data[self.pos];
            self.pos += 1;
            byte
        } else {
            0
        }
    }

    fn read_bool(&mut self) -> (b: bool)
        requires
            old(self).pos <= old(self).data@.len(),
        ensures
            final(self).data@ == old(self).data@,
            b == (sb_at(old(self).data@, old(self).pos as nat) != 0),
            final(self).pos == sb_next(old(self).data@, old(self).pos as nat),
            final(self).pos <= final(self).data@.len(),
    {
        self.read_byte() != 0
    }

    fn read_varuint(&mut self) -> (r: u64)
        requires
            old(self).pos <= old(self).data@.len(),
        ensures
            final(self).data@ == old(self).data@,
            (r as nat, final(self).pos as nat) == sb_varuint(old(self).data@, old(self).pos as nat),
            final(self).pos <= final(self).data@.len(),
    {
        let ghost d = self.data@;
        let ghost p0 = self.pos as nat;
        let mut result: u64 = 0;
        let mut mult: u64 = 1;
        let mut i: u64 = 0;
        while i < 5
            invariant
                i <= 5,
                self.data@ == d,
                d == old(self).data@,
                p0 == old(self).pos,
                self.pos <= d.len(),
                mult == (if i == 0 {
                    1u64
                } else if i == 1 {
                    128u64
                } else if i == 2 {
                    16384u64
                } else if i == 3 {
                    2097152u64
                } else if i == 4 {
                    268435456u64
                } else {
                    34359738368u64
                }),
                result < mult,
                sb_varuint(d, p0) == sb_varuint_from(d, self.pos as nat, i as nat, result as nat, mult as nat),
            decreases 5 - i,
        {
            let byte = self.read_byte();
            let low: u64 = (byte % 128) as u64;
            assert(low * mult <= 127 * mult) by (nonlinear_arith)
                requires
                    low <= 127,
            ;
            result = result + low * mult;
            if byte < 128 {
                return result;
            }
            mult = mult * 128;
            i += 1;
        }
        result
    }

    fn read_utf(&mut self) -> (s: String)
        requires
            old(self).pos <= old(self).data@.len(),
        ensures
            final(self).data@ == old(self).data@,
            (s@, final(self).pos as nat) == sb_utf(old(self).data@, old(self).pos as nat),
            final(self).pos <= final(self).data@.len(),
    {
        let ghost d = self.data@;
        let length = self.read_varuint() as usize;
        let ghost p1 = self.pos as nat;
        let mut bytes: Vec<u8> = Vec::new();
        let mut k: usize = 0;
        while k < length
            invariant
                k <= length,
                self.data@ == d,
                p1 <= d.len(),
                self.pos == (if p1 + k <= d.len() {
                    p1 + k
                } else {
                    d.len() as int
                }),
                bytes@ == Seq::new(k as nat, |j: int| sb_at(d, (p1 + j) as nat)),
            decreases length - k,
        {
            let b = self.read_byte();
            bytes.push(b);
            k += 1;
            assert(bytes@ =~= Seq::new(k as nat, |j: int| sb_at(d, (p1 + j) as nat)));
        }
        match string_from_utf8(bytes) {
            Ok(s) => s,
            Err(_) => String::new(),
        }
    }
}

/// The UTF-16 code units of a text.
fn encode_utf16(s: &str) -> (units: Vec<u32>)
    ensures
        units@ == utf16_units(s@),
{
    let chars = chars_of(s);
    let mut units: Vec<u32> = Vec::new();
    let mut i: usize = 0;
    while i < chars.len()
        invariant
            i <= chars.len(),
            chars@ == s@,
            units@ == utf16_units(s@.take(i as int)),
        decreases chars.len() - i,
    {
        assert(s@.take(i + 1).drop_last() =~= s@.take(i as int));
        assert(s@.take(i + 1).last() == chars@[i as int]);
        let u = chars[i] as u32;
        if u < 0x10000 {
            units.push(u);
        } else {
            let v = u - 0x10000;
            units.push(0xD800 + v / 1024);
            units.push(0xDC00 + v % 1024);
        }
        i += 1;
    }
    assert(s@.take(chars.len() as int) =~= s@);
    units
}

/// The views of a list of channels.
pub open spec fn channels_view(v: Seq<ForgeDataChannel>) -> Seq<ChannelInfo> {
    v.map_values(|c: ForgeDataChannel| c@)
}

/// The views of a list of mods.
pub open spec fn mods_view(v: Seq<ForgeDataMod>) -> Seq<ModInfo> {
    v.map_values(|m: ForgeDataMod| m@)
}

/// A text as an optional value: `None` when empty.
fn nonempty_string(s: String) -> (r: Option<String>)
    ensures
        opt_text(r) == nonempty(s@),
{
    if s.as_str().is_empty() {
        None
    } else {
        Some(s)
    }
}

/// The bytes that code units carry (see `unit_bytes`).
fn forge_bytes(units: &Vec<u32>) -> (bits: Vec<u8>)
    ensures
        bits@ == unit_bytes(units@),
{
    let mut bits: Vec<u8> = Vec::new();
    let mut i: usize = 0;
    while i < units.len()
        invariant
            i <= units.len(),
            bits@ == unit_bytes(units@.take(i as int)),
        decreases units.len() - i,
    {
        let ch = units[i];
        bits.push(((ch / 256) % 128) as u8);
        bits.push((ch % 256) as u8);
        i += 1;
        assert(bits@ =~= unit_bytes(units@.take(i as int)));
    }
    assert(units@.take(units.len() as int) =~= units@);
    bits
}

/// Reads `count` mods (see `sb_mods`).
fn read_mods(buffer: &mut StringBuffer, count: usize, truncated: bool) -> (mods: Vec<ForgeDataMod>)
    requires
        old(buffer).pos <= old(buffer).data@.len(),
    ensures
        final(buffer).data@ == old(buffer).data@,
        final(buffer).pos <= final(buffer).data@.len(),
        (mods_view(mods@), final(buffer).pos as nat) == sb_mods(
            old(buffer).data@,
            old(buffer).pos as nat,
            count as nat,
            truncated,
        ),
{
    let ghost d = buffer.data@;
    let ghost p = buffer.pos as nat;
    let mut mods: Vec<ForgeDataMod> = Vec::new();
    let mut m: usize = 0;
    assert(mods_view(mods@) =~= Seq::<ModInfo>::empty());
    while m < count
        invariant
            m <= count,
            buffer.data@ == d,
            buffer.pos <= d.len(),
            (mods_view(mods@), buffer.pos as nat) == sb_mods(d, p, m as nat, truncated),
        decreases count - m,
    {
        let mod_id = buffer.read_utf();
        let marker = buffer.read_utf();
        let name = if truncated {
            None
        } else {
            Some(buffer.read_utf())
        };
        let version = if truncated {
            None
        } else {
            Some(buffer.read_utf())
        };
        let ghost before = mods_view(mods@);
        let entry = ForgeDataMod {
            mod_id: nonempty_string(mod_id),
            marker: nonempty_string(marker),
            name,
            version,
        };
        mods.push(entry);
        assert(mods_view(mods@) =~= before.push(entry@));
        m += 1;
    }
    mods
}

/// Reads `count` channels (see `sb_channels`).
fn read_channels(buffer: &mut StringBuffer, count: usize) -> (channels: Vec<ForgeDataChannel>)
    requires
        old(buffer).pos <= old(buffer).data@.len(),
    ensures
        final(buffer).data@ == old(buffer).data@,
        final(buffer).pos <= final(buffer).data@.len(),
        (channels_view(channels@), final(buffer).pos as nat) == sb_channels(
            old(buffer).data@,
            old(buffer).pos as nat,
            count as nat,
        ),
{
    let ghost d = buffer.data@;
    let ghost p = buffer.pos as nat;
    let mut channels: Vec<ForgeDataChannel> = Vec::new();
    let mut c: usize = 0;
    assert(channels_view(channels@) =~= Seq::<ChannelInfo>::empty());
    while c < count
        invariant
            c <= count,
            buffer.data@ == d,
            buffer.pos <= d.len(),
            (channels_view(channels@), buffer.pos as nat) == sb_channels(d, p, c as nat),
        decreases count - c,
    {
        let name = buffer.read_utf();
        let version = buffer.read_utf();
        let required = buffer.read_bool();
        let ghost before = channels_view(channels@);
        let entry = ForgeDataChannel { name, version, required };
        channels.push(entry);
        assert(channels_view(channels@) =~= before.push(entry@));
        c += 1;
    }
    channels
}

/// Decodes the compressed forge data format (see `decode_optimized`).
///
/// The data is encoded as a UTF-16 string where each character encodes
/// compressed binary data. Characters are packed into 15-bit groups.
pub fn decode_optimized_buffer(data: &str) -> (r: Result<(Vec<ForgeDataChannel>, Vec<ForgeDataMod>), String>)
    ensures
        r matches Ok((cs, ms)) && (channels_view(cs@), mods_view(ms@)) == decode_optimized(data@),
{
    let units = encode_utf16(data);
    if units.len() == 0 {
        let cs: Vec<ForgeDataChannel> = Vec::new();
        let ms: Vec<ForgeDataMod> = Vec::new();
        assert(channels_view(cs@) =~= Seq::<ChannelInfo>::empty());
        assert(mods_view(ms@) =~= Seq::<ModInfo>::empty());
        return Ok((cs, ms));
    }
    let bits = forge_bytes(&units);
    let ghost d = bits@;
    let mut buffer = StringBuffer { data: bits, pos: 0 };
    let truncated = buffer.read_bool();
    let num_mods = buffer.read_varuint() as usize;
    let mods = read_mods(&mut buffer, num_mods, truncated);
    let num_channels = buffer.read_varuint() as usize;
    let channels = read_channels(&mut buffer, num_channels);
    Ok((channels, mods))
}


/// A member's string, if the member is a string.
fn member_text<'a>(entries: &'a Vec<(String, JsonValue)>, v: &JsonValue, key: &str) -> (r: Option<
    &'a String,
>)
    requires
        *v == JsonValue::Object(*entries),
    ensures
        opt_text_ref(r) == json_str(json_field(*v, key@)),
{
    match get_member(entries, key) {
        Some(JsonValue::String(s)) => Some(s),
        _ => None,
    }
}

/// The view of an optional borrowed string.
pub open spec fn opt_text_ref(o: Option<&String>) -> Option<Seq<char>> {
    match o {
        Some(s) => Some(s@),
        None => None,
    }
}

/// Copies an optional borrowed string.
fn copy_text(o: Option<&String>) -> (r: Option<String>)
    ensures
        opt_text(r) == opt_text_ref(o),
{
    match o {
        Some(s) => Some(s.clone()),
        None => None,
    }
}

impl ForgeDataChannel {
    /// Builds a channel from a JSON object.
    pub fn build(raw: &JsonValue) -> (r: Result<Self, String>)
        ensures
            match channel_of(*raw) {
                Some(c) => r matches Ok(x) && x@ == c,
                None => r matches Err(e) && e@ == "Channel must be a JSON object"@,
            },
    {
        match raw {
            JsonValue::Object(entries) => {
                let name = match member_text(entries, raw, "res") {
                    Some(s) => s.clone(),
                    None => String::new(),
                };
                let version = match member_text(entries, raw, "version") {
                    Some(s) => s.clone(),
                    None => String::new(),
                };
                let required = match get_member(entries, "required") {
                    Some(JsonValue::Bool(b)) => *b,
                    _ => false,
                };
                Ok(ForgeDataChannel { name, version, required })
            },
            _ => Err("Channel must be a JSON object".to_owned()),
        }
    }
}

impl ForgeDataMod {
    /// Builds a mod entry from a JSON object.
    pub fn build(raw: &JsonValue) -> (r: Result<Self, String>)
        ensures
            match mod_of(*raw) {
                Some(m) => r matches Ok(x) && x@ == m,
                None => r matches Err(e) && e@ == "Mod must be a JSON object"@,
            },
    {
        match raw {
            JsonValue::Object(entries) => Ok(
                ForgeDataMod {
                    mod_id: copy_text(member_text(entries, raw, "modId")),
                    marker: copy_text(member_text(entries, raw, "modmarker")),
                    name: copy_text(member_text(entries, raw, "modName")),
                    version: copy_text(member_text(entries, raw, "version")),
                },
            ),
            _ => Err("Mod must be a JSON object".to_owned()),
        }
    }
}

/// Appends the channels of the items that are objects.
fn push_channels(channels: &mut Vec<ForgeDataChannel>, items: &Vec<JsonValue>)
    ensures
        channels_view(final(channels)@) == channels_view(old(channels)@) + channels_of_items(
            items@,
        ),
{
    let ghost base = channels_view(channels@);
    let mut i: usize = 0;
    assert(base + channels_of_items(items@.take(0)) =~= base);
    while i < items.len()
        invariant
            i <= items.len(),
            channels_view(channels@) == base + channels_of_items(items@.take(i as int)),
        decreases items.len() - i,
    {
        assert(items@.take(i + 1).drop_last() =~= items@.take(i as int));
        assert(items@.take(i + 1).last() == items@[i as int]);
        let ghost before = channels_view(channels@);
        if let Ok(c) = ForgeDataChannel::build(&items[i]) {
            channels.push(c);
            assert(channels_view(channels@) =~= before.push(c@));
        }
        i += 1;
    }
    assert(items@.take(items.len() as int) =~= items@);
}

/// Appends the mods of the items that are objects.
fn push_mods(mods: &mut Vec<ForgeDataMod>, items: &Vec<JsonValue>)
    ensures
        mods_view(final(mods)@) == mods_view(old(mods)@) + mods_of_items(items@),
{
    let ghost base = mods_view(mods@);
    let mut i: usize = 0;
    assert(base + mods_of_items(items@.take(0)) =~= base);
    while i < items.len()
        invariant
            i <= items.len(),
            mods_view(mods@) == base + mods_of_items(items@.take(i as int)),
        decreases items.len() - i,
    {
        assert(items@.take(i + 1).drop_last() =~= items@.take(i as int));
        assert(items@.take(i + 1).last() == items@[i as int]);
        let ghost before = mods_view(mods@);
        if let Ok(m) = ForgeDataMod::build(&items[i]) {
            mods.push(m);
            assert(mods_view(mods@) =~= before.push(m@));
        }
        i += 1;
    }
    assert(items@.take(items.len() as int) =~= items@);
}

impl ForgeData {
    /// Builds `ForgeData` from a raw forge data JSON value (see `forge_of`).
    ///
    /// Handles both:
    /// - the JSON format with `mods`, `channels`, `fmlNetworkVersion`
    /// - the compressed binary format in the `d` field
    pub fn build(raw: &JsonValue) -> (r: Result<Self, String>)
        ensures
            match forge_of(*raw) {
                Ok(info) => r matches Ok(f) && f@ == info,
                Err(m) => r matches Err(e) && e@ == m,
            },
    {
        let entries = match raw {
            JsonValue::Object(entries) => entries,
            _ => {
                return Err("Forge data must be a JSON object".to_owned());
            },
        };
        let fml_network_version = match get_member(entries, "fmlNetworkVersion") {
            Some(JsonValue::Number(JsonNumber::PosInt(v))) => Some(*v as u32),
            _ => None,
        };
        let truncated = match get_member(entries, "truncated") {
            Some(JsonValue::Bool(b)) => Some(*b),
            _ => None,
        };
        let mut channels: Vec<ForgeDataChannel> = Vec::new();
        let mut mods: Vec<ForgeDataMod> = Vec::new();
        if let Some(d) = member_text(entries, raw, "d") {
            match decode_optimized_buffer(d.as_str()) {
                Ok((cs, ms)) => {
                    channels = cs;
                    mods = ms;
                },
                Err(e) => {
                    return Err(e);
                },
            }
        } else {
            assert(channels_view(channels@) =~= Seq::<ChannelInfo>::empty());
            assert(mods_view(mods@) =~= Seq::<ModInfo>::empty());
        }
        let ghost ch0 = channels_view(channels@);
        let ghost md0 = mods_view(mods@);
        if let Some(JsonValue::Array(items)) = get_member(entries, "mods") {
            push_mods(&mut mods, items);
        } else {
            assert(md0 + Seq::<ModInfo>::empty() =~= md0);
        }
        if let Some(JsonValue::Array(items)) = get_member(entries, "channels") {
            push_channels(&mut channels, items);
        } else {
            assert(ch0 + Seq::<ChannelInfo>::empty() =~= ch0);
        }
        let r = ForgeData { fml_network_version, channels, mods, truncated };
        assert(r@.channels == channels_view(r.channels@));
        assert(r@.mods == mods_view(r.mods@));
        Ok(r)
    }
}


/// The mod that a raw mod entry describes.
pub open spec fn raw_mod_info(m: RawForgeMod) -> ModInfo {
    ModInfo {
        mod_id: opt_text(m.mod_id),
        marker: opt_text(m.mod_marker),
        name: opt_text(m.mod_name),
        version: opt_text(m.version),
    }
}

/// The channel that a raw channel entry describes.
pub open spec fn raw_channel_info(c: RawForgeChannel) -> ChannelInfo {
    ChannelInfo { name: c.res@, version: c.version@, required: c.required }
}

/// The forge data that raw forge data describes, read as `forge_of` reads
/// its JSON form: the compressed `d` text first, then the listed channels
/// and mods.
pub open spec fn raw_forge_info(m: RawForgeData) -> ForgeInfo {
    let top_mods = match m.mods {
        Some(v) => v@.map_values(|x: RawForgeMod| raw_mod_info(x)),
        None => Seq::empty(),
    };
    let top_channels = match m.channels {
        Some(v) => v@.map_values(|x: RawForgeChannel| raw_channel_info(x)),
        None => Seq::empty(),
    };
    match m.d {
        Some(d) => {
            let (ch, md) = decode_optimized(d@);
            ForgeInfo {
                fml_network_version: m.fml_network_version,
                channels: ch + top_channels,
                mods: md + top_mods,
                truncated: m.truncated,
            }
        },
        None => ForgeInfo {
            fml_network_version: m.fml_network_version,
            channels: top_channels,
            mods: top_mods,
            truncated: m.truncated,
        },
    }
}

impl ForgeData {
    /// Builds `ForgeData` from raw forge data (see `raw_forge_info`).
    pub fn from_raw(m: &RawForgeData) -> (r: Self)
        ensures
            r@ == raw_forge_info(*m),
    {
        let mut channels: Vec<ForgeDataChannel> = Vec::new();
        let mut mods: Vec<ForgeDataMod> = Vec::new();
        if let Some(d) = &m.d {
            match decode_optimized_buffer(d.as_str()) {
                Ok((cs, ms)) => {
                    channels = cs;
                    mods = ms;
                },
                Err(_) => {},
            }
        } else {
            assert(channels_view(channels@) =~= Seq::<ChannelInfo>::empty());
            assert(mods_view(mods@) =~= Seq::<ModInfo>::empty());
        }
        let ghost ch0 = channels_view(channels@);
        let ghost md0 = mods_view(mods@);
        match &m.mods {
            Some(list) => {
                let mut i: usize = 0;
                while i < list.len()
                    invariant
                        i <= list.len(),
                        mods_view(mods@) == md0 + list@.take(i as int).map_values(
                            |x: RawForgeMod| raw_mod_info(x),
                        ),
                    decreases list.len() - i,
                {
                    let x = &list[i];
                    let entry = ForgeDataMod {
                        mod_id: copy_text(opt_ref(&x.mod_id)),
                        marker: copy_text(opt_ref(&x.mod_marker)),
                        name: copy_text(opt_ref(&x.mod_name)),
                        version: copy_text(opt_ref(&x.version)),
                    };
                    let ghost before = mods_view(mods@);
                    mods.push(entry);
                    assert(mods_view(mods@) =~= before.push(entry@));
                    assert(list@.take(i + 1).map_values(|x: RawForgeMod| raw_mod_info(x))
                        =~= list@.take(i as int).map_values(|x: RawForgeMod| raw_mod_info(x)).push(
                        raw_mod_info(list@[i as int]),
                    ));
                    i += 1;
                }
                assert(list@.take(list.len() as int) =~= list@);
            },
            None => {
                assert(md0 + Seq::<ModInfo>::empty() =~= md0);
            },
        }
        match &m.channels {
            Some(list) => {
                let mut i: usize = 0;
                while i < list.len()
                    invariant
                        i <= list.len(),
                        channels_view(channels@) == ch0 + list@.take(i as int).map_values(
                            |x: RawForgeChannel| raw_channel_info(x),
                        ),
                    decreases list.len() - i,
                {
                    let x = &list[i];
                    let entry = ForgeDataChannel {
                        name: x.res.clone(),
                        version: x.version.clone(),
                        required: x.required,
                    };
                    let ghost before = channels_view(channels@);
                    channels.push(entry);
                    assert(channels_view(channels@) =~= before.push(entry@));
                    assert(list@.take(i + 1).map_values(|x: RawForgeChannel| raw_channel_info(x))
                        =~= list@.take(i as int).map_values(
                        |x: RawForgeChannel| raw_channel_info(x),
                    ).push(raw_channel_info(list@[i as int])));
                    i += 1;
                }
                assert(list@.take(list.len() as int) =~= list@);
            },
            None => {
                assert(ch0 + Seq::<ChannelInfo>::empty() =~= ch0);
            },
        }
        let r = ForgeData {
            fml_network_version: m.fml_network_version,
            channels,
            mods,
            truncated: m.truncated,
        };
        assert(r@.channels == channels_view(r.channels@));
        assert(r@.mods == mods_view(r.mods@));
        r
    }
}

/// A borrowed view of an optional string.
fn opt_ref(o: &Option<String>) -> (r: Option<&String>)
    ensures
        opt_text_ref(r) == opt_text(*o),
{
    match o {
        Some(s) => Some(s),
        None => None,
    }
}

} // verus!
