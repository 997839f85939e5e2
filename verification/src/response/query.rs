//! GS4 Query protocol response model.
use vstd::prelude::*;

use crate::address::first_index;
use crate::buffer::is_unicode_whitespace;
use crate::motd::motd_impl::legacy_components;
use crate::motd::simplify::list_view;
use crate::motd::Motd;
use crate::response::bedrock::opt_text;
use crate::response::raw::{QueryRaw, RawQueryResponse};
use crate::text::{chars_of, split_char, split_on, string_from_chars, strings_view};

verus! {

/// Response from a GS4 Query protocol query.
///
/// The query protocol provides more detailed information than the status
/// protocol, including full player lists, plugin lists, and map/game info.
#[derive(Debug)]
pub struct QueryResponse {
    /// The raw parsed query response.
    pub raw: RawQueryResponse,
    /// The parsed Message of the Day.
    pub motd: Motd,
    /// The current world/map name.
    pub map_name: Option<String>,
    /// Server IP address (as reported by the server).
    pub ip: Option<String>,
    /// Server port (as reported by the server).
    pub port: Option<u16>,
    /// Game type (e.g. "SMP").
    pub game_type: Option<String>,
    /// Game type ID.
    pub game_id: Option<String>,
    /// Player information.
    pub players: QueryPlayers,
    /// Software/plugin information.
    pub software: Option<QuerySoftware>,
}

/// Player information from a query response.
#[derive(Debug, Clone)]
pub struct QueryPlayers {
    /// Number of players currently online.
    pub online: u32,
    /// Maximum number of players allowed.
    pub max: u32,
    /// List of online player names.
    pub list: Vec<String>,
}

/// Software and plugin information from a query response.
#[derive(Debug, Clone)]
pub struct QuerySoftware {
    /// Server software version (e.g. "1.21.4").
    pub version: Option<String>,
    /// Server software brand (e.g. "Paper on 1.21.4").
    pub brand: Option<String>,
    /// List of installed plugins.
    pub plugins: Vec<String>,
}

/// A text without its leading white space.
pub open spec fn trim_start(s: Seq<char>) -> Seq<char>
    decreases s.len(),
{
    if s.len() > 0 && is_unicode_whitespace(s[0]) {
        trim_start(s.drop_first())
    } else {
        s
    }
}

/// A text without its trailing white space.
pub open spec fn trim_end(s: Seq<char>) -> Seq<char>
    decreases s.len(),
{
    if s.len() > 0 && is_unicode_whitespace(s.last()) {
        trim_end(s.drop_last())
    } else {
        s
    }
}

/// A text without white space at either end (as `str::trim`).
pub open spec fn trim(s: Seq<char>) -> Seq<char> {
    trim_end(trim_start(s))
}

/// The trimmed pieces of a list, without those that are empty once trimmed.
pub open spec fn trimmed_nonempty(pieces: Seq<Seq<char>>) -> Seq<Seq<char>>
    decreases pieces.len(),
{
    if pieces.len() == 0 {
        Seq::empty()
    } else if trim(pieces.last()).len() == 0 {
        trimmed_nonempty(pieces.drop_last())
    } else {
        trimmed_nonempty(pieces.drop_last()).push(trim(pieces.last()))
    }
}

/// The brand and plugins of a plugins text `"brand: plugin1; plugin2"`: the
/// trimmed text before the first `:` (none when empty), and the non-empty
/// trimmed `;`-separated pieces after it. A text without `:` is all brand.
pub open spec fn plugins_of(s: Seq<char>) -> (Option<Seq<char>>, Seq<Seq<char>>) {
    match first_index(s, ':') {
        Some(c) => {
            let brand = trim(s.take(c));
            (
                if brand.len() == 0 {
                    None
                } else {
                    Some(brand)
                },
                trimmed_nonempty(split_on(s.skip(c + 1), ';')),
            )
        },
        None => (Some(s), Seq::empty()),
    }
}

/// Whether a character is white space (as `char::is_whitespace`).
fn is_whitespace(c: char) -> (r: bool)
    ensures
        r == is_unicode_whitespace(c),
{
    let u: u32 = c as u32;
    (0x09 <= u && u <= 0x0D) || u == 0x20 || u == 0x85 || u == 0xA0 || u == 0x1680 || (0x2000
        <= u && u <= 0x200A) || u == 0x2028 || u == 0x2029 || u == 0x202F || u == 0x205F || u
        == 0x3000
}

/// The characters `chars[start..end]` without white space at either end.
fn trimmed(chars: &Vec<char>, start: usize, end: usize) -> (s: String)
    requires
        start <= end <= chars.len(),
    ensures
        s@ == trim(chars@.subrange(start as int, end as int)),
{
    let ghost t = chars@.subrange(start as int, end as int);
    let mut a: usize = start;
    while a < end && is_whitespace(chars[a])
        invariant
            start <= a <= end <= chars.len(),
            trim_start(t) == trim_start(chars@.subrange(a as int, end as int)),
        decreases end - a,
    {
        assert(chars@.subrange(a as int, end as int).drop_first() =~= chars@.subrange(
            a + 1,
            end as int,
        ));
        a += 1;
    }
    let ghost u = chars@.subrange(a as int, end as int);
    assert(trim_start(u) == u);
    let mut b: usize = end;
    while b > a && is_whitespace(chars[b - 1])
        invariant
            a <= b <= end <= chars.len(),
            trim_end(u) == trim_end(chars@.subrange(a as int, b as int)),
        decreases b - a,
    {
        assert(chars@.subrange(a as int, b as int).drop_last() =~= chars@.subrange(
            a as int,
            b - 1,
        ));
        b -= 1;
    }
    let ghost w = chars@.subrange(a as int, b as int);
    assert(trim_end(w) == w);
    let mut s = String::new();
    let mut i: usize = a;
    while i < b
        invariant
            a <= i <= b <= chars.len(),
            s@ == chars@.subrange(a as int, i as int),
        decreases b - i,
    {
        crate::text::push_char(&mut s, chars[i]);
        i += 1;
        assert(s@ =~= chars@.subrange(a as int, i as int));
    }
    s
}

/// Parses the plugins string from a query response.
///
/// Format: `"brand: plugin1; plugin2; plugin3"` (semicolon-separated)
/// The first element before `:` is the server brand.
pub fn parse_plugins(plugins_str: &str) -> (r: (Option<String>, Vec<String>))
    ensures
        (opt_text(r.0), strings_view(r.1@)) == plugins_of(plugins_str@),
{
    let chars = chars_of(plugins_str);
    let mut c: usize = 0;
    while c < chars.len() && chars[c] != ':'
        invariant
            c <= chars.len(),
            chars@ == plugins_str@,
            forall|j: int| 0 <= j < c ==> chars@[j] != ':',
        decreases chars.len() - c,
    {
        c += 1;
    }
    if c == chars.len() {
        proof {
            if first_index(plugins_str@, ':') is Some {
                lemma_first_index_bounds(plugins_str@, ':');
            }
        }
        let mut v: Vec<String> = Vec::new();
        assert(strings_view(v@) =~= Seq::<Seq<char>>::empty());
        return (Some(plugins_str.to_owned()), v);
    }
    proof {
        lemma_first_index_at(plugins_str@, ':', c as int);
    }
    let brand = trimmed(&chars, 0, c);
    assert(chars@.subrange(0, c as int) =~= plugins_str@.take(c as int));
    let brand_opt = if brand.as_str().is_empty() {
        None
    } else {
        Some(brand)
    };
    let rest = string_from_chars(&chars.as_slice()[c + 1..chars.len()]);
    assert(rest@ =~= plugins_str@.skip(c + 1));
    let pieces = split_char(rest.as_str(), ';');
    let ghost pv = strings_view(pieces@);
    let mut list: Vec<String> = Vec::new();
    let mut i: usize = 0;
    assert(pv.take(0) =~= Seq::<Seq<char>>::empty());
    while i < pieces.len()
        invariant
            i <= pieces.len(),
            pv == strings_view(pieces@),
            strings_view(list@) == trimmed_nonempty(pv.take(i as int)),
        decreases pieces.len() - i,
    {
        assert(pv.take(i + 1).drop_last() =~= pv.take(i as int));
        assert(pv.take(i + 1).last() == pieces@[i as int]@);
        let pc = chars_of(pieces[i].as_str());
        let t = trimmed(&pc, 0, pc.len());
        assert(pc@.subrange(0, pc@.len() as int) =~= pieces@[i as int]@);
        if !t.as_str().is_empty() {
            let ghost before = strings_view(list@);
            list.push(t);
            assert(strings_view(list@) =~= before.push(t@));
        }
        i += 1;
    }
    assert(pv.take(pieces.len() as int) =~= pv);
    (brand_opt, list)
}

/// A first occurrence lies inside the text and holds the character.
pub proof fn lemma_first_index_bounds(s: Seq<char>, c: char)
    ensures
        first_index(s, c) matches Some(k) ==> 0 <= k < s.len() && s[k] == c,
    decreases s.len(),
{
    if s.len() > 0 && s[0] != c {
        lemma_first_index_bounds(s.drop_first(), c);
    }
}

/// The first occurrence is where the character occurs with none before it.
pub proof fn lemma_first_index_at(s: Seq<char>, c: char, k: int)
    requires
        0 <= k < s.len(),
        s[k] == c,
        forall|j: int| 0 <= j < k ==> s[j] != c,
    ensures
        first_index(s, c) == Some(k),
    decreases s.len(),
{
    if k > 0 {
        lemma_first_index_at(s.drop_first(), c, k - 1);
    }
}

/// The parts of a query response that its builder derives from the raw fields.
pub open spec fn software_of(raw: QueryRaw) -> Option<(Option<Seq<char>>, Option<Seq<char>>, Seq<Seq<char>>)> {
    let (brand, plugins) = match raw.plugins {
        Some(p) => plugins_of(p),
        None => (None, Seq::empty()),
    };
    if brand is Some || plugins.len() > 0 || raw.version is Some {
        Some((raw.version, brand, plugins))
    } else {
        None
    }
}

/// The view of optional software information.
pub open spec fn software_view(s: Option<QuerySoftware>) -> Option<(Option<Seq<char>>, Option<Seq<char>>, Seq<Seq<char>>)> {
    match s {
        Some(sw) => Some((opt_text(sw.version), opt_text(sw.brand), strings_view(sw.plugins@))),
        None => None,
    }
}

/// Copies an optional string.
fn copy_opt(o: &Option<String>) -> (r: Option<String>)
    ensures
        opt_text(r) == opt_text(*o),
{
    match o {
        Some(s) => Some(s.clone()),
        None => None,
    }
}

/// Copies a list of strings.
fn copy_strings(v: &Vec<String>) -> (r: Vec<String>)
    ensures
        strings_view(r@) == strings_view(v@),
{
    let mut r: Vec<String> = Vec::new();
    let mut i: usize = 0;
    while i < v.len()
        invariant
            i <= v.len(),
            strings_view(r@) == strings_view(v@.take(i as int)),
        decreases v.len() - i,
    {
        let ghost before = strings_view(r@);
        r.push(v[i].clone());
        assert(strings_view(r@) =~= before.push(v@[i as int]@));
        assert(strings_view(v@.take(i + 1)) =~= strings_view(v@.take(i as int)).push(
            v@[i as int]@,
        ));
        i += 1;
    }
    assert(v@.take(v.len() as int) =~= v@);
    r
}

impl QueryResponse {
    /// Builds a `QueryResponse` from a raw parsed query response and player list.
    pub fn build(raw: RawQueryResponse, players: Vec<String>) -> (r: Self)
        ensures
            r.raw@ == raw@,
            ({
                let motd_raw = match raw@.hostname {
                    Some(h) => h,
                    None => Seq::empty(),
                };
                &&& list_view(&r.motd.parsed) == legacy_components(motd_raw, 0)
                &&& r.motd.raw matches crate::motd::MotdRaw::String(s) && s@ == motd_raw
                &&& !r.motd.bedrock
            }),
            opt_text(r.map_name) == raw@.map,
            opt_text(r.ip) == raw@.hostip,
            r.port == raw@.hostport,
            opt_text(r.game_type) == raw@.gametype,
            opt_text(r.game_id) == raw@.game_id,
            r.players.online == (match raw@.numplayers {
                Some(n) => n,
                None => 0,
            }),
            r.players.max == (match raw@.maxplayers {
                Some(n) => n,
                None => 0,
            }),
            strings_view(r.players.list@) == (if players@.len() > 0 {
                strings_view(players@)
            } else {
                raw@.players
            }),
            software_view(r.software) == software_of(raw@),
    {
        let motd = match &raw.hostname {
            Some(h) => Motd::from_string(h.as_str(), false),
            None => Motd::from_string("", false),
        };
        proof {
            reveal_strlit("");
        }
        let (brand, plugins) = match &raw.plugins {
            Some(p) => parse_plugins(p.as_str()),
            None => {
                let v: Vec<String> = Vec::new();
                assert(strings_view(v@) =~= Seq::<Seq<char>>::empty());
                (None, v)
            },
        };
        let software = if brand.is_some() || plugins.len() > 0 || raw.version.is_some() {
            Some(QuerySoftware { version: copy_opt(&raw.version), brand, plugins })
        } else {
            None
        };
        let player_list = if players.len() > 0 {
            players
        } else {
            let l = copy_strings(&raw.players);
            assert(strings_view(raw.players@) == raw@.players);
            l
        };
        let online = match raw.numplayers {
            Some(n) => n,
            None => 0,
        };
        let max = match raw.maxplayers {
            Some(n) => n,
            None => 0,
        };
        QueryResponse {
            motd,
            map_name: copy_opt(&raw.map),
            ip: copy_opt(&raw.hostip),
            port: raw.hostport,
            game_type: copy_opt(&raw.gametype),
            game_id: copy_opt(&raw.game_id),
            players: QueryPlayers { online, max, list: player_list },
            software,
            raw,
        }
    }
}

} // verus!
