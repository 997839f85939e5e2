//! GS4 Query protocol client.
//!
//! The query protocol uses UDP and requires a challenge-response handshake
//! before the full query can be performed.
use rand::Rng;
use vstd::prelude::*;

use crate::buffer::{be_encode, Buffer};
use crate::error::McStatusError;
use crate::json::str_equal;
use crate::io::latin1_decode;
use crate::response::raw::{empty_query_raw, QueryRaw, RawQueryResponse};
use crate::text::{
    decimal, lemma_parse_decimal, parse_i32, parse_signed_i32, parse_u16, parse_u32, parse_unsigned, push_char, string_from_utf8,
    string_from_utf8_lossy, strings_view, utf8_lossy,
};

verus! {

/// Magic prefix for all query packets.
pub const MAGIC_PREFIX: [u8; 2] = [0xFE, 0xFD];

/// Packet type for challenge request.
pub const PACKET_TYPE_CHALLENGE: u8 = 9;

/// Packet type for query request.
pub const PACKET_TYPE_QUERY: u8 = 0;

/// Padding bytes for query packets.
pub const PADDING: [u8; 4] = [0x00, 0x00, 0x00, 0x00];

/// The position of the first zero byte of `b` at or after `p`, or the length
/// of `b` when there is none.
pub open spec fn zero_end(b: Seq<u8>, p: int) -> int
    decreases b.len() - p,
{
    if p >= b.len() {
        b.len() as int
    } else if b[p] == 0 {
        p
    } else {
        zero_end(b, p + 1)
    }
}

/// The ISO-8859-1 text that starts at `p` and ends before the next zero byte
/// (or at the end).
pub open spec fn iso_at(b: Seq<u8>, p: int) -> Seq<char> {
    latin1_decode(b.subrange(p, zero_end(b, p)))
}

/// The first position from `i` on where `needle` occurs in `h`.
pub open spec fn find_sub_from(h: Seq<u8>, needle: Seq<u8>, i: int) -> Option<int>
    decreases h.len() - i,
{
    if i < 0 || needle.len() == 0 || i + needle.len() > h.len() {
        None
    } else if h.subrange(i, i + needle.len()) == needle {
        Some(i)
    } else {
        find_sub_from(h, needle, i + 1)
    }
}

/// The first position where `needle` occurs in `h`.
pub open spec fn find_sub(h: Seq<u8>, needle: Seq<u8>) -> Option<int> {
    find_sub_from(h, needle, 0)
}

/// A zero end lies between the start and the length, and only non-zero
/// bytes come before it.
pub proof fn lemma_zero_end(b: Seq<u8>, p: int)
    requires
        0 <= p,
    ensures
        p <= zero_end(b, p) || p > b.len(),
        zero_end(b, p) <= b.len() || p > b.len(),
        zero_end(b, p) < b.len() ==> b[zero_end(b, p)] == 0,
        forall|j: int| p <= j < zero_end(b, p) ==> b[j] != 0,
    decreases b.len() - p,
{
    if p < b.len() && b[p] != 0 {
        lemma_zero_end(b, p + 1);
    }
}

/// Reads from `p` up to the next zero byte (or the end): the text and the
/// position where it stopped.
fn read_iso_at(b: &[u8], p: usize) -> (r: (String, usize))
    requires
        p <= b.len(),
    ensures
        r.1 == zero_end(b@, p as int),
        r.0@ == iso_at(b@, p as int),
        r.0@.len() == r.1 - p,
{
    proof {
        lemma_zero_end(b@, p as int);
    }
    let mut s = String::new();
    let mut i: usize = p;
    while i < b.len() && b[i] != 0
        invariant
            p <= i <= b.len(),
            zero_end(b@, p as int) == zero_end(b@, i as int),
            s@ == latin1_decode(b@.subrange(p as int, i as int)),
        decreases b.len() - i,
    {
        push_char(&mut s, b[i] as char);
        i += 1;
        assert(s@ =~= latin1_decode(b@.subrange(p as int, i as int)));
    }
    (s, i)
}

/// Reads a null-terminated string encoded as ISO-8859-1 (Latin-1).
pub fn read_null_terminated_iso(data: &[u8]) -> (r: Result<String, McStatusError>)
    ensures
        r matches Ok(s) && s@ == iso_at(data@, 0),
{
    let (s, _end) = read_iso_at(data, 0);
    Ok(s)
}

/// Reads a null-terminated ASCII string from bytes (invalid UTF-8 is
/// replaced, as `String::from_utf8_lossy` does).
pub fn read_null_terminated_ascii(data: &[u8]) -> (r: Result<String, McStatusError>)
    ensures
        r matches Ok(s) && s@ == utf8_lossy(data@.subrange(0, zero_end(data@, 0))),
{
    proof {
        lemma_zero_end(data@, 0);
    }
    let mut end: usize = 0;
    while end < data.len() && data[end] != 0
        invariant
            end <= data.len(),
            zero_end(data@, 0) == zero_end(data@, end as int),
        decreases data.len() - end,
    {
        end += 1;
    }
    let s = string_from_utf8_lossy(&data[0..end]);
    Ok(s)
}

/// Finds a subsequence within a byte slice, returning the index.
pub fn find_subsequence(haystack: &[u8], needle: &[u8]) -> (r: Option<usize>)
    requires
        needle.len() > 0,
    ensures
        r == (match find_sub(haystack@, needle@) {
            Some(i) => Some(i as usize),
            None => None,
        }),
{
    let n = needle.len();
    let mut i: usize = 0;
    while n <= haystack.len() && i <= haystack.len() - n
        invariant
            n == needle.len() > 0,
            i <= haystack.len(),
            find_sub(haystack@, needle@) == find_sub_from(haystack@, needle@, i as int),
        decreases haystack.len() - i,
    {
        let mut j: usize = 0;
        while j < n && haystack[i + j] == needle[j]
            invariant
                j <= n == needle.len(),
                i + n <= haystack.len(),
                forall|k: int| 0 <= k < j ==> haystack@[i + k] == needle@[k],
            decreases n - j,
        {
            j += 1;
        }
        if j == n {
            assert(haystack@.subrange(i as int, i + n) =~= needle@);
            return Some(i);
        }
        assert(haystack@.subrange(i as int, i + n)[j as int] != needle@[j as int]);
        i += 1;
    }
    None
}

/// A random number in `[0, i32::MAX)` (wraps `rand::Rng::gen_range` on
/// `rand::thread_rng()`). What number comes is chance; the contract states
/// only its range.
#[verifier::external_body]
fn random_below_i32_max() -> (r: i32)
    ensures
        0 <= r < i32::MAX,
{
    rand::thread_rng().gen_range(0..i32::MAX)
}


/// The session id made from a drawn number: only the lower 4 bits of each
/// byte are kept.
pub fn session_id_from_draw(raw: i32) -> (r: i32)
    ensures
        r == raw & 0x0F0F_0F0F,
        0 <= r,
        r & !0x0F0F_0F0Fi32 == 0,
{
    let r = raw & 0x0F0F_0F0F;
    assert(r & !0x0F0F_0F0Fi32 == 0 && 0 <= r) by (bit_vector)
        requires
            r == raw & 0x0F0F_0F0F,
    ;
    r
}

/// The byte patterns `\0key\0` of the keys that may follow the hostname, in
/// order: `hostip`, `hostport`, `game_id`, `gametype`, `map`, `maxplayers`,
/// `numplayers`, `plugins`, `version`.
pub open spec fn known_key_patterns() -> Seq<Seq<u8>> {
    seq![
        seq![0u8, 104u8, 111u8, 115u8, 116u8, 105u8, 112u8, 0u8],
        seq![0u8, 104u8, 111u8, 115u8, 116u8, 112u8, 111u8, 114u8, 116u8, 0u8],
        seq![0u8, 103u8, 97u8, 109u8, 101u8, 95u8, 105u8, 100u8, 0u8],
        seq![0u8, 103u8, 97u8, 109u8, 101u8, 116u8, 121u8, 112u8, 101u8, 0u8],
        seq![0u8, 109u8, 97u8, 112u8, 0u8],
        seq![0u8, 109u8, 97u8, 120u8, 112u8, 108u8, 97u8, 121u8, 101u8, 114u8, 115u8, 0u8],
        seq![0u8, 110u8, 117u8, 109u8, 112u8, 108u8, 97u8, 121u8, 101u8, 114u8, 115u8, 0u8],
        seq![0u8, 112u8, 108u8, 117u8, 103u8, 105u8, 110u8, 115u8, 0u8],
        seq![0u8, 118u8, 101u8, 114u8, 115u8, 105u8, 111u8, 110u8, 0u8],
    ]
}

/// The pattern of the `k`-th known key (see `known_key_patterns`).
fn known_key_pattern(k: usize) -> (p: Vec<u8>)
    requires
        k < 9,
    ensures
        p@ == known_key_patterns()[k as int],
        p@.len() > 0,
{
    let p = if k == 0 {
        vec![0u8, 104u8, 111u8, 115u8, 116u8, 105u8, 112u8, 0u8]
    } else if k == 1 {
        vec![0u8, 104u8, 111u8, 115u8, 116u8, 112u8, 111u8, 114u8, 116u8, 0u8]
    } else if k == 2 {
        vec![0u8, 103u8, 97u8, 109u8, 101u8, 95u8, 105u8, 100u8, 0u8]
    } else if k == 3 {
        vec![0u8, 103u8, 97u8, 109u8, 101u8, 116u8, 121u8, 112u8, 101u8, 0u8]
    } else if k == 4 {
        vec![0u8, 109u8, 97u8, 112u8, 0u8]
    } else if k == 5 {
        vec![0u8, 109u8, 97u8, 120u8, 112u8, 108u8, 97u8, 121u8, 101u8, 114u8, 115u8, 0u8]
    } else if k == 6 {
        vec![0u8, 110u8, 117u8, 109u8, 112u8, 108u8, 97u8, 121u8, 101u8, 114u8, 115u8, 0u8]
    } else if k == 7 {
        vec![0u8, 112u8, 108u8, 117u8, 103u8, 105u8, 110u8, 115u8, 0u8]
    } else {
        vec![0u8, 118u8, 101u8, 114u8, 115u8, 105u8, 111u8, 110u8, 0u8]
    };
    assert(p@ =~= known_key_patterns()[k as int]);
    p
}

/// The earliest position in `rest` of any of the first `n` known key patterns.
pub open spec fn earliest_key(rest: Seq<u8>, n: int) -> Option<int>
    decreases n,
{
    if n <= 0 {
        None
    } else {
        let prev = earliest_key(rest, n - 1);
        match find_sub(rest, known_key_patterns()[n - 1]) {
            Some(i) => match prev {
                Some(j) => if i < j {
                    Some(i)
                } else {
                    Some(j)
                },
                None => Some(i),
            },
            None => prev,
        }
    }
}

/// A found pattern lies inside the searched bytes.
pub proof fn lemma_find_sub_from(h: Seq<u8>, needle: Seq<u8>, i: int)
    ensures
        find_sub_from(h, needle, i) matches Some(k) ==> 0 <= k && k + needle.len() <= h.len(),
    decreases h.len() - i,
{
    if !(i < 0 || needle.len() == 0 || i + needle.len() > h.len()) && h.subrange(
        i,
        i + needle.len(),
    ) != needle {
        lemma_find_sub_from(h, needle, i + 1);
    }
}

/// The earliest key position lies inside the searched bytes.
pub proof fn lemma_earliest_key(rest: Seq<u8>, n: int)
    ensures
        earliest_key(rest, n) matches Some(i) ==> 0 <= i <= rest.len(),
    decreases n,
{
    if n > 0 {
        lemma_earliest_key(rest, n - 1);
        lemma_find_sub_from(rest, known_key_patterns()[n - 1], 0);
    }
}

/// Where a hostname ends when no known key follows it: at the first pair of
/// zero bytes from `e` on, or at the last byte.
pub open spec fn double_zero_from(b: Seq<u8>, e: int) -> int
    decreases b.len() - e,
{
    if e >= b.len() - 1 || (b[e] == 0 && b[e + 1] == 0) {
        e
    } else {
        double_zero_from(b, e + 1)
    }
}

/// The end of a hostname lies at or after its start, and inside the bytes.
pub proof fn lemma_double_zero_from(b: Seq<u8>, e: int)
    ensures
        e <= double_zero_from(b, e),
        double_zero_from(b, e) <= b.len() || double_zero_from(b, e) == e,
    decreases b.len() - e,
{
    if !(e >= b.len() - 1 || (b[e] == 0 && b[e + 1] == 0)) {
        lemma_double_zero_from(b, e + 1);
    }
}

/// The text of UTF-8 bytes, or the empty text when they are not UTF-8.
pub open spec fn utf8_or_empty(b: Seq<u8>) -> Seq<char> {
    if vstd::utf8::valid_utf8(b) {
        vstd::utf8::decode_utf8(b)
    } else {
        Seq::empty()
    }
}

/// A `u32` as `str::parse` reads it, if it parses.
pub open spec fn u32_of(s: Seq<char>) -> Option<u32> {
    match parse_unsigned(s, u32::MAX as nat) {
        Some(n) => Some(n as u32),
        None => None,
    }
}

/// A `u16` as `str::parse` reads it, if it parses.
pub open spec fn u16_of(s: Seq<char>) -> Option<u16> {
    match parse_unsigned(s, u16::MAX as nat) {
        Some(n) => Some(n as u16),
        None => None,
    }
}

/// The raw response with the value of one key set; unknown keys change nothing.
pub open spec fn set_query_field(raw: QueryRaw, key: Seq<char>, value: Seq<char>) -> QueryRaw {
    if key == "numplayers"@ {
        QueryRaw { numplayers: u32_of(value), ..raw }
    } else if key == "maxplayers"@ {
        QueryRaw { maxplayers: u32_of(value), ..raw }
    } else if key == "hostport"@ {
        QueryRaw { hostport: u16_of(value), ..raw }
    } else if key == "hostip"@ {
        QueryRaw { hostip: Some(value), ..raw }
    } else if key == "gametype"@ {
        QueryRaw { gametype: Some(value), ..raw }
    } else if key == "game_id"@ {
        QueryRaw { game_id: Some(value), ..raw }
    } else if key == "map"@ {
        QueryRaw { map: Some(value), ..raw }
    } else if key == "version"@ {
        QueryRaw { version: Some(value), ..raw }
    } else if key == "plugins"@ {
        QueryRaw { plugins: Some(value), ..raw }
    } else {
        raw
    }
}

/// The key/value section of a query answer from `pos` on, read into `raw`:
/// the fields read and where the section ends, or `None` where a key runs to
/// the end of the data with no value after it.
///
/// Each key and value ends at a zero byte, and reading goes on right after
/// that byte, whatever bytes the key or value holds; an empty key ends the
/// section.
/// The `hostname` value may hold zero bytes: it ends where the earliest known
/// key follows (or, failing that, at a pair of zero bytes), and is kept when
/// it is UTF-8.
pub open spec fn kv_section(body: Seq<u8>, pos: int, raw: QueryRaw) -> Option<(QueryRaw, int)>
    decreases body.len() + 1 - pos,
{
    if pos < 0 || pos >= body.len() {
        Some((raw, pos))
    } else {
        let key = iso_at(body, pos);
        let p1 = zero_end(body, pos) + 1;
        if key.len() == 0 {
            Some(
                (
                    raw,
                    if p1 < body.len() && body[p1] == 0 {
                        p1 + 1
                    } else {
                        p1
                    },
                ),
            )
        } else if p1 > body.len() {
            None
        } else if key == "hostname"@ {
            let rest = body.subrange(p1, body.len() as int);
            let motd_end = match earliest_key(rest, 9) {
                Some(i) => p1 + i,
                None => double_zero_from(body, p1),
            };
            let raw2 = if motd_end > p1 {
                QueryRaw { hostname: Some(utf8_or_empty(body.subrange(p1, motd_end))), ..raw }
            } else {
                raw
            };
            let p2 = if motd_end < body.len() && body[motd_end] == 0 {
                motd_end + 1
            } else {
                motd_end
            };
            proof {
                lemma_zero_end(body, pos);
                lemma_earliest_key(rest, 9);
                lemma_double_zero_from(body, p1);
            }
            kv_section(body, p2, raw2)
        } else {
            let value = iso_at(body, p1);
            let p2 = zero_end(body, p1) + 1;
            proof {
                lemma_zero_end(body, pos);
                lemma_zero_end(body, p1);
            }
            kv_section(body, p2, set_query_field(raw, key, value))
        }
    }
}

/// A run of non-zero bytes followed by a zero byte ends at that zero byte.
proof fn lemma_zero_end_after(b: Seq<u8>, p: int, k: Seq<u8>)
    requires
        0 <= p,
        p + k.len() < b.len(),
        b.subrange(p, p + k.len()) == k,
        b[p + k.len()] == 0,
        forall|j: int| 0 <= j < k.len() ==> k[j] != 0,
    ensures
        zero_end(b, p) == p + k.len(),
        iso_at(b, p) == latin1_decode(k),
{
    lemma_zero_end(b, p);
    let e = zero_end(b, p);
    if e > p + k.len() {
        assert(b[p + k.len()] != 0);
    }
    if e < p + k.len() {
        assert(b.subrange(p, p + k.len())[e - p] == b[e]);
    }
}

/// In the key/value section, a known key followed by its value (each ended
/// by a zero byte) fills the field of the same name and reading goes on
/// after the value: `hostip`, `gametype`, `game_id`, `map`, `version` and
/// `plugins` take the value's text, and `numplayers`, `maxplayers` and
/// `hostport` the number it writes in decimal.
pub proof fn lemma_query_known_key(
    body: Seq<u8>,
    pos: int,
    raw: QueryRaw,
    key: Seq<u8>,
    value: Seq<u8>,
    next: int,
    n: u32,
    port: u16,
)
    requires
        0 <= pos,
        next == pos + key.len() + value.len() + 2,
        next <= body.len(),
        body.subrange(pos, next) == key.push(0u8) + value.push(0u8),
        forall|j: int| 0 <= j < key.len() ==> key[j] != 0,
        forall|j: int| 0 <= j < value.len() ==> value[j] != 0,
    ensures
        latin1_decode(key) == "hostip"@ ==> kv_section(body, pos, raw) == kv_section(
            body,
            next,
            QueryRaw { hostip: Some(latin1_decode(value)), ..raw },
        ),
        latin1_decode(key) == "gametype"@ ==> kv_section(body, pos, raw) == kv_section(
            body,
            next,
            QueryRaw { gametype: Some(latin1_decode(value)), ..raw },
        ),
        latin1_decode(key) == "game_id"@ ==> kv_section(body, pos, raw) == kv_section(
            body,
            next,
            QueryRaw { game_id: Some(latin1_decode(value)), ..raw },
        ),
        latin1_decode(key) == "map"@ ==> kv_section(body, pos, raw) == kv_section(
            body,
            next,
            QueryRaw { map: Some(latin1_decode(value)), ..raw },
        ),
        latin1_decode(key) == "version"@ ==> kv_section(body, pos, raw) == kv_section(
            body,
            next,
            QueryRaw { version: Some(latin1_decode(value)), ..raw },
        ),
        latin1_decode(key) == "plugins"@ ==> kv_section(body, pos, raw) == kv_section(
            body,
            next,
            QueryRaw { plugins: Some(latin1_decode(value)), ..raw },
        ),
        latin1_decode(key) == "numplayers"@ && latin1_decode(value) == decimal(n as nat)
            ==> kv_section(body, pos, raw) == kv_section(
            body,
            next,
            QueryRaw { numplayers: Some(n), ..raw },
        ),
        latin1_decode(key) == "maxplayers"@ && latin1_decode(value) == decimal(n as nat)
            ==> kv_section(body, pos, raw) == kv_section(
            body,
            next,
            QueryRaw { maxplayers: Some(n), ..raw },
        ),
        latin1_decode(key) == "hostport"@ && latin1_decode(value) == decimal(port as nat)
            ==> kv_section(body, pos, raw) == kv_section(
            body,
            next,
            QueryRaw { hostport: Some(port), ..raw },
        ),
{
    let k = key.len() as int;
    let p1 = pos + k + 1;
    assert(body.subrange(pos, pos + k) =~= key);
    assert(body[pos + k] == (key.push(0u8) + value.push(0u8))[k]);
    lemma_zero_end_after(body, pos, key);
    assert(body.subrange(p1, p1 + value.len()) =~= value) by {
        assert forall|j: int| 0 <= j < value.len() implies body.subrange(p1, p1 + value.len())[j]
            == value[j] by {
            assert(body[p1 + j] == body.subrange(pos, next)[k + 1 + j]);
        }
    }
    assert(body[p1 + value.len()] == body.subrange(pos, next)[k + 1 + value.len()]);
    lemma_zero_end_after(body, p1, value);
    lemma_parse_decimal(n as nat, u32::MAX as nat);
    lemma_parse_decimal(port as nat, u16::MAX as nat);
    reveal_strlit("hostname");
    reveal_strlit("numplayers");
    reveal_strlit("maxplayers");
    reveal_strlit("hostport");
    reveal_strlit("hostip");
    reveal_strlit("gametype");
    reveal_strlit("game_id");
    reveal_strlit("map");
    reveal_strlit("version");
    reveal_strlit("plugins");
    let kd = latin1_decode(key);
    if kd == "hostip"@ || kd == "gametype"@ || kd == "game_id"@ || kd == "map"@ || kd
        == "version"@ || kd == "plugins"@ || kd == "numplayers"@ || kd == "maxplayers"@ || kd
        == "hostport"@ {
        assert(kd.len() > 0);
        assert(kd != "hostname"@) by {
            if kd == "hostname"@ {
                assert(kd[4] == "hostname"@[4]);
            }
        }
    }
    if kd == "gametype"@ {
        assert(kd[0] != "hostport"@[0]);
        assert(kd != "hostport"@);
    }
    if kd == "maxplayers"@ {
        assert(kd[0] != "numplayers"@[0]);
        assert(kd != "numplayers"@);
    }
    if kd == "hostport"@ {
        assert(kd[4] != "numplayers"@[4]);
    }
    if kd == "hostip"@ {
        assert(kd.len() != "hostport"@.len());
    }
    if kd == "plugins"@ {
        assert(kd[0] != "game_id"@[0]);
        assert(kd[0] != "version"@[0]);
        assert(kd != "game_id"@ && kd != "version"@);
    }
    if kd == "game_id"@ {
        assert(kd.len() != "gametype"@.len() && kd.len() != "hostport"@.len());
    }
    if kd == "version"@ {
        assert(kd[0] != "game_id"@[0]);
        assert(kd != "game_id"@);
    }
}

/// The player names from `pos` on: zero-terminated names up to the first
/// empty one or the end.
pub open spec fn players_from(body: Seq<u8>, pos: int) -> Seq<Seq<char>>
    decreases body.len() + 1 - pos,
{
    if pos < 0 || pos >= body.len() {
        Seq::empty()
    } else {
        let p = iso_at(body, pos);
        if p.len() == 0 {
            Seq::empty()
        } else {
            proof {
                lemma_zero_end(body, pos);
            }
            seq![p] + players_from(body, zero_end(body, pos) + 1)
        }
    }
}

/// The players section of a query answer from `pos` on: zero bytes are
/// skipped, and the names follow a `\x01player_\0` marker. `None` where a
/// `\x01` byte ends the data.
pub open spec fn players_section(body: Seq<u8>, pos: int) -> Option<Seq<Seq<char>>>
    decreases body.len() + 1 - pos,
{
    if pos < 0 || pos >= body.len() {
        Some(Seq::empty())
    } else if body[pos] == 0 {
        players_section(body, pos + 1)
    } else if body[pos] == 1 {
        let q = pos + 1;
        if iso_at(body, q) == "player_"@ {
            Some(players_from(body, q + 8))
        } else if q >= body.len() {
            None
        } else if body[q] == 0 {
            players_section(body, q + 1)
        } else {
            Some(Seq::empty())
        }
    } else {
        Some(Seq::empty())
    }
}

/// What reading a query answer gives.
pub ghost enum QueryParse {
    /// The answer is shorter than its header.
    TooShort,
    /// A key or marker is cut off by the end of the data, which the reader
    /// cannot step over.
    CutOff,
    /// The fields of the key/value section and the player names.
    Parsed(QueryRaw, Seq<Seq<char>>),
}

/// Reads a query answer: a 9-byte header (type, session ID, token), the
/// `splitnum` marker and its padding, the key/value section and the players
/// section.
pub open spec fn query_parse(data: Seq<u8>) -> QueryParse {
    if data.len() < 22 {
        QueryParse::TooShort
    } else {
        let body = data.skip(9);
        let p0 = zero_end(body, 0) + 1;
        let p1 = if p0 < body.len() && body[p0] == 0x80 {
            p0 + 1
        } else {
            p0
        };
        let p2 = if p1 < body.len() && body[p1] == 0 {
            p1 + 1
        } else {
            p1
        };
        match kv_section(body, p2, empty_query_raw()) {
            None => QueryParse::CutOff,
            Some((raw, p)) => match players_section(body, p) {
                None => QueryParse::CutOff,
                Some(players) => QueryParse::Parsed(raw, players),
            },
        }
    }
}


/// The byte position where the earliest known key follows a hostname that
/// starts at `start` (see `earliest_key`).
fn earliest_key_exec(body: &[u8], start: usize) -> (r: Option<usize>)
    requires
        start <= body.len(),
    ensures
        r == (match earliest_key(body@.subrange(start as int, body.len() as int), 9) {
            Some(i) => Some(i as usize),
            None => None,
        }),
{
    let rest = &body[start..body.len()];
    let ghost rv = body@.subrange(start as int, body.len() as int);
    assert(rest@ == rv);
    let mut found: Option<usize> = None;
    let mut k: usize = 0;
    while k < 9
        invariant
            k <= 9,
            rest@ == rv,
            found == (match earliest_key(rv, k as int) {
                Some(i) => Some(i as usize),
                None => None,
            }),
            found matches Some(j) ==> j <= rv.len(),
            earliest_key(rv, k as int) matches Some(j) ==> 0 <= j <= rv.len(),
            rv.len() == body.len() - start,
        decreases 9 - k,
    {
        proof {
            lemma_earliest_key(rv, k as int);
            lemma_earliest_key(rv, k + 1);
            lemma_find_sub_from(rv, known_key_patterns()[k as int], 0);
        }
        let pat = known_key_pattern(k);
        let ghost pv = known_key_patterns()[k as int];
        let hit = find_subsequence(rest, pat.as_slice());
        assert(hit == (match find_sub(rv, pv) {
            Some(i) => Some(i as usize),
            None => None,
        }));
        assert(earliest_key(rv, k + 1) == (match find_sub(rv, pv) {
            Some(i) => match earliest_key(rv, k as int) {
                Some(j) => if i < j {
                    Some(i)
                } else {
                    Some(j)
                },
                None => Some(i),
            },
            None => earliest_key(rv, k as int),
        }));
        match hit {
            Some(i) => {
                match found {
                    Some(j) => {
                        if i < j {
                            found = Some(i);
                        }
                    },
                    None => {
                        found = Some(i);
                    },
                }
            },
            None => {},
        }
        k += 1;
    }
    found
}

/// The end of a hostname with no known key after it (see `double_zero_from`).
fn double_zero_exec(body: &[u8], start: usize) -> (e: usize)
    requires
        start <= body.len(),
        body.len() >= 1,
    ensures
        e == double_zero_from(body@, start as int),
{
    let mut e: usize = start;
    while e < body.len() - 1 && !(body[e] == 0 && body[e + 1] == 0)
        invariant
            start <= e <= body.len(),
            body.len() >= 1,
            double_zero_from(body@, start as int) == double_zero_from(body@, e as int),
        decreases body.len() - e,
    {
        e += 1;
    }
    e
}

/// Sets the field named by `key` (see `set_query_field`).
fn set_field(raw: &mut RawQueryResponse, key: &String, value: String)
    ensures
        final(raw)@ == set_query_field(old(raw)@, key@, value@),
{
    let k = key.as_str();
    if str_equal(k, "numplayers") {
        raw.numplayers = parse_u32(value.as_str());
    } else if str_equal(k, "maxplayers") {
        raw.maxplayers = parse_u32(value.as_str());
    } else if str_equal(k, "hostport") {
        raw.hostport = parse_u16(value.as_str());
    } else if str_equal(k, "hostip") {
        raw.hostip = Some(value);
    } else if str_equal(k, "gametype") {
        raw.gametype = Some(value);
    } else if str_equal(k, "game_id") {
        raw.game_id = Some(value);
    } else if str_equal(k, "map") {
        raw.map = Some(value);
    } else if str_equal(k, "version") {
        raw.version = Some(value);
    } else if str_equal(k, "plugins") {
        raw.plugins = Some(value);
    }
}

/// Reads the key/value section from `start` (see `kv_section`): `None`
/// where a key runs to the end of the data.
fn read_kv_section(body: &[u8], start: usize) -> (r: Option<(RawQueryResponse, usize)>)
    requires
        start <= body.len() + 1,
        body.len() >= 1,
        body.len() < usize::MAX,
    ensures
        match kv_section(body@, start as int, empty_query_raw()) {
            None => r is None,
            Some((raw, p)) => r matches Some((rr, q)) && rr@ == raw && q == p && q <= body.len()
                + 1,
        },
{
    let mut raw = RawQueryResponse::default();
    let mut pos: usize = start;
    loop
        invariant_except_break
            pos <= body.len() + 1,
            body.len() >= 1,
            body.len() < usize::MAX,
            kv_section(body@, start as int, empty_query_raw()) == kv_section(
                body@,
                pos as int,
                raw@,
            ),
        ensures
            pos <= body.len() + 1,
            kv_section(body@, start as int, empty_query_raw()) == Some((raw@, pos as int)),
        decreases body.len() + 1 - pos,
    {
        if pos >= body.len() {
            break;
        }
        proof {
            lemma_zero_end(body@, pos as int);
        }
        let (key, e) = read_iso_at(body, pos);
        let p1 = e + 1;
        if key.as_str().is_empty() {
            pos = p1;
            if pos < body.len() && body[pos] == 0 {
                pos += 1;
            }
            break;
        }
        if p1 > body.len() {
            return None;
        }
        if str_equal(key.as_str(), "hostname") {
            let ghost rest = body@.subrange(p1 as int, body.len() as int);
            proof {
                lemma_earliest_key(rest, 9);
                lemma_double_zero_from(body@, p1 as int);
            }
            let motd_end = match earliest_key_exec(body, p1) {
                Some(i) => p1 + i,
                None => double_zero_exec(body, p1),
            };
            if motd_end > p1 {
                let bytes = vstd::slice::slice_to_vec(&body[p1..motd_end]);
                let ghost bv = body@.subrange(p1 as int, motd_end as int);
                assert(bytes@ == bv);
                let h = match string_from_utf8(bytes) {
                    Ok(s) => s,
                    Err(_) => String::new(),
                };
                assert(h@ == utf8_or_empty(bv));
                raw.hostname = Some(h);
            }
            pos = motd_end;
            if pos < body.len() && body[pos] == 0 {
                pos += 1;
            }
        } else {
            proof {
                lemma_zero_end(body@, p1 as int);
            }
            let (value, e2) = read_iso_at(body, p1);
            set_field(&mut raw, &key, value);
            pos = e2 + 1;
        }
    }
    Some((raw, pos))
}

/// Reads the player names from `start` (see `players_from`), appending them.
fn read_player_names(body: &[u8], start: usize, players: &mut Vec<String>)
    requires
        start <= body.len() + 1,
        body.len() < usize::MAX,
    ensures
        strings_view(final(players)@) == strings_view(old(players)@) + players_from(
            body@,
            start as int,
        ),
{
    let mut pos: usize = start;
    let ghost base = strings_view(players@);
    assert(base + Seq::<Seq<char>>::empty() =~= base);
    loop
        invariant_except_break
            pos <= body.len() + 1,
            body.len() < usize::MAX,
            base + players_from(body@, start as int) == strings_view(players@) + players_from(
                body@,
                pos as int,
            ),
        ensures
            base + players_from(body@, start as int) == strings_view(players@),
        decreases body.len() + 1 - pos,
    {
        if pos >= body.len() {
            assert(strings_view(players@) + Seq::<Seq<char>>::empty() =~= strings_view(players@));
            break;
        }
        proof {
            lemma_zero_end(body@, pos as int);
        }
        let (player, e) = read_iso_at(body, pos);
        pos = e + 1;
        if player.as_str().is_empty() {
            assert(strings_view(players@) + Seq::<Seq<char>>::empty() =~= strings_view(players@));
            break;
        }
        let ghost before = strings_view(players@);
        players.push(player);
        assert(strings_view(players@) =~= before.push(player@));
        assert(before + (seq![player@] + players_from(body@, pos as int)) =~= before.push(player@)
            + players_from(body@, pos as int));
    }
}

/// Reads the players section from `start` (see `players_section`): `None`
/// where a `\x01` byte ends the data.
fn read_players_section(body: &[u8], start: usize) -> (r: Option<Vec<String>>)
    requires
        start <= body.len() + 1,
        body.len() < usize::MAX,
    ensures
        match players_section(body@, start as int) {
            None => r is None,
            Some(ps) => r matches Some(v) && strings_view(v@) == ps,
        },
{
    let mut players: Vec<String> = Vec::new();
    let mut pos: usize = start;
    loop
        invariant_except_break
            pos <= body.len() + 1,
            body.len() < usize::MAX,
            players@.len() == 0,
            players_section(body@, start as int) == players_section(body@, pos as int),
        ensures
            players_section(body@, start as int) == Some(strings_view(players@)),
        decreases body.len() + 1 - pos,
    {
        if pos >= body.len() {
            assert(strings_view(players@) =~= Seq::<Seq<char>>::empty());
            break;
        }
        if body[pos] == 0 {
            pos += 1;
            continue;
        }
        if body[pos] == 1 {
            let q = pos + 1;
            let (marker, e) = read_iso_at(body, q);
            proof {
                reveal_strlit("player_");
                lemma_zero_end(body@, q as int);
            }
            if str_equal(marker.as_str(), "player_") {
                read_player_names(body, q + 8, &mut players);
                assert(strings_view(players@) =~= Seq::<Seq<char>>::empty() + players_from(
                    body@,
                    q + 8,
                ));
                break;
            }
            if q >= body.len() {
                return None;
            }
            if body[q] == 0 {
                pos = q + 1;
            } else {
                assert(strings_view(players@) =~= Seq::<Seq<char>>::empty());
                break;
            }
        } else {
            assert(strings_view(players@) =~= Seq::<Seq<char>>::empty());
            break;
        }
    }
    Some(players)
}

/// Client for the GS4 Query protocol; `C` is the connection it talks over.
#[derive(Debug)]
pub struct QueryClient<C> {
    pub connection: C,
    pub challenge: i32,
}

impl<C> QueryClient<C> {
    /// Creates a new Query client.
    pub fn new(connection: C) -> (r: Self)
        ensures
            r.connection == connection,
            r.challenge == 0,
    {
        QueryClient { connection, challenge: 0 }
    }

    /// Generates a session ID (lower 4 bits of each byte only, per Minecraft spec).
    pub fn generate_session_id() -> (r: i32)
        ensures
            0 <= r,
            r & !0x0F0F_0F0Fi32 == 0,
    {
        let raw = random_below_i32_max();
        session_id_from_draw(raw)
    }

    /// Reads a query answer (see `query_parse`), or `None` where a key or
    /// marker is cut off by the end of the data.
    pub fn try_parse_response(data: &[u8]) -> (r: Option<
        Result<(RawQueryResponse, Vec<String>), McStatusError>,
    >)
        requires
            data@.len() < usize::MAX,
        ensures
            match query_parse(data@) {
                QueryParse::TooShort => r matches Some(Err(McStatusError::Protocol(m))) && m@
                    == "Query response too short"@,
                QueryParse::CutOff => r is None,
                QueryParse::Parsed(raw, players) => r matches Some(Ok((rr, ps))) && rr@ == raw
                    && strings_view(ps@) == players,
            },
    {
        if data.len() < 22 {
            return Some(Err(McStatusError::Protocol("Query response too short".to_owned())));
        }
        let body = &data[9..data.len()];
        assert(body@ == data@.skip(9));
        proof {
            lemma_zero_end(body@, 0);
        }
        let (_, e0) = read_iso_at(body, 0);
        let mut pos: usize = e0 + 1;
        if pos < body.len() && body[pos] == 0x80 {
            pos += 1;
        }
        if pos < body.len() && body[pos] == 0 {
            pos += 1;
        }
        match read_kv_section(body, pos) {
            None => None,
            Some((raw, p)) => match read_players_section(body, p) {
                None => None,
                Some(players) => Some(Ok((raw, players))),
            },
        }
    }

    /// Parses the raw query response into structured data.
    ///
    /// Data that is too short, or whose keys or marker run to its end, is
    /// refused as too short.
    pub fn parse_response(data: &[u8]) -> (r: Result<(RawQueryResponse, Vec<String>), McStatusError>)
        requires
            data@.len() < usize::MAX,
        ensures
            match query_parse(data@) {
                QueryParse::Parsed(raw, players) => r matches Ok((rr, ps)) && rr@ == raw
                    && strings_view(ps@) == players,
                _ => r matches Err(McStatusError::Protocol(m)) && m@ == "Query response too short"@,
            },
    {
        match Self::try_parse_response(data) {
            Some(r) => r,
            None => Err(McStatusError::Protocol("Query response too short".to_owned())),
        }
    }
}


/// The challenge request: the magic prefix, the challenge packet type and the
/// session ID (big-endian).
pub open spec fn handshake_bytes(session_id: i32) -> Seq<u8> {
    seq![0xFEu8, 0xFDu8, 9u8] + be_encode((session_id as u32) as nat, 4)
}

/// The full query request: the magic prefix, the query packet type, the
/// session ID and the challenge token (both big-endian), and four bytes of
/// padding.
pub open spec fn query_bytes(session_id: i32, challenge: i32) -> Seq<u8> {
    seq![0xFEu8, 0xFDu8, 0u8] + be_encode((session_id as u32) as nat, 4) + be_encode(
        (challenge as u32) as nat,
        4,
    ) + seq![0u8, 0u8, 0u8, 0u8]
}

/// The challenge token that a handshake answer carries: the text after the
/// type byte and the session ID, up to a zero byte, read as an `i32`.
pub open spec fn handshake_challenge(response: Seq<u8>) -> Option<int> {
    let t = response.skip(5);
    parse_signed_i32(utf8_lossy(t.subrange(0, zero_end(t, 0))))
}

impl<C> QueryClient<C> {
    /// Builds the challenge request for a session.
    pub fn handshake_packet(session_id: i32) -> (p: Vec<u8>)
        ensures
            p@ == handshake_bytes(session_id),
    {
        let mut packet = Buffer::new();
        packet.write_bytes(&MAGIC_PREFIX);
        packet.write_ubyte(PACKET_TYPE_CHALLENGE);
        packet.write_uint(session_id as u32);
        let v = packet.into_bytes();
        assert(v@ =~= handshake_bytes(session_id));
        v
    }

    /// Reads the challenge token from the handshake answer and keeps it.
    pub fn handle_handshake_response(&mut self, response: &[u8]) -> (r: Result<(), McStatusError>)
        ensures
            response@.len() < 6 ==> (r matches Err(McStatusError::Protocol(m)) && m@
                == "Query handshake response too short"@),
            response@.len() < 6 ==> final(self).challenge == old(self).challenge,
            response@.len() >= 6 ==> match handshake_challenge(response@) {
                Some(c) => r is Ok && final(self).challenge == c,
                None => (r matches Err(McStatusError::Protocol(m)) && m@
                    == "Invalid challenge token"@) && final(self).challenge == old(self).challenge,
            },
    {
        if response.len() < 6 {
            return Err(McStatusError::Protocol("Query handshake response too short".to_owned()));
        }
        let challenge_bytes = &response[5..response.len()];
        assert(challenge_bytes@ == response@.skip(5));
        let challenge_str = match read_null_terminated_ascii(challenge_bytes) {
            Ok(s) => s,
            Err(e) => {
                return Err(e);
            },
        };
        match parse_i32(challenge_str.as_str()) {
            Some(c) => {
                self.challenge = c;
                Ok(())
            },
            None => Err(McStatusError::Protocol("Invalid challenge token".to_owned())),
        }
    }

    /// Builds the full query request for a session, with the challenge token
    /// of the handshake.
    pub fn query_packet(&self, session_id: i32) -> (p: Vec<u8>)
        ensures
            p@ == query_bytes(session_id, self.challenge),
    {
        let mut packet = Buffer::new();
        packet.write_bytes(&MAGIC_PREFIX);
        packet.write_ubyte(PACKET_TYPE_QUERY);
        packet.write_uint(session_id as u32);
        packet.write_uint(self.challenge as u32);
        packet.write_bytes(&PADDING);
        let v = packet.into_bytes();
        assert(v@ =~= query_bytes(session_id, self.challenge));
        v
    }
}

} // verus!
