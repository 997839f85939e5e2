//! The Motd struct — parses raw MOTD data and provides transformation methods.
use vstd::prelude::*;

use super::components::{
    color_code, color_of_code, formatting_code, formatting_of_code, plain_text, Component, Formatting,
    MinecraftColor, MotdComponent, WebColor,
};
use super::simplify::{list_view, simplified, simplify, ComponentList};
use super::transform;
use crate::buffer::{hex_digit_value, hex_value, is_hex_digit};
use crate::json::{
    json_bool, json_field, json_same, json_str, lemma_member_index, member_index,
    JsonValue,
};
use crate::text::{chars_of, push_char};

verus! {

/// The raw MOTD input.
#[derive(Debug)]
pub enum MotdRaw {
    /// A legacy string with §/& codes.
    String(String),
    /// A modern JSON chat component.
    Json(JsonValue),
}

/// A parsed Message of the Day from a Minecraft server.
///
/// Can be constructed from either:
/// - A legacy string with `§` or `&` color codes
/// - A modern JSON chat component
#[derive(Debug)]
pub struct Motd {
    /// The parsed component list.
    pub parsed: ComponentList,
    /// The raw input (for round-tripping).
    pub raw: MotdRaw,
    /// Whether this was parsed from a Bedrock server response.
    pub bedrock: bool,
}

impl Motd {
    /// Parses a raw MOTD string (with § or & color codes).
    pub fn from_string(raw: &str, bedrock: bool) -> (r: Self)
        ensures
            list_view(&r.parsed) == legacy_components(raw@, 0),
            r.raw matches MotdRaw::String(s) && s@ == raw@,
            r.bedrock == bedrock,
    {
        let parsed = parse_legacy_string(raw);
        Motd { parsed, raw: MotdRaw::String(raw.to_owned()), bedrock }
    }

    /// Parses a raw MOTD from a JSON value (modern chat component).
    pub fn from_json(raw: &JsonValue, bedrock: bool) -> (r: Self)
        ensures
            list_view(&r.parsed) == json_components(*raw, no_style()),
            r.raw matches MotdRaw::Json(j) && json_same(j, *raw),
            r.bedrock == bedrock,
    {
        let parsed = parse_json_component(raw);
        Motd { parsed, raw: MotdRaw::Json(raw.deep_copy()), bedrock }
    }

    /// Simplifies the parsed MOTD in-place.
    pub fn simplify(&mut self)
        ensures
            list_view(&final(self).parsed) == simplified(list_view(&old(self).parsed)),
            final(self).raw == old(self).raw,
            final(self).bedrock == old(self).bedrock,
    {
        simplify(&mut self.parsed);
    }

    /// Returns the MOTD as plain text (no formatting or color).
    pub fn to_plain(&self) -> (s: String)
        ensures
            s@ == plain_text(list_view(&self.parsed)),
    {
        transform::to_plain(&self.parsed)
    }

    /// Returns the MOTD in Minecraft section-sign (§) format.
    pub fn to_minecraft(&self) -> (s: String)
        ensures
            s@ == transform::minecraft_text(list_view(&self.parsed)),
    {
        transform::to_minecraft(&self.parsed)
    }

    /// Returns the MOTD as HTML with inline CSS styles.
    pub fn to_html(&self) -> (s: String)
        ensures
            s@ == transform::html_fold(list_view(&self.parsed), 0),
    {
        transform::to_html(&self.parsed)
    }

    /// Returns the MOTD as ANSI 24-bit color escape codes.
    pub fn to_ansi(&self) -> (s: String)
        ensures
            s@ == transform::ansi_text(list_view(&self.parsed)),
    {
        transform::to_ansi(&self.parsed)
    }
}

// ── Legacy String Parser ─────────────────────────────────────────────────────

/// Whether a character introduces a formatting code (`§` or `&`).
pub open spec fn is_code_marker(ch: char) -> bool {
    ch == '§' || ch == '&'
}

/// Whether a formatting code starts at position `i`: a marker followed by a
/// color character, a formatting character, or `#` with at least six more
/// characters after it.
pub open spec fn code_starts_at(c: Seq<char>, i: int) -> bool {
    &&& 0 <= i
    &&& i + 1 < c.len()
    &&& is_code_marker(c[i])
    &&& (color_of_code(c[i + 1]) is Some || formatting_of_code(c[i + 1]) is Some || (c[i + 1]
        == '#' && i + 7 < c.len()))
}

/// Where a run of plain text starting at `i` ends: at the next code start or
/// at the end of the text.
pub open spec fn text_run_end(c: Seq<char>, i: nat) -> nat
    decreases c.len() - i,
{
    if i >= c.len() || code_starts_at(c, i as int) {
        i
    } else {
        text_run_end(c, i + 1)
    }
}

/// Whether the six characters after `c[i]` and `c[i + 1]` are hexadecimal digits.
pub open spec fn hex_color_at(c: Seq<char>, i: int) -> bool {
    forall|k: int| 0 <= k < 6 ==> is_hex_digit(#[trigger] c[i + 2 + k])
}

/// The byte written by the two hexadecimal digits at `j` and `j + 1`.
pub open spec fn hex_pair_at(c: Seq<char>, j: int) -> u8 {
    (hex_value(c[j]) * 16 + hex_value(c[j + 1])) as u8
}

/// The components of a legacy MOTD string from position `i` on.
///
/// A marker (`§` or `&`) followed by a color or formatting character gives
/// that color or formatting; followed by `#` and six hexadecimal digits it
/// gives a web color. Any other marker that is followed by a character is
/// kept as a text of its own. Other characters are collected into texts that
/// run up to the next code start.
pub open spec fn legacy_components(c: Seq<char>, i: nat) -> Seq<Component>
    decreases c.len() - i,
{
    if i >= c.len() {
        Seq::empty()
    } else if is_code_marker(c[i as int]) && i + 1 < c.len() {
        let code = c[(i + 1) as int];
        match color_of_code(code) {
            Some(m) => seq![Component::MinecraftColor(m)] + legacy_components(c, i + 2),
            None => match formatting_of_code(code) {
                Some(f) => seq![Component::Formatting(f)] + legacy_components(c, i + 2),
                None => if code == '#' && i + 7 < c.len() && hex_color_at(c, i as int) {
                    seq![
                        Component::WebColor(
                            WebColor::from_parts(
                                hex_pair_at(c, (i + 2) as int),
                                hex_pair_at(c, (i + 4) as int),
                                hex_pair_at(c, (i + 6) as int),
                            ),
                        ),
                    ] + legacy_components(c, i + 8)
                } else {
                    seq![Component::Text(seq![c[i as int]])] + legacy_components(c, i + 1)
                },
            },
        }
    } else {
        let e = text_run_end(c, i + 1);
        proof {
            lemma_text_run_end_bounds(c, i + 1);
        }
        seq![Component::Text(c.subrange(i as int, e as int))] + legacy_components(c, e)
    }
}

/// A run of text ends between its start and the end of the text.
pub proof fn lemma_text_run_end_bounds(c: Seq<char>, i: nat)
    ensures
        i <= c.len() ==> i <= text_run_end(c, i) <= c.len(),
    decreases c.len() - i,
{
    if i < c.len() && !code_starts_at(c, i as int) {
        lemma_text_run_end_bounds(c, i + 1);
    }
}

/// Whether a code starts at position `i` (see `code_starts_at`).
fn code_starts_at_exec(chars: &Vec<char>, i: usize) -> (r: bool)
    requires
        i < chars.len(),
    ensures
        r == code_starts_at(chars@, i as int),
{
    if i + 1 >= chars.len() {
        return false;
    }
    let ch = chars[i];
    if !(ch == '§' || ch == '&') {
        return false;
    }
    let next = chars[i + 1];
    MinecraftColor::from_code_char(next).is_some() || Formatting::from_code_char(next).is_some() || (
    next == '#' && chars.len() - i > 7)
}

/// A string made of `chars[start..end]`.
fn string_from_range(chars: &Vec<char>, start: usize, end: usize) -> (s: String)
    requires
        start <= end <= chars.len(),
    ensures
        s@ == chars@.subrange(start as int, end as int),
{
    let mut s = String::new();
    let mut j = start;
    while j < end
        invariant
            start <= j <= end <= chars.len(),
            s@ == chars@.subrange(start as int, j as int),
        decreases end - j,
    {
        push_char(&mut s, chars[j]);
        j += 1;
        assert(s@ =~= chars@.subrange(start as int, j as int));
    }
    s
}

/// The byte written by two hexadecimal digits.
fn hex_pair_exec(chars: &Vec<char>, j: usize) -> (b: u8)
    requires
        j + 1 < chars.len(),
        is_hex_digit(chars@[j as int]),
        is_hex_digit(chars@[j + 1]),
    ensures
        b == hex_pair_at(chars@, j as int),
{
    let hi = hex_digit_value(chars[j]).unwrap();
    let lo = hex_digit_value(chars[j + 1]).unwrap();
    hi * 16 + lo
}

/// Parses a legacy MOTD string with § or & formatting codes.
pub fn parse_legacy_string(raw: &str) -> (r: ComponentList)
    ensures
        list_view(&r) == legacy_components(raw@, 0),
{
    let chars = chars_of(raw);
    let ghost c = chars@;
    let n = chars.len();
    let mut components: ComponentList = Vec::new();
    let mut i: usize = 0;
    assert(list_view(&components) =~= Seq::<Component>::empty());
    while i < n
        invariant
            i <= n == chars.len(),
            c == chars@,
            c == raw@,
            legacy_components(c, 0) == list_view(&components) + legacy_components(c, i as nat),
        decreases n - i,
    {
        let ghost before = list_view(&components);
        let ch = chars[i];
        if (ch == '§' || ch == '&') && i + 1 < n {
            let code = chars[i + 1];
            if let Some(color) = MinecraftColor::from_code_char(code) {
                components.push(MotdComponent::MinecraftColor(color));
                assert(list_view(&components) =~= before + seq![Component::MinecraftColor(color)]);
                i += 2;
                continue;
            }
            if let Some(formatting) = Formatting::from_code_char(code) {
                components.push(MotdComponent::Formatting(formatting));
                assert(list_view(&components) =~= before + seq![Component::Formatting(formatting)]);
                i += 2;
                continue;
            }
            if code == '#' && n - i > 7 {
                let mut all_hex = true;
                let mut k: usize = 0;
                while k < 6
                    invariant
                        k <= 6,
                        i + 7 < n == chars.len(),
                        all_hex == (forall|m: int| 0 <= m < k ==> is_hex_digit(#[trigger] chars@[i + 2 + m])),
                    decreases 6 - k,
                {
                    if hex_digit_value(chars[i + 2 + k]).is_none() {
                        all_hex = false;
                    }
                    k += 1;
                }
                if all_hex {
                    proof {
                        assert(is_hex_digit(chars@[i + 2 + 0]));
                        assert(is_hex_digit(chars@[i + 2 + 1]));
                        assert(is_hex_digit(chars@[i + 2 + 2]));
                        assert(is_hex_digit(chars@[i + 2 + 3]));
                        assert(is_hex_digit(chars@[i + 2 + 4]));
                        assert(is_hex_digit(chars@[i + 2 + 5]));
                    }
                    let r = hex_pair_exec(&chars, i + 2);
                    let g = hex_pair_exec(&chars, i + 4);
                    let b = hex_pair_exec(&chars, i + 6);
                    let w = WebColor::new(r, g, b);
                    components.push(MotdComponent::WebColor(w));
                    assert(list_view(&components) =~= before + seq![Component::WebColor(w)]);
                    i += 8;
                    continue;
                }
            }
            // Not a recognized code — treat the marker as literal text
            let mut t = String::new();
            push_char(&mut t, ch);
            let ghost tv = t@;
            components.push(MotdComponent::Text(t));
            assert(tv =~= seq![c[i as int]]);
            assert(list_view(&components) =~= before + seq![Component::Text(seq![c[i as int]])]);
            i += 1;
            continue;
        }
        // Plain text — collect consecutive non-code characters
        let start = i;
        i += 1;
        while i < n
            invariant
                start < i <= n == chars.len(),
                c == chars@,
                text_run_end(c, (start + 1) as nat) == text_run_end(c, i as nat),
            ensures
                start < i <= n,
                text_run_end(c, (start + 1) as nat) == text_run_end(c, i as nat),
                i == n || code_starts_at(c, i as int),
            decreases n - i,
        {
            if code_starts_at_exec(&chars, i) {
                break;
            }
            i += 1;
        }
        proof {
            lemma_text_run_end_bounds(c, i as nat);
            assert(text_run_end(c, i as nat) == i);
        }
        let text = string_from_range(&chars, start, i);
        components.push(MotdComponent::Text(text));
        assert(list_view(&components) =~= before + seq![
            Component::Text(c.subrange(start as int, i as int)),
        ]);
    }
    components
}

/// Text without any `§` or `&` parses to that text alone.
pub proof fn lemma_legacy_plain_text(s: Seq<char>)
    requires
        s.len() > 0,
        forall|i: int| 0 <= i < s.len() ==> !is_code_marker(#[trigger] s[i]),
    ensures
        legacy_components(s, 0) == seq![Component::Text(s)],
{
    assert forall|j: nat| j <= s.len() implies text_run_end(s, j) == s.len() by {
        lemma_run_to_end(s, j);
    }
    assert(s.subrange(0, s.len() as int) =~= s);
    assert(legacy_components(s, s.len()) =~= Seq::<Component>::empty());
    assert(seq![Component::Text(s)] + Seq::<Component>::empty() =~= seq![Component::Text(s)]);
}

proof fn lemma_run_to_end(s: Seq<char>, j: nat)
    requires
        j <= s.len(),
        forall|i: int| 0 <= i < s.len() ==> !is_code_marker(#[trigger] s[i]),
    ensures
        text_run_end(s, j) == s.len(),
    decreases s.len() - j,
{
    if j < s.len() {
        assert(!is_code_marker(s[j as int]));
        lemma_run_to_end(s, j + 1);
    }
}

/// Whether a legacy text writes its codes only in the form that section-sign
/// rendering gives them: no `&` marker, no `#` and no upper-case letter.
pub open spec fn in_section_sign_form(c: Seq<char>) -> bool {
    forall|i: int| 0 <= i < c.len() ==> #[trigger] c[i] != '&' && c[i] != '#' && !('A' <= c[i] <= 'Z')
}

proof fn lemma_minecraft_text_append(a: Seq<Component>, b: Seq<Component>)
    ensures
        transform::minecraft_text(a + b) == transform::minecraft_text(a) + transform::minecraft_text(b),
    decreases b.len(),
{
    if b.len() == 0 {
        assert(a + b =~= a);
        assert(transform::minecraft_text(a) + transform::minecraft_text(b) =~= transform::minecraft_text(a));
    } else {
        lemma_minecraft_text_append(a, b.drop_last());
        assert((a + b).drop_last() =~= a + b.drop_last());
        assert((a + b).last() == b.last());
        assert(transform::minecraft_text(a) + transform::minecraft_text(b) =~= transform::minecraft_text(a)
            + transform::minecraft_text(b.drop_last()) + transform::minecraft_render(b.last()));
    }
}

proof fn lemma_minecraft_text_cons(x: Component, rest: Seq<Component>)
    ensures
        transform::minecraft_text(seq![x] + rest) == transform::minecraft_render(x) + transform::minecraft_text(rest),
{
    lemma_minecraft_text_append(seq![x], rest);
    assert(seq![x].drop_last() =~= Seq::<Component>::empty());
    assert(seq![x].last() == x);
    assert(transform::minecraft_text(Seq::<Component>::empty()) == Seq::<char>::empty());
    assert(Seq::<char>::empty() + transform::minecraft_render(x) =~= transform::minecraft_render(x));
    assert(transform::minecraft_text(seq![x]) =~= transform::minecraft_render(x));
}

proof fn lemma_color_code_back(ch: char)
    requires
        !('A' <= ch <= 'Z'),
        color_of_code(ch) is Some,
    ensures
        color_code(color_of_code(ch).unwrap()) == ch,
{
}

proof fn lemma_formatting_code_back(ch: char)
    requires
        !('A' <= ch <= 'Z'),
        formatting_of_code(ch) is Some,
    ensures
        formatting_code(formatting_of_code(ch).unwrap()) == ch,
{
}

proof fn lemma_legacy_render_from(c: Seq<char>, i: nat)
    requires
        in_section_sign_form(c),
        i <= c.len(),
    ensures
        transform::minecraft_text(legacy_components(c, i)) == c.skip(i as int),
    decreases c.len() - i,
{
    if i >= c.len() {
        assert(c.skip(i as int) =~= Seq::<char>::empty());
    } else if is_code_marker(c[i as int]) && i + 1 < c.len() {
        let code = c[(i + 1) as int];
        assert(c[i as int] == '§');
        assert(code != '#' && !('A' <= code <= 'Z'));
        match color_of_code(code) {
            Some(m) => {
                lemma_color_code_back(code);
                lemma_legacy_render_from(c, i + 2);
                lemma_minecraft_text_cons(Component::MinecraftColor(m), legacy_components(c, i + 2));
                assert(seq!['§', color_code(m)] + c.skip((i + 2) as int) =~= c.skip(i as int));
            },
            None => match formatting_of_code(code) {
                Some(f) => {
                    lemma_formatting_code_back(code);
                    lemma_legacy_render_from(c, i + 2);
                    lemma_minecraft_text_cons(Component::Formatting(f), legacy_components(c, i + 2));
                    assert(seq!['§', formatting_code(f)] + c.skip((i + 2) as int) =~= c.skip(i as int));
                },
                None => {
                    lemma_legacy_render_from(c, i + 1);
                    lemma_minecraft_text_cons(
                        Component::Text(seq![c[i as int]]),
                        legacy_components(c, i + 1),
                    );
                    assert(seq![c[i as int]] + c.skip((i + 1) as int) =~= c.skip(i as int));
                },
            },
        }
    } else {
        let e = text_run_end(c, i + 1);
        lemma_text_run_end_bounds(c, i + 1);
        lemma_legacy_render_from(c, e);
        lemma_minecraft_text_cons(Component::Text(c.subrange(i as int, e as int)), legacy_components(c, e));
        assert(c.subrange(i as int, e as int) + c.skip(e as int) =~= c.skip(i as int));
    }
}

/// A legacy text written the way section-sign rendering writes it (with `§`
/// markers, lower-case codes and no `#`) is given back unchanged when its
/// parse is rendered again: each code maps back to the same two characters,
/// and every other character, a lone or unknown `§` among them, is kept as
/// text.
pub proof fn lemma_legacy_render_roundtrip(c: Seq<char>)
    requires
        in_section_sign_form(c),
    ensures
        transform::minecraft_text(legacy_components(c, 0)) == c,
{
    lemma_legacy_render_from(c, 0);
    assert(c.skip(0) =~= c);
}

// ── Color names and web colors ───────────────────────────────────────────────

/// The named color that a color name denotes (e.g. `red`, `dark_blue`).
pub open spec fn color_of_name(s: Seq<char>) -> Option<MinecraftColor> {
    if s == "black"@ {
        Some(MinecraftColor::Black)
    } else if s == "dark_blue"@ {
        Some(MinecraftColor::DarkBlue)
    } else if s == "dark_green"@ {
        Some(MinecraftColor::DarkGreen)
    } else if s == "dark_aqua"@ {
        Some(MinecraftColor::DarkAqua)
    } else if s == "dark_red"@ {
        Some(MinecraftColor::DarkRed)
    } else if s == "dark_purple"@ {
        Some(MinecraftColor::DarkPurple)
    } else if s == "gold"@ {
        Some(MinecraftColor::Gold)
    } else if s == "gray"@ {
        Some(MinecraftColor::Gray)
    } else if s == "dark_gray"@ {
        Some(MinecraftColor::DarkGray)
    } else if s == "blue"@ {
        Some(MinecraftColor::Blue)
    } else if s == "green"@ {
        Some(MinecraftColor::Green)
    } else if s == "aqua"@ {
        Some(MinecraftColor::Aqua)
    } else if s == "red"@ {
        Some(MinecraftColor::Red)
    } else if s == "light_purple"@ {
        Some(MinecraftColor::LightPurple)
    } else if s == "yellow"@ {
        Some(MinecraftColor::Yellow)
    } else if s == "white"@ {
        Some(MinecraftColor::White)
    } else if s == "minecoin_gold"@ {
        Some(MinecraftColor::MinecoinGold)
    } else {
        None
    }
}

impl MinecraftColor {
    /// Parses a Minecraft color from its name string (e.g. "red", "dark_blue").
    pub fn from_code_str(s: &str) -> (r: Option<MinecraftColor>)
        ensures
            r == color_of_name(s@),
    {
        if crate::json::str_equal(s, "black") {
            Some(MinecraftColor::Black)
        } else if crate::json::str_equal(s, "dark_blue") {
            Some(MinecraftColor::DarkBlue)
        } else if crate::json::str_equal(s, "dark_green") {
            Some(MinecraftColor::DarkGreen)
        } else if crate::json::str_equal(s, "dark_aqua") {
            Some(MinecraftColor::DarkAqua)
        } else if crate::json::str_equal(s, "dark_red") {
            Some(MinecraftColor::DarkRed)
        } else if crate::json::str_equal(s, "dark_purple") {
            Some(MinecraftColor::DarkPurple)
        } else if crate::json::str_equal(s, "gold") {
            Some(MinecraftColor::Gold)
        } else if crate::json::str_equal(s, "gray") {
            Some(MinecraftColor::Gray)
        } else if crate::json::str_equal(s, "dark_gray") {
            Some(MinecraftColor::DarkGray)
        } else if crate::json::str_equal(s, "blue") {
            Some(MinecraftColor::Blue)
        } else if crate::json::str_equal(s, "green") {
            Some(MinecraftColor::Green)
        } else if crate::json::str_equal(s, "aqua") {
            Some(MinecraftColor::Aqua)
        } else if crate::json::str_equal(s, "red") {
            Some(MinecraftColor::Red)
        } else if crate::json::str_equal(s, "light_purple") {
            Some(MinecraftColor::LightPurple)
        } else if crate::json::str_equal(s, "yellow") {
            Some(MinecraftColor::Yellow)
        } else if crate::json::str_equal(s, "white") {
            Some(MinecraftColor::White)
        } else if crate::json::str_equal(s, "minecoin_gold") {
            Some(MinecraftColor::MinecoinGold)
        } else {
            None
        }
    }
}

/// The text with its leading `#` characters removed.
pub open spec fn strip_hashes(s: Seq<char>) -> Seq<char>
    decreases s.len(),
{
    if s.len() > 0 && s[0] == '#' {
        strip_hashes(s.drop_first())
    } else {
        s
    }
}

/// The byte that two characters give when read as a base-16 number, which
/// may carry a leading `+` sign.
pub open spec fn radix16_pair(a: char, b: char) -> Option<u8> {
    if is_hex_digit(a) && is_hex_digit(b) {
        Some((hex_value(a) * 16 + hex_value(b)) as u8)
    } else if a == '+' && is_hex_digit(b) {
        Some(hex_value(b) as u8)
    } else {
        None
    }
}

/// The web color written as six base-16 characters (two per component),
/// after any leading `#`.
pub open spec fn web_color_of(s: Seq<char>) -> Option<WebColor> {
    let t = strip_hashes(s);
    if t.len() == 6 && is_ascii_text(t) {
        match (radix16_pair(t[0], t[1]), radix16_pair(t[2], t[3]), radix16_pair(t[4], t[5])) {
            (Some(r), Some(g), Some(b)) => Some(WebColor::from_parts(r, g, b)),
            _ => None,
        }
    } else {
        None
    }
}

/// Whether a color text can be cut into two-byte pieces: an ASCII text, or
/// one that is not 6 bytes long, or one whose bytes 2 and 4 start characters.
pub open spec fn web_color_text_ok(s: Seq<char>) -> bool {
    let t = strip_hashes(s);
    let b = vstd::utf8::encode_utf8(t);
    is_ascii_text(t) || b.len() != 6 || (vstd::utf8::is_char_boundary(b, 2)
        && vstd::utf8::is_char_boundary(b, 4))
}

/// Whether a character is ASCII.
pub open spec fn is_ascii_char(c: char) -> bool {
    c <= '\u{7f}'
}

/// Whether every character of a text is ASCII.
pub open spec fn is_ascii_text(s: Seq<char>) -> bool {
    forall|i: int| 0 <= i < s.len() ==> is_ascii_char(#[trigger] s[i])
}

/// Reads two characters as a base-16 byte (see `radix16_pair`).
fn radix16_pair_exec(a: char, b: char) -> (r: Option<u8>)
    ensures
        r == radix16_pair(a, b),
{
    match (hex_digit_value(a), hex_digit_value(b)) {
        (Some(x), Some(y)) => Some(x * 16 + y),
        (None, Some(y)) => if a == '+' {
            Some(y)
        } else {
            None
        },
        _ => None,
    }
}

/// The characters of `chars` from the first that is not `#` on.
fn skip_hashes(chars: &Vec<char>) -> (k: usize)
    ensures
        k <= chars.len(),
        chars@.skip(k as int) == strip_hashes(chars@),
{
    let mut k: usize = 0;
    assert(chars@.skip(0) =~= chars@);
    while k < chars.len() && chars[k] == '#'
        invariant
            k <= chars.len(),
            strip_hashes(chars@) == strip_hashes(chars@.skip(k as int)),
        decreases chars.len() - k,
    {
        assert(chars@.skip(k as int).drop_first() =~= chars@.skip(k + 1));
        k += 1;
    }
    assert(chars@.skip(k as int) =~= Seq::<char>::empty() || chars@.skip(k as int)[0] != '#');
    k
}

/// Parses a web color written as six hexadecimal digits after any leading `#`.
pub fn parse_web_color(s: &str) -> (r: Option<WebColor>)
    requires
        web_color_text_ok(s@),
    ensures
        r == web_color_of(s@),
{
    let chars = chars_of(s);
    let k = skip_hashes(&chars);
    let ghost t = chars@.skip(k as int);
    if chars.len() - k != 6 {
        return None;
    }
    let mut j: usize = k;
    while j < chars.len()
        invariant
            k <= j <= chars.len(),
            t == chars@.skip(k as int),
            t == strip_hashes(s@),
            t.len() == 6,
            forall|m: int| k <= m < j ==> is_ascii_char(#[trigger] chars@[m]),
        decreases chars.len() - j,
    {
        let c = chars[j];
        assert(c == chars@[j as int]);
        if c > '\u{7f}' {
            assert(t[j - k] == chars@[j as int]);
            assert(!is_ascii_text(t));
            return None;
        }
        j += 1;
    }
    assert(is_ascii_text(t)) by {
        assert forall|i: int| 0 <= i < t.len() implies is_ascii_char(#[trigger] t[i]) by {
            assert(t[i] == chars@[k + i]);
        }
    }
    let r = radix16_pair_exec(chars[k], chars[k + 1]);
    let g = radix16_pair_exec(chars[k + 2], chars[k + 3]);
    let b = radix16_pair_exec(chars[k + 4], chars[k + 5]);
    assert(t[0] == chars@[k as int] && t[1] == chars@[k + 1] && t[2] == chars@[k + 2] && t[3]
        == chars@[k + 3] && t[4] == chars@[k + 4] && t[5] == chars@[k + 5]);
    match (r, g, b) {
        (Some(r), Some(g), Some(b)) => Some(WebColor::new(r, g, b)),
        _ => None,
    }
}

/// The web color of a color text, if it is one; texts that are not ASCII
/// never are.
fn json_web_color(s: &str) -> (r: Option<WebColor>)
    ensures
        r == web_color_of(s@),
{
    let chars = chars_of(s);
    let k = skip_hashes(&chars);
    let mut j: usize = k;
    while j < chars.len()
        invariant
            k <= j <= chars.len(),
            chars@.skip(k as int) == strip_hashes(s@),
            forall|m: int| k <= m < j ==> is_ascii_char(#[trigger] chars@[m]),
        decreases chars.len() - j,
    {
        let c = chars[j];
        assert(c == chars@[j as int]);
        if c > '\u{7f}' {
            proof {
                assert(chars@.skip(k as int)[j - k] == chars@[j as int]);
                assert(!is_ascii_text(chars@.skip(k as int)));
            }
            return None;
        }
        j += 1;
    }
    proof {
        let t = chars@.skip(k as int);
        assert forall|i: int| 0 <= i < t.len() implies is_ascii_char(#[trigger] t[i]) by {
            assert(t[i] == chars@[k + i]);
        }
    }
    parse_web_color(s)
}

// ── JSON Chat Component Parser ───────────────────────────────────────────────

/// The style in effect for a JSON chat component.
pub ghost struct Style {
    pub bold: Option<bool>,
    pub italic: Option<bool>,
    pub underlined: Option<bool>,
    pub strikethrough: Option<bool>,
    pub obfuscated: Option<bool>,
    pub color: Option<Seq<char>>,
}

/// No style set.
pub open spec fn no_style() -> Style {
    Style {
        bold: None,
        italic: None,
        underlined: None,
        strikethrough: None,
        obfuscated: None,
        color: None,
    }
}

/// A value's own setting, if it has one, else the inherited one.
pub open spec fn override_with<T>(own: Option<T>, inherited: Option<T>) -> Option<T> {
    match own {
        Some(x) => Some(x),
        None => inherited,
    }
}

/// The style of a chat component object: its own `color`, `bold`, `italic`,
/// `underlined`, `strikethrough` and `obfuscated` members (when they have the
/// right type) override the inherited style.
pub open spec fn style_of(v: JsonValue, inherited: Style) -> Style {
    Style {
        bold: override_with(json_bool(json_field(v, "bold"@)), inherited.bold),
        italic: override_with(json_bool(json_field(v, "italic"@)), inherited.italic),
        underlined: override_with(json_bool(json_field(v, "underlined"@)), inherited.underlined),
        strikethrough: override_with(
            json_bool(json_field(v, "strikethrough"@)),
            inherited.strikethrough,
        ),
        obfuscated: override_with(json_bool(json_field(v, "obfuscated"@)), inherited.obfuscated),
        color: override_with(json_str(json_field(v, "color"@)), inherited.color),
    }
}

/// A formatting code when the flag is set to true.
pub open spec fn flag_component(flag: Option<bool>, f: Formatting) -> Seq<Component> {
    if flag == Some(true) {
        seq![Component::Formatting(f)]
    } else {
        Seq::empty()
    }
}

/// The color component of a color name or web color text, if it is one.
pub open spec fn color_component(color: Option<Seq<char>>) -> Seq<Component> {
    match color {
        Some(c) => match color_of_name(c) {
            Some(m) => seq![Component::MinecraftColor(m)],
            None => match web_color_of(c) {
                Some(w) => seq![Component::WebColor(w)],
                None => Seq::empty(),
            },
        },
        None => Seq::empty(),
    }
}

/// The components that a style emits: its color first (a color resets
/// formatting), then its active formatting codes.
pub open spec fn style_components(st: Style) -> Seq<Component> {
    color_component(st.color) + flag_component(st.bold, Formatting::Bold) + flag_component(
        st.italic,
        Formatting::Italic,
    ) + flag_component(st.underlined, Formatting::Underlined) + flag_component(
        st.strikethrough,
        Formatting::Strikethrough,
    ) + flag_component(st.obfuscated, Formatting::Obfuscated)
}

/// The components of a text: nothing when empty, the legacy codes when it
/// holds a `§` or `&`, else the text itself.
pub open spec fn text_components(s: Seq<char>) -> Seq<Component> {
    if s.len() == 0 {
        Seq::empty()
    } else if exists|i: int| 0 <= i < s.len() && is_code_marker(#[trigger] s[i]) {
        legacy_components(s, 0)
    } else {
        seq![Component::Text(s)]
    }
}

/// The components of a JSON chat component, with `inherited` the style of
/// its parent: a string is a text; an object emits its style, its
/// translation tag, its text, then the components of each item of its
/// `extra` array in that style; any other value emits nothing.
pub open spec fn json_components(v: JsonValue, inherited: Style) -> Seq<Component>
    decreases v,
{
    match v {
        JsonValue::String(s) => text_components(s@),
        JsonValue::Object(entries) => {
            let st = style_of(v, inherited);
            let translation = match json_str(json_field(v, "translate"@)) {
                Some(id) => seq![Component::TranslationTag(id)],
                None => Seq::empty(),
            };
            let text = match json_str(json_field(v, "text"@)) {
                Some(t) => text_components(t),
                None => Seq::empty(),
            };
            let extra = match member_index(entries@, "extra"@) {
                Some(k) => if k < entries@.len() {
                    match entries@[k as int].1 {
                        JsonValue::Array(items) => json_list_components(items@, st),
                        _ => Seq::empty(),
                    }
                } else {
                    Seq::empty()
                },
                None => Seq::empty(),
            };
            style_components(st) + translation + text + extra
        },
        _ => Seq::empty(),
    }
}

/// The components of each item of a list, in order, all in style `st`.
pub open spec fn json_list_components(items: Seq<JsonValue>, st: Style) -> Seq<Component>
    decreases items,
{
    if items.len() == 0 {
        Seq::empty()
    } else {
        json_components(items[0], st) + json_list_components(items.drop_first(), st)
    }
}

/// The style state while walking a chat component tree.
struct StyleState {
    bold: Option<bool>,
    italic: Option<bool>,
    underlined: Option<bool>,
    strikethrough: Option<bool>,
    obfuscated: Option<bool>,
    color: Option<String>,
}

impl StyleState {
    spec fn view(&self) -> Style {
        Style {
            bold: self.bold,
            italic: self.italic,
            underlined: self.underlined,
            strikethrough: self.strikethrough,
            obfuscated: self.obfuscated,
            color: match self.color {
                Some(c) => Some(c@),
                None => None,
            },
        }
    }

    fn copy(&self) -> (r: StyleState)
        ensures
            r.view() == self.view(),
    {
        StyleState {
            bold: self.bold,
            italic: self.italic,
            underlined: self.underlined,
            strikethrough: self.strikethrough,
            obfuscated: self.obfuscated,
            color: match &self.color {
                Some(c) => Some(c.clone()),
                None => None,
            },
        }
    }
}

/// Whether a text holds a `§` or `&`.
fn has_code_marker(s: &str) -> (r: bool)
    ensures
        r == exists|i: int| 0 <= i < s@.len() && is_code_marker(#[trigger] s@[i]),
{
    let chars = chars_of(s);
    let mut i: usize = 0;
    while i < chars.len()
        invariant
            i <= chars.len(),
            chars@ == s@,
            forall|j: int| 0 <= j < i ==> !is_code_marker(#[trigger] chars@[j]),
        decreases chars.len() - i,
    {
        if chars[i] == '§' || chars[i] == '&' {
            assert(is_code_marker(s@[i as int]));
            return true;
        }
        i += 1;
    }
    false
}

/// Appends the components of a text (see `text_components`).
fn push_text_components(components: &mut ComponentList, s: &String)
    ensures
        list_view(final(components)) == list_view(old(components)) + text_components(s@),
{
    if s.as_str().is_empty() {
        assert(list_view(components) + Seq::<Component>::empty() =~= list_view(components));
        return;
    }
    if has_code_marker(s.as_str()) {
        let mut parsed = parse_legacy_string(s.as_str());
        let ghost pv = list_view(&parsed);
        components.append(&mut parsed);
        assert(list_view(components) =~= list_view(old(components)) + pv);
    } else {
        let ghost before = list_view(components);
        components.push(MotdComponent::Text(s.clone()));
        assert(list_view(components) =~= before + seq![Component::Text(s@)]);
    }
}

/// Appends a formatting code when the flag is set to true.
fn push_flag(components: &mut ComponentList, flag: Option<bool>, f: Formatting)
    ensures
        list_view(final(components)) == list_view(old(components)) + flag_component(flag, f),
{
    match flag {
        Some(true) => {
            components.push(MotdComponent::Formatting(f));
            assert(list_view(components) =~= list_view(old(components)) + seq![
                Component::Formatting(f),
            ]);
        },
        _ => {
            assert(list_view(components) =~= list_view(old(components)) + Seq::<
                Component,
            >::empty());
        },
    }
}

/// A member's boolean, if the member is a boolean.
fn member_bool(entries: &Vec<(String, JsonValue)>, v: &JsonValue, key: &str) -> (r: Option<bool>)
    requires
        *v == JsonValue::Object(*entries),
    ensures
        r == json_bool(json_field(*v, key@)),
{
    match crate::json::get_member(entries, key) {
        Some(JsonValue::Bool(b)) => Some(*b),
        _ => None,
    }
}

/// A member's string, if the member is a string.
fn member_str<'a>(entries: &'a Vec<(String, JsonValue)>, v: &JsonValue, key: &str) -> (r: Option<
    &'a String,
>)
    requires
        *v == JsonValue::Object(*entries),
    ensures
        (match r {
            Some(x) => Some(x@),
            None => None,
        }) == json_str(json_field(*v, key@)),
{
    match crate::json::get_member(entries, key) {
        Some(JsonValue::String(s)) => Some(s),
        _ => None,
    }
}

/// The style of a chat component object (see `style_of`).
fn object_style(entries: &Vec<(String, JsonValue)>, value: &JsonValue, inherited: &StyleState) -> (r:
    StyleState)
    requires
        *value == JsonValue::Object(*entries),
    ensures
        r.view() == style_of(*value, inherited.view()),
{
    let mut style = inherited.copy();
    if let Some(c) = member_str(entries, value, "color") {
        style.color = Some(c.clone());
    }
    if let Some(b) = member_bool(entries, value, "bold") {
        style.bold = Some(b);
    }
    if let Some(b) = member_bool(entries, value, "italic") {
        style.italic = Some(b);
    }
    if let Some(b) = member_bool(entries, value, "underlined") {
        style.underlined = Some(b);
    }
    if let Some(b) = member_bool(entries, value, "strikethrough") {
        style.strikethrough = Some(b);
    }
    if let Some(b) = member_bool(entries, value, "obfuscated") {
        style.obfuscated = Some(b);
    }
    style
}

/// Appends the components that a style emits (see `style_components`).
fn push_style_components(components: &mut ComponentList, style: &StyleState)
    ensures
        list_view(final(components)) == list_view(old(components)) + style_components(
            style.view(),
        ),
{
    let ghost st = style.view();
    let ghost start = list_view(components);
    // the color comes first: colors reset formatting in Minecraft
    match &style.color {
        Some(color_str) => {
            if let Some(mc) = MinecraftColor::from_code_str(color_str.as_str()) {
                components.push(MotdComponent::MinecraftColor(mc));
            } else if let Some(wc) = json_web_color(color_str.as_str()) {
                components.push(MotdComponent::WebColor(wc));
            }
        },
        None => {},
    }
    assert(list_view(components) =~= start + color_component(st.color));
    push_flag(components, style.bold, Formatting::Bold);
    push_flag(components, style.italic, Formatting::Italic);
    push_flag(components, style.underlined, Formatting::Underlined);
    push_flag(components, style.strikethrough, Formatting::Strikethrough);
    push_flag(components, style.obfuscated, Formatting::Obfuscated);
    assert(list_view(components) =~= start + style_components(st));
}

#[verifier::rlimit(50)]
fn parse_json_component_inner(
    value: &JsonValue,
    components: &mut ComponentList,
    inherited: &StyleState,
)
    ensures
        list_view(final(components)) == list_view(old(components)) + json_components(
            *value,
            inherited.view(),
        ),
    decreases *value,
{
    match value {
        JsonValue::String(s) => {
            assert(json_components(*value, inherited.view()) == text_components(s@));
            push_text_components(components, s);
            assert(list_view(components) == list_view(old(components)) + text_components(s@));
        },
        JsonValue::Object(entries) => {
            let ghost v = *value;
            let style = object_style(entries, value, inherited);
            let ghost st = style.view();
            push_style_components(components, &style);
            let ghost after_style = list_view(components);
            let ghost translation = match json_str(json_field(v, "translate"@)) {
                Some(id) => seq![Component::TranslationTag(id)],
                None => Seq::<Component>::empty(),
            };
            let ghost text = match json_str(json_field(v, "text"@)) {
                Some(t) => text_components(t),
                None => Seq::<Component>::empty(),
            };
            if let Some(t) = member_str(entries, value, "translate") {
                components.push(MotdComponent::TranslationTag { id: t.clone() });
            }
            let ghost after_translation = list_view(components);
            assert(after_translation =~= after_style + translation);
            if let Some(t) = member_str(entries, value, "text") {
                push_text_components(components, t);
            }
            let ghost after_text = list_view(components);
            assert(after_text =~= after_translation + text);
            proof {
                lemma_member_index(entries@, "extra"@);
            }
            let extra = crate::json::get_member(entries, "extra");
            match extra {
                Some(JsonValue::Array(items)) => {
                    let ghost k = member_index(entries@, "extra"@)->Some_0;
                    proof {
                        assert(entries@[k as int].1 == JsonValue::Array(*items));
                    }
                    let mut j: usize = 0;
                    assert(items@.skip(0) =~= items@);
                    while j < items.len()
                        invariant
                            j <= items.len(),
                            after_text + json_list_components(items@, st) == list_view(components)
                                + json_list_components(items@.skip(j as int), st),
                            style.view() == st,
                            *value == JsonValue::Object(*entries),
                            0 <= k < entries@.len(),
                            entries@[k as int].1 == JsonValue::Array(*items),
                        decreases items.len() - j,
                    {
                        proof {
                            assert(items@.skip(j as int)[0] == items@[j as int]);
                            assert(items@.skip(j as int).drop_first() =~= items@.skip(j + 1));
                        }
                        let ghost before_item = list_view(components);
                        proof {
                            assert(decreases_to!(*value => value->Object_0));
                            assert(decreases_to!(value->Object_0 => entries@));
                            assert(decreases_to!(entries@ => entries@[k as int]));
                            assert(decreases_to!(entries@[k as int] => entries@[k as int].1));
                            assert(decreases_to!(entries@[k as int].1 => entries@[k as int].1->Array_0));
                            assert(decreases_to!(*items => items@));
                            assert(decreases_to!(items@ => items@[j as int]));
                        }
                        parse_json_component_inner(&items[j], components, &style);
                        assert(before_item + json_list_components(items@.skip(j as int), st)
                            =~= list_view(components) + json_list_components(
                            items@.skip(j + 1),
                            st,
                        ));
                        j += 1;
                    }
                    assert(items@.skip(j as int) =~= Seq::<JsonValue>::empty());
                    assert(list_view(components) + Seq::<Component>::empty() =~= list_view(
                        components,
                    ));
                },
                _ => {
                    assert(after_text + Seq::<Component>::empty() =~= after_text);
                },
            }
            assert(json_components(v, inherited.view()) =~= style_components(st) + translation
                + text + (list_view(components).skip(after_text.len() as int)));
        },
        _ => {
            assert(json_components(*value, inherited.view()) =~= Seq::<Component>::empty());
            assert(list_view(components) + Seq::<Component>::empty() =~= list_view(components));
        },
    }
}

/// Parses a modern JSON chat component into a component list.
///
/// Handles the recursive `extra` field and the top-level formatting inheritance.
pub fn parse_json_component(value: &JsonValue) -> (r: ComponentList)
    ensures
        list_view(&r) == json_components(*value, no_style()),
{
    let mut components: ComponentList = Vec::new();
    let style = StyleState {
        bold: None,
        italic: None,
        underlined: None,
        strikethrough: None,
        obfuscated: None,
        color: None,
    };
    parse_json_component_inner(value, &mut components, &style);
    assert(list_view(&components) =~= json_components(*value, no_style()));
    components
}

} // verus!

verus! {

// ── Laws of the chat component parser ────────────────────────────────────────

proof fn lemma_contains_left(a: Seq<Component>, b: Seq<Component>, x: Component)
    requires
        a.contains(x),
    ensures
        (a + b).contains(x),
{
    let i = choose|i: int| 0 <= i < a.len() && a[i] == x;
    assert((a + b)[i] == x);
}

proof fn lemma_contains_right(a: Seq<Component>, b: Seq<Component>, x: Component)
    requires
        b.contains(x),
    ensures
        (a + b).contains(x),
{
    let i = choose|i: int| 0 <= i < b.len() && b[i] == x;
    assert((a + b)[a.len() + i] == x);
}

proof fn lemma_contains_split(a: Seq<Component>, b: Seq<Component>, x: Component)
    requires
        (a + b).contains(x),
    ensures
        a.contains(x) || b.contains(x),
{
    let i = choose|i: int| 0 <= i < (a + b).len() && (a + b)[i] == x;
    if i < a.len() {
        assert(a[i] == x);
    } else {
        assert(b[i - a.len()] == x);
    }
}

proof fn lemma_flag_contains(flag: Option<bool>, f: Formatting, x: Component)
    ensures
        flag == Some(true) ==> flag_component(flag, f).contains(Component::Formatting(f)),
        flag_component(flag, f).contains(x) ==> x == Component::Formatting(f) && flag == Some(true),
{
    if flag == Some(true) {
        assert(flag_component(flag, f)[0] == Component::Formatting(f));
    }
}

proof fn lemma_color_contains(color: Option<Seq<char>>, x: Component)
    ensures
        color_component(color).contains(x) ==> (x is MinecraftColor || x is WebColor),
{
}

/// The formatting codes that an object emits for its style: each of the
/// members `bold`, `italic`, `underlined`, `strikethrough` and `obfuscated`
/// set to `true` gives the formatting code of the same name.
proof fn lemma_style_flags(st: Style)
    ensures
        st.bold == Some(true) ==> style_components(st).contains(
            Component::Formatting(Formatting::Bold),
        ),
        st.italic == Some(true) ==> style_components(st).contains(
            Component::Formatting(Formatting::Italic),
        ),
        st.underlined == Some(true) ==> style_components(st).contains(
            Component::Formatting(Formatting::Underlined),
        ),
        st.strikethrough == Some(true) ==> style_components(st).contains(
            Component::Formatting(Formatting::Strikethrough),
        ),
        st.obfuscated == Some(true) ==> style_components(st).contains(
            Component::Formatting(Formatting::Obfuscated),
        ),
        forall|x: Component|
            #![trigger style_components(st).contains(x)]
            style_components(st).contains(x) ==> (x is MinecraftColor || x is WebColor) || (x
                == Component::Formatting(Formatting::Bold) && st.bold == Some(true)) || (x
                == Component::Formatting(Formatting::Italic) && st.italic == Some(true)) || (x
                == Component::Formatting(Formatting::Underlined) && st.underlined == Some(true))
                || (x == Component::Formatting(Formatting::Strikethrough) && st.strikethrough
                == Some(true)) || (x == Component::Formatting(Formatting::Obfuscated)
                && st.obfuscated == Some(true)),
{
    let c = color_component(st.color);
    let fb = flag_component(st.bold, Formatting::Bold);
    let fi = flag_component(st.italic, Formatting::Italic);
    let fu = flag_component(st.underlined, Formatting::Underlined);
    let fs = flag_component(st.strikethrough, Formatting::Strikethrough);
    let fo = flag_component(st.obfuscated, Formatting::Obfuscated);
    let x0 = Component::Formatting(Formatting::Bold);
    let x1 = Component::Formatting(Formatting::Italic);
    let x2 = Component::Formatting(Formatting::Underlined);
    let x3 = Component::Formatting(Formatting::Strikethrough);
    let x4 = Component::Formatting(Formatting::Obfuscated);
    lemma_flag_contains(st.bold, Formatting::Bold, x0);
    lemma_flag_contains(st.italic, Formatting::Italic, x1);
    lemma_flag_contains(st.underlined, Formatting::Underlined, x2);
    lemma_flag_contains(st.strikethrough, Formatting::Strikethrough, x3);
    lemma_flag_contains(st.obfuscated, Formatting::Obfuscated, x4);
    if st.bold == Some(true) {
        lemma_contains_right(c, fb, x0);
        lemma_contains_left(c + fb, fi, x0);
        lemma_contains_left(c + fb + fi, fu, x0);
        lemma_contains_left(c + fb + fi + fu, fs, x0);
        lemma_contains_left(c + fb + fi + fu + fs, fo, x0);
    }
    if st.italic == Some(true) {
        lemma_contains_right(c + fb, fi, x1);
        lemma_contains_left(c + fb + fi, fu, x1);
        lemma_contains_left(c + fb + fi + fu, fs, x1);
        lemma_contains_left(c + fb + fi + fu + fs, fo, x1);
    }
    if st.underlined == Some(true) {
        lemma_contains_right(c + fb + fi, fu, x2);
        lemma_contains_left(c + fb + fi + fu, fs, x2);
        lemma_contains_left(c + fb + fi + fu + fs, fo, x2);
    }
    if st.strikethrough == Some(true) {
        lemma_contains_right(c + fb + fi + fu, fs, x3);
        lemma_contains_left(c + fb + fi + fu + fs, fo, x3);
    }
    if st.obfuscated == Some(true) {
        lemma_contains_right(c + fb + fi + fu + fs, fo, x4);
    }
    assert forall|x: Component| style_components(st).contains(x) implies (x is MinecraftColor
        || x is WebColor) || (x == x0 && st.bold == Some(true)) || (x == x1 && st.italic == Some(
        true,
    )) || (x == x2 && st.underlined == Some(true)) || (x == x3 && st.strikethrough == Some(true))
        || (x == x4 && st.obfuscated == Some(true)) by {
        lemma_contains_split(c + fb + fi + fu + fs, fo, x);
        lemma_flag_contains(st.obfuscated, Formatting::Obfuscated, x);
        if (c + fb + fi + fu + fs).contains(x) {
            lemma_contains_split(c + fb + fi + fu, fs, x);
            lemma_flag_contains(st.strikethrough, Formatting::Strikethrough, x);
            if (c + fb + fi + fu).contains(x) {
                lemma_contains_split(c + fb + fi, fu, x);
                lemma_flag_contains(st.underlined, Formatting::Underlined, x);
                if (c + fb + fi).contains(x) {
                    lemma_contains_split(c + fb, fi, x);
                    lemma_flag_contains(st.italic, Formatting::Italic, x);
                    if (c + fb).contains(x) {
                        lemma_contains_split(c, fb, x);
                        lemma_flag_contains(st.bold, Formatting::Bold, x);
                        lemma_color_contains(st.color, x);
                    }
                }
            }
        }
    }
}

/// In a JSON chat component object, each style member set to `true` gives
/// the formatting code of the same name: `bold` gives bold, `italic`
/// italic, `underlined` underlined, `strikethrough` strikethrough and
/// `obfuscated` obfuscated.
pub proof fn lemma_json_flags_set(v: JsonValue, inherited: Style)
    requires
        v is Object,
    ensures
        json_bool(json_field(v, "bold"@)) == Some(true) ==> json_components(v, inherited).contains(
            Component::Formatting(Formatting::Bold),
        ),
        json_bool(json_field(v, "italic"@)) == Some(true) ==> json_components(
            v,
            inherited,
        ).contains(Component::Formatting(Formatting::Italic)),
        json_bool(json_field(v, "underlined"@)) == Some(true) ==> json_components(
            v,
            inherited,
        ).contains(Component::Formatting(Formatting::Underlined)),
        json_bool(json_field(v, "strikethrough"@)) == Some(true) ==> json_components(
            v,
            inherited,
        ).contains(Component::Formatting(Formatting::Strikethrough)),
        json_bool(json_field(v, "obfuscated"@)) == Some(true) ==> json_components(
            v,
            inherited,
        ).contains(Component::Formatting(Formatting::Obfuscated)),
{
    let st = style_of(v, inherited);
    lemma_style_flags(st);
    let tail = json_components(v, inherited).subrange(
        style_components(st).len() as int,
        json_components(v, inherited).len() as int,
    );
    assert(json_components(v, inherited) =~= style_components(st) + tail);
    let xs = seq![
        Component::Formatting(Formatting::Bold),
        Component::Formatting(Formatting::Italic),
        Component::Formatting(Formatting::Underlined),
        Component::Formatting(Formatting::Strikethrough),
        Component::Formatting(Formatting::Obfuscated),
    ];
    assert forall|k: int| 0 <= k < 5 && style_components(st).contains(xs[k]) implies json_components(
        v,
        inherited,
    ).contains(xs[k]) by {
        lemma_contains_left(style_components(st), tail, xs[k]);
    }
    assert(xs[0] == Component::Formatting(Formatting::Bold));
    assert(xs[1] == Component::Formatting(Formatting::Italic));
    assert(xs[2] == Component::Formatting(Formatting::Underlined));
    assert(xs[3] == Component::Formatting(Formatting::Strikethrough));
    assert(xs[4] == Component::Formatting(Formatting::Obfuscated));
}

/// An object with no `text`, `translate` or `extra` member emits a
/// formatting code only for the style members in force: a code whose member
/// is not `true` (and not inherited as `true`, when the member is absent)
/// does not appear. With the members above, `{"underlined": true}` gives
/// underlined and never strikethrough.
pub proof fn lemma_json_flags_unset(v: JsonValue, inherited: Style)
    requires
        v is Object,
        json_field(v, "text"@) is None,
        json_field(v, "translate"@) is None,
        json_field(v, "extra"@) is None,
    ensures
        style_of(v, inherited).bold != Some(true) ==> !json_components(v, inherited).contains(
            Component::Formatting(Formatting::Bold),
        ),
        style_of(v, inherited).italic != Some(true) ==> !json_components(v, inherited).contains(
            Component::Formatting(Formatting::Italic),
        ),
        style_of(v, inherited).underlined != Some(true) ==> !json_components(
            v,
            inherited,
        ).contains(Component::Formatting(Formatting::Underlined)),
        style_of(v, inherited).strikethrough != Some(true) ==> !json_components(
            v,
            inherited,
        ).contains(Component::Formatting(Formatting::Strikethrough)),
        style_of(v, inherited).obfuscated != Some(true) ==> !json_components(
            v,
            inherited,
        ).contains(Component::Formatting(Formatting::Obfuscated)),
        style_of(v, inherited).bold == (match json_bool(json_field(v, "bold"@)) {
            Some(b) => Some(b),
            None => inherited.bold,
        }),
        style_of(v, inherited).italic == (match json_bool(json_field(v, "italic"@)) {
            Some(b) => Some(b),
            None => inherited.italic,
        }),
        style_of(v, inherited).obfuscated == (match json_bool(json_field(v, "obfuscated"@)) {
            Some(b) => Some(b),
            None => inherited.obfuscated,
        }),
        style_of(v, inherited).underlined == (match json_bool(json_field(v, "underlined"@)) {
            Some(b) => Some(b),
            None => inherited.underlined,
        }),
        style_of(v, inherited).strikethrough == (match json_bool(
            json_field(v, "strikethrough"@),
        ) {
            Some(b) => Some(b),
            None => inherited.strikethrough,
        }),
{
    let st = style_of(v, inherited);
    lemma_style_flags(st);
    if let JsonValue::Object(entries) = v {
        assert(member_index(entries@, "extra"@) is None);
    }
    assert(json_components(v, inherited) =~= style_components(st));
}


/// A JSON chat component object shows its `translate` member as a
/// translation tag, its `text` member (when it is non-empty and holds no
/// `§` or `&`) as that text, and its `color` member as the color it names.
pub proof fn lemma_json_text_and_color(v: JsonValue, inherited: Style)
    requires
        v is Object,
    ensures
        forall|id: Seq<char>|
            json_str(json_field(v, "translate"@)) == Some(id) ==> #[trigger] json_components(
                v,
                inherited,
            ).contains(Component::TranslationTag(id)),
        forall|t: Seq<char>|
            json_str(json_field(v, "text"@)) == Some(t) && t.len() > 0 && (forall|i: int|
                0 <= i < t.len() ==> !is_code_marker(#[trigger] t[i])) ==> #[trigger] json_components(
                v,
                inherited,
            ).contains(Component::Text(t)),
        forall|m: MinecraftColor|
            json_str(json_field(v, "color"@)) matches Some(c) && color_of_name(c) == Some(m)
                ==> #[trigger] json_components(v, inherited).contains(
                Component::MinecraftColor(m),
            ),
{
    let st = style_of(v, inherited);
    let sc = style_components(st);
    let translation = match json_str(json_field(v, "translate"@)) {
        Some(id) => seq![Component::TranslationTag(id)],
        None => Seq::<Component>::empty(),
    };
    let text = match json_str(json_field(v, "text"@)) {
        Some(t) => text_components(t),
        None => Seq::<Component>::empty(),
    };
    let all = json_components(v, inherited);
    let extra = all.subrange((sc.len() + translation.len() + text.len()) as int, all.len() as int);
    assert(all =~= sc + translation + text + extra);
    assert forall|id: Seq<char>|
        json_str(json_field(v, "translate"@)) == Some(id) implies #[trigger] all.contains(
        Component::TranslationTag(id),
    ) by {
        assert(translation[0] == Component::TranslationTag(id));
        lemma_contains_right(sc, translation, Component::TranslationTag(id));
        lemma_contains_left(sc + translation, text, Component::TranslationTag(id));
        lemma_contains_left(sc + translation + text, extra, Component::TranslationTag(id));
    }
    assert forall|t: Seq<char>|
        json_str(json_field(v, "text"@)) == Some(t) && t.len() > 0 && (forall|i: int|
            0 <= i < t.len() ==> !is_code_marker(#[trigger] t[i])) implies #[trigger] all.contains(
        Component::Text(t),
    ) by {
        assert(text =~= seq![Component::Text(t)]);
        assert(text[0] == Component::Text(t));
        lemma_contains_right(sc + translation, text, Component::Text(t));
        lemma_contains_left(sc + translation + text, extra, Component::Text(t));
    }
    assert forall|m: MinecraftColor|
        json_str(json_field(v, "color"@)) matches Some(c) && color_of_name(c) == Some(m)
            implies #[trigger] all.contains(Component::MinecraftColor(m)) by {
        let cc = color_component(st.color);
        assert(cc[0] == Component::MinecraftColor(m));
        let fl = sc.subrange(cc.len() as int, sc.len() as int);
        assert(sc =~= cc + fl);
        lemma_contains_left(cc, fl, Component::MinecraftColor(m));
        lemma_contains_left(sc, translation, Component::MinecraftColor(m));
        lemma_contains_left(sc + translation, text, Component::MinecraftColor(m));
        lemma_contains_left(sc + translation + text, extra, Component::MinecraftColor(m));
    }
}

} // verus!
