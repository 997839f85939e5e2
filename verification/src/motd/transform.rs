//! MOTD output transformers.
//!
//! Transforms a parsed MOTD component list into various output formats:
//! plain text, Minecraft section-sign format, HTML, and ANSI 24-bit color.
use vstd::prelude::*;

use super::components::{
    color_code, color_rgb, formatting_code, plain_text, text_of, Component, Formatting, MinecraftColor,
    MotdComponent,
};
use super::simplify::{list_view, ComponentList};
use crate::text::{decimal, hex_byte_upper, push_char, push_decimal, push_hex_byte_upper, push_str};

verus! {

/// Transforms a component list into plain text, stripping all formatting and color.
pub fn to_plain(components: &ComponentList) -> (s: String)
    ensures
        s@ == plain_text(list_view(components)),
{
    let ghost v = list_view(components);
    let mut result = String::new();
    let mut i: usize = 0;
    while i < components.len()
        invariant
            i <= components.len(),
            v == list_view(components),
            result@ == plain_text(v.take(i as int)),
        decreases components.len() - i,
    {
        assert(v[i as int] == components@[i as int]@);
        match &components[i] {
            MotdComponent::Text(s) => push_str(&mut result, s.as_str()),
            MotdComponent::TranslationTag { id } => push_str(&mut result, id.as_str()),
            _ => {},
        }
        proof {
            assert(v.take(i + 1).drop_last() =~= v.take(i as int));
            assert(v.take(i + 1).last() == v[i as int]);
            if !(v[i as int] is Text || v[i as int] is TranslationTag) {
                assert(result@ =~= result@ + text_of(v[i as int]));
            }
        }
        i += 1;
    }
    assert(v.take(i as int) =~= v);
    result
}

/// Six upper-case hexadecimal digits of a packed 24-bit RGB value.
pub open spec fn rgb_hex(rgb: u32) -> Seq<char> {
    hex_byte_upper((rgb / 0x10000) as u8) + hex_byte_upper(((rgb / 0x100) % 0x100) as u8)
        + hex_byte_upper((rgb % 0x100) as u8)
}

/// How a component is written in section-sign format.
pub open spec fn minecraft_render(c: Component) -> Seq<char> {
    match c {
        Component::Text(s) => s,
        Component::Formatting(f) => seq!['§', formatting_code(f)],
        Component::MinecraftColor(m) => seq!['§', color_code(m)],
        Component::WebColor(w) => seq!['§', '#'] + hex_byte_upper(w.red()) + hex_byte_upper(
            w.green(),
        ) + hex_byte_upper(w.blue()),
        Component::TranslationTag(id) => id,
    }
}

/// A component list in section-sign format.
pub open spec fn minecraft_text(s: Seq<Component>) -> Seq<char>
    decreases s.len(),
{
    if s.len() == 0 {
        Seq::empty()
    } else {
        minecraft_text(s.drop_last()) + minecraft_render(s.last())
    }
}

/// The upper-case hexadecimal digits of some bytes.
pub open spec fn hex_upper(b: Seq<u8>) -> Seq<char>
    decreases b.len(),
{
    if b.len() == 0 {
        Seq::empty()
    } else {
        hex_upper(b.drop_last()) + hex_byte_upper(b.last())
    }
}

/// Encodes bytes as upper-case hexadecimal digits, two per byte.
pub fn encode_upper(bytes: &[u8]) -> (s: String)
    ensures
        s@ == hex_upper(bytes@),
{
    let mut s = String::new();
    let mut i: usize = 0;
    while i < bytes.len()
        invariant
            i <= bytes.len(),
            s@ == hex_upper(bytes@.take(i as int)),
        decreases bytes.len() - i,
    {
        push_hex_byte_upper(&mut s, bytes[i]);
        assert(bytes@.take(i + 1).drop_last() =~= bytes@.take(i as int));
        i += 1;
    }
    assert(bytes@.take(i as int) =~= bytes@);
    s
}

/// Transforms a component list into Minecraft section-sign (§) format.
pub fn to_minecraft(components: &ComponentList) -> (s: String)
    ensures
        s@ == minecraft_text(list_view(components)),
{
    let ghost v = list_view(components);
    let mut result = String::new();
    let mut i: usize = 0;
    while i < components.len()
        invariant
            i <= components.len(),
            v == list_view(components),
            result@ == minecraft_text(v.take(i as int)),
        decreases components.len() - i,
    {
        assert(v[i as int] == components@[i as int]@);
        let ghost before = result@;
        match &components[i] {
            MotdComponent::Text(s) => push_str(&mut result, s.as_str()),
            MotdComponent::Formatting(f) => {
                push_char(&mut result, '§');
                push_char(&mut result, f.code_char());
            },
            MotdComponent::MinecraftColor(c) => {
                push_char(&mut result, '§');
                push_char(&mut result, c.code_char());
            },
            MotdComponent::WebColor(c) => {
                push_char(&mut result, '§');
                push_char(&mut result, '#');
                let arr = [c.r(), c.g(), c.b()];
                let hex = encode_upper(&arr);
                proof {
                    let b = seq![c.red(), c.green(), c.blue()];
                    assert(arr@ =~= b);
                    assert(b.drop_last().drop_last().drop_last() =~= Seq::<u8>::empty());
                    assert(b.drop_last().drop_last() =~= seq![c.red()]);
                    assert(b.drop_last() =~= seq![c.red(), c.green()]);
                    reveal_with_fuel(hex_upper, 4);
                    assert(hex_upper(b) =~= hex_byte_upper(c.red()) + hex_byte_upper(c.green())
                        + hex_byte_upper(c.blue()));
                }
                push_str(&mut result, hex.as_str());
            },
            MotdComponent::TranslationTag { id } => push_str(&mut result, id.as_str()),
        }
        proof {
            assert(v.take(i + 1).drop_last() =~= v.take(i as int));
            assert(v.take(i + 1).last() == v[i as int]);
            assert(result@ =~= before + minecraft_render(v[i as int]));
        }
        i += 1;
    }
    assert(v.take(i as int) =~= v);
    result
}

/// A character as it appears in HTML text.
pub open spec fn html_escape_char(c: char) -> Seq<char> {
    if c == '&' {
        "&amp;"@
    } else if c == '<' {
        "&lt;"@
    } else if c == '>' {
        "&gt;"@
    } else if c == '"' {
        "&quot;"@
    } else {
        seq![c]
    }
}

/// Text with `&`, `<`, `>` and `"` replaced by their HTML entities.
pub open spec fn html_escaped(s: Seq<char>) -> Seq<char>
    decreases s.len(),
{
    if s.len() == 0 {
        Seq::empty()
    } else {
        html_escaped(s.drop_last()) + html_escape_char(s.last())
    }
}

/// Escapes text for inclusion in HTML.
pub fn html_escape(s: &str) -> (r: String)
    ensures
        r@ == html_escaped(s@),
{
    let chars = crate::text::chars_of(s);
    let mut out = String::new();
    let mut i: usize = 0;
    while i < chars.len()
        invariant
            i <= chars.len(),
            chars@ == s@,
            out@ == html_escaped(chars@.take(i as int)),
        decreases chars.len() - i,
    {
        let c = chars[i];
        let ghost before = out@;
        if c == '&' {
            push_str(&mut out, "&amp;");
        } else if c == '<' {
            push_str(&mut out, "&lt;");
        } else if c == '>' {
            push_str(&mut out, "&gt;");
        } else if c == '"' {
            push_str(&mut out, "&quot;");
        } else {
            push_char(&mut out, c);
        }
        proof {
            assert(chars@.take(i + 1).drop_last() =~= chars@.take(i as int));
            assert(out@ =~= before + html_escape_char(c));
        }
        i += 1;
    }
    assert(chars@.take(i as int) =~= chars@);
    out
}

/// `n` closing `</span>` tags.
pub open spec fn closing_tags(n: nat) -> Seq<char>
    decreases n,
{
    if n == 0 {
        Seq::empty()
    } else {
        closing_tags((n - 1) as nat) + "</span>"@
    }
}

/// Closes every open tag: appends them to `result`, last opened first, and
/// empties `open_tags`.
pub fn close_all_tags(result: &mut String, open_tags: &mut Vec<String>)
    ensures
        final(open_tags)@.len() == 0,
        final(result)@ == old(result)@ + closed_tags_text(old(open_tags)@),
{
    let ghost orig = open_tags@;
    while open_tags.len() > 0
        invariant
            old(result)@ + closed_tags_text(orig) == result@ + closed_tags_text(open_tags@),
        decreases open_tags.len(),
    {
        let ghost before = open_tags@;
        match open_tags.pop() {
            Some(tag) => {
                let ghost r0 = result@;
                push_str(result, tag.as_str());
                proof {
                    assert(before.drop_last() =~= open_tags@);
                    assert(r0 + closed_tags_text(before) =~= result@ + closed_tags_text(
                        open_tags@,
                    ));
                }
            },
            None => {},
        }
    }
    assert(result@ + closed_tags_text(open_tags@) =~= result@);
}

/// The text of the given open tags, closed last-opened first.
pub open spec fn closed_tags_text(tags: Seq<String>) -> Seq<char>
    decreases tags.len(),
{
    if tags.len() == 0 {
        Seq::empty()
    } else {
        tags.last()@ + closed_tags_text(tags.drop_last())
    }
}

/// `n` copies of `</span>` as open tags.
pub open spec fn all_spans(tags: Seq<String>) -> bool {
    forall|i: int| 0 <= i < tags.len() ==> (#[trigger] tags[i])@ == "</span>"@
}

proof fn lemma_closed_spans(tags: Seq<String>)
    requires
        all_spans(tags),
    ensures
        closed_tags_text(tags) == closing_tags(tags.len()),
    decreases tags.len(),
{
    if tags.len() > 0 {
        lemma_closed_spans(tags.drop_last());
        lemma_closing_tags_front(tags.len());
    }
}

proof fn lemma_closing_tags_front(n: nat)
    requires
        n > 0,
    ensures
        closing_tags(n) == "</span>"@ + closing_tags((n - 1) as nat),
    decreases n,
{
    if n > 1 {
        lemma_closing_tags_front((n - 1) as nat);
        assert(closing_tags(n) =~= "</span>"@ + closing_tags((n - 1) as nat));
    } else {
        assert(closing_tags(0) =~= Seq::<char>::empty());
        assert(closing_tags(1) =~= "</span>"@ + closing_tags(0));
    }
}

/// The opening tag for a color.
pub open spec fn color_span(rgb: u32) -> Seq<char> {
    "<span style=\"color: #"@ + rgb_hex(rgb) + "\">"@
}

/// The opening tag for a formatting code (resets open none).
pub open spec fn formatting_span(f: Formatting) -> Seq<char> {
    match f {
        Formatting::Bold => "<span style=\"font-weight: bold\">"@,
        Formatting::Italic => "<span style=\"font-style: italic\">"@,
        Formatting::Underlined => "<span style=\"text-decoration: underline\">"@,
        Formatting::Strikethrough => "<span style=\"text-decoration: line-through\">"@,
        Formatting::Obfuscated => "<span class=\"obfuscated\">"@,
        Formatting::Reset => Seq::empty(),
    }
}

/// The HTML of the components of `s`, with `open` tags already open; every
/// tag still open at the end is closed.
pub open spec fn html_fold(s: Seq<Component>, open: nat) -> Seq<char>
    decreases s.len(),
{
    if s.len() == 0 {
        closing_tags(open)
    } else {
        let rest = s.drop_first();
        match s[0] {
            Component::Text(t) => html_escaped(t) + html_fold(rest, open),
            Component::TranslationTag(id) => html_escaped(id) + html_fold(rest, open),
            Component::Formatting(f) => if f == Formatting::Reset {
                closing_tags(open) + html_fold(rest, 0)
            } else {
                formatting_span(f) + html_fold(rest, open + 1)
            },
            Component::MinecraftColor(m) => closing_tags(open) + color_span(color_rgb(m))
                + html_fold(rest, 1),
            Component::WebColor(w) => closing_tags(open) + color_span(w.packed()) + html_fold(
                rest,
                1,
            ),
        }
    }
}

/// Appends the opening tag for a color.
fn push_color_span(result: &mut String, rgb: u32)
    requires
        rgb < 0x100_0000,
    ensures
        final(result)@ == old(result)@ + color_span(rgb),
{
    push_str(result, "<span style=\"color: #");
    push_hex_byte_upper(result, (rgb / 0x10000) as u8);
    push_hex_byte_upper(result, ((rgb / 0x100) % 0x100) as u8);
    push_hex_byte_upper(result, (rgb % 0x100) as u8);
    push_str(result, "\">");
    assert(final(result)@ =~= old(result)@ + color_span(rgb));
}

/// Transforms a component list into HTML with inline CSS styles.
pub fn to_html(components: &ComponentList) -> (s: String)
    ensures
        s@ == html_fold(list_view(components), 0),
{
    let ghost v = list_view(components);
    let mut result = String::new();
    let mut open_tags: Vec<String> = Vec::new();
    let mut i: usize = 0;
    assert(v.skip(0) =~= v);
    while i < components.len()
        invariant
            i <= components.len(),
            v == list_view(components),
            all_spans(open_tags@),
            result@ + html_fold(v.skip(i as int), open_tags@.len()) == html_fold(v, 0),
        decreases components.len() - i,
    {
        assert(v[i as int] == components@[i as int]@);
        proof {
            assert(v.skip(i as int)[0] == v[i as int]);
            assert(v.skip(i as int).drop_first() =~= v.skip(i + 1));
            lemma_closed_spans(open_tags@);
        }
        match &components[i] {
            MotdComponent::Text(s) => {
                let e = html_escape(s.as_str());
                push_str(&mut result, e.as_str());
            },
            MotdComponent::Formatting(f) => {
                match f {
                    Formatting::Reset => {
                        close_all_tags(&mut result, &mut open_tags);
                    },
                    Formatting::Bold => {
                        push_str(&mut result, "<span style=\"font-weight: bold\">");
                        open_tags.push("</span>".to_owned());
                    },
                    Formatting::Italic => {
                        push_str(&mut result, "<span style=\"font-style: italic\">");
                        open_tags.push("</span>".to_owned());
                    },
                    Formatting::Underlined => {
                        push_str(&mut result, "<span style=\"text-decoration: underline\">");
                        open_tags.push("</span>".to_owned());
                    },
                    Formatting::Strikethrough => {
                        push_str(&mut result, "<span style=\"text-decoration: line-through\">");
                        open_tags.push("</span>".to_owned());
                    },
                    Formatting::Obfuscated => {
                        push_str(&mut result, "<span class=\"obfuscated\">");
                        open_tags.push("</span>".to_owned());
                    },
                }
            },
            MotdComponent::MinecraftColor(c) => {
                close_all_tags(&mut result, &mut open_tags);
                push_color_span(&mut result, c.rgb());
                open_tags.push("</span>".to_owned());
            },
            MotdComponent::WebColor(c) => {
                close_all_tags(&mut result, &mut open_tags);
                push_color_span(&mut result, c.rgb());
                open_tags.push("</span>".to_owned());
            },
            MotdComponent::TranslationTag { id } => {
                let e = html_escape(id.as_str());
                push_str(&mut result, e.as_str());
            },
        }
        proof {
            assert(all_spans(open_tags@));
        }
        i += 1;
    }
    proof {
        lemma_closed_spans(open_tags@);
        assert(v.skip(i as int) =~= Seq::<Component>::empty());
    }
    close_all_tags(&mut result, &mut open_tags);
    result
}

/// The ANSI escape sequence that sets a 24-bit foreground color.
pub open spec fn ansi_color(rgb: u32) -> Seq<char> {
    "\x1b[38;2;"@ + decimal((rgb / 0x10000) as nat) + ";"@ + decimal(((rgb / 0x100) % 0x100) as nat)
        + ";"@ + decimal((rgb % 0x100) as nat) + "m"@
}

/// The ANSI escape sequence for a formatting code (obfuscated has none).
pub open spec fn ansi_formatting(f: Formatting) -> Seq<char> {
    match f {
        Formatting::Bold => "\x1b[1m"@,
        Formatting::Italic => "\x1b[3m"@,
        Formatting::Underlined => "\x1b[4m"@,
        Formatting::Strikethrough => "\x1b[9m"@,
        Formatting::Obfuscated => Seq::empty(),
        Formatting::Reset => "\x1b[0m"@,
    }
}

/// Sets the foreground color, unless it is already the current one.
pub open spec fn ansi_set_color(rgb: u32, fg: Option<u32>) -> Seq<char> {
    if fg == Some(rgb) {
        Seq::empty()
    } else {
        ansi_color(rgb)
    }
}

/// The ANSI rendering of the components of `s`, with `fg` the current
/// foreground color (if one was set).
pub open spec fn ansi_fold(s: Seq<Component>, fg: Option<u32>) -> Seq<char>
    decreases s.len(),
{
    if s.len() == 0 {
        Seq::empty()
    } else {
        let rest = s.drop_first();
        match s[0] {
            Component::Text(t) => t + ansi_fold(rest, fg),
            Component::TranslationTag(id) => id + ansi_fold(rest, fg),
            Component::Formatting(f) => ansi_formatting(f) + ansi_fold(
                rest,
                if f == Formatting::Reset {
                    None
                } else {
                    fg
                },
            ),
            Component::MinecraftColor(m) => ansi_set_color(color_rgb(m), fg) + ansi_fold(
                rest,
                Some(color_rgb(m)),
            ),
            Component::WebColor(w) => ansi_set_color(w.packed(), fg) + ansi_fold(
                rest,
                Some(w.packed()),
            ),
        }
    }
}

/// The full ANSI rendering: a final reset is added when anything was written.
pub open spec fn ansi_text(s: Seq<Component>) -> Seq<char> {
    let body = ansi_fold(s, None);
    if body.len() == 0 {
        body
    } else {
        body + "\x1b[0m"@
    }
}

/// Appends the escape sequence that sets a 24-bit foreground color.
fn push_ansi_color(result: &mut String, r: u8, g: u8, b: u8, rgb: u32)
    requires
        rgb == r as u32 * 0x10000 + g as u32 * 0x100 + b as u32,
    ensures
        final(result)@ == old(result)@ + ansi_color(rgb),
{
    push_str(result, "\x1b[38;2;");
    push_decimal(result, r as u64);
    push_str(result, ";");
    push_decimal(result, g as u64);
    push_str(result, ";");
    push_decimal(result, b as u64);
    push_str(result, "m");
    assert(rgb / 0x10000 == r as u32 && (rgb / 0x100) % 0x100 == g as u32 && rgb % 0x100
        == b as u32) by (nonlinear_arith)
        requires
            rgb == r as u32 * 0x10000 + g as u32 * 0x100 + b as u32,
            r < 256,
            g < 256,
            b < 256,
    ;
    assert(final(result)@ =~= old(result)@ + ansi_color(rgb));
}

/// Appends the ANSI rendering of one component and returns the new current color.
fn push_ansi_component(result: &mut String, c: &MotdComponent, fg: Option<u32>) -> (new_fg: Option<
    u32,
>)
    ensures
        final(result)@ + ansi_fold(seq![], new_fg) == old(result)@ + ansi_fold(seq![c@], fg),
        forall|rest: Seq<Component>|
            final(result)@ + ansi_fold(rest, new_fg) == old(result)@ + ansi_fold(
                seq![c@] + rest,
                fg,
            ),
{
    let mut new_fg = fg;
    match c {
        MotdComponent::Text(s) => push_str(result, s.as_str()),
        MotdComponent::Formatting(f) => match f {
            Formatting::Reset => {
                push_str(result, "\x1b[0m");
                new_fg = None;
            },
            Formatting::Bold => push_str(result, "\x1b[1m"),
            Formatting::Italic => push_str(result, "\x1b[3m"),
            Formatting::Underlined => push_str(result, "\x1b[4m"),
            Formatting::Strikethrough => push_str(result, "\x1b[9m"),
            Formatting::Obfuscated => {},
        },
        MotdComponent::MinecraftColor(m) => {
            let rgb = m.rgb();
            let same = match fg {
                Some(x) => x == rgb,
                None => false,
            };
            if !same {
                push_ansi_color(result, m.r(), m.g(), m.b(), rgb);
            }
            new_fg = Some(rgb);
        },
        MotdComponent::WebColor(w) => {
            let rgb = w.rgb();
            let same = match fg {
                Some(x) => x == rgb,
                None => false,
            };
            if !same {
                push_ansi_color(result, w.r(), w.g(), w.b(), rgb);
            }
            new_fg = Some(rgb);
        },
        MotdComponent::TranslationTag { id } => push_str(result, id.as_str()),
    }
    assert forall|rest: Seq<Component>|
        final(result)@ + ansi_fold(rest, new_fg) == old(result)@ + ansi_fold(
            seq![c@] + rest,
            fg,
        ) by {
        let s = seq![c@] + rest;
        assert(s[0] == c@);
        assert(s.drop_first() =~= rest);
    }
    assert(seq![c@] + Seq::<Component>::empty() =~= seq![c@]);
    new_fg
}

/// Transforms a component list into ANSI 24-bit color escape codes.
pub fn to_ansi(components: &ComponentList) -> (s: String)
    ensures
        s@ == ansi_text(list_view(components)),
{
    let ghost v = list_view(components);
    let mut result = String::new();
    let mut current_fg: Option<u32> = None;
    let mut i: usize = 0;
    assert(v.skip(0) =~= v);
    while i < components.len()
        invariant
            i <= components.len(),
            v == list_view(components),
            result@ + ansi_fold(v.skip(i as int), current_fg) == ansi_fold(v, None),
        decreases components.len() - i,
    {
        assert(v[i as int] == components@[i as int]@);
        proof {
            assert(v.skip(i as int) =~= seq![v[i as int]] + v.skip(i + 1));
        }
        current_fg = push_ansi_component(&mut result, &components[i], current_fg);
        i += 1;
    }
    assert(v.skip(i as int) =~= Seq::<Component>::empty());
    assert(result@ == ansi_fold(v, None)) by {
        assert(result@ + Seq::<char>::empty() =~= result@);
    }
    if !result.as_str().is_empty() {
        push_str(&mut result, "\x1b[0m");
    }
    proof {
        if ansi_fold(v, None).len() == 0 {
            assert(ansi_fold(v, None) =~= Seq::<char>::empty());
        }
    }
    result
}

} // verus!

verus! {

// ── Laws of the renderings ───────────────────────────────────────────────────

proof fn lemma_cons_parts(x: Component, s: Seq<Component>)
    ensures
        (seq![x] + s)[0] == x,
        (seq![x] + s).drop_first() == s,
        (seq![x] + s).len() > 0,
{
    assert((seq![x] + s).drop_first() =~= s);
}

/// In HTML each formatting code opens its own tag before what follows:
/// bold a `font-weight: bold` span, italic a `font-style: italic` span,
/// underlined a `text-decoration: underline` span, strikethrough a
/// `text-decoration: line-through` span and obfuscated an `obfuscated` class
/// span, each closed later with the others; a reset closes every open tag.
pub proof fn lemma_html_formatting_tags(s: Seq<Component>, open: nat)
    ensures
        html_fold(seq![Component::Formatting(Formatting::Bold)] + s, open)
            == "<span style=\"font-weight: bold\">"@ + html_fold(s, open + 1),
        html_fold(seq![Component::Formatting(Formatting::Italic)] + s, open)
            == "<span style=\"font-style: italic\">"@ + html_fold(s, open + 1),
        html_fold(seq![Component::Formatting(Formatting::Underlined)] + s, open)
            == "<span style=\"text-decoration: underline\">"@ + html_fold(s, open + 1),
        html_fold(seq![Component::Formatting(Formatting::Strikethrough)] + s, open)
            == "<span style=\"text-decoration: line-through\">"@ + html_fold(s, open + 1),
        html_fold(seq![Component::Formatting(Formatting::Obfuscated)] + s, open)
            == "<span class=\"obfuscated\">"@ + html_fold(s, open + 1),
        html_fold(seq![Component::Formatting(Formatting::Reset)] + s, open) == closing_tags(open)
            + html_fold(s, 0),
{
    lemma_cons_parts(Component::Formatting(Formatting::Bold), s);
    lemma_cons_parts(Component::Formatting(Formatting::Italic), s);
    lemma_cons_parts(Component::Formatting(Formatting::Underlined), s);
    lemma_cons_parts(Component::Formatting(Formatting::Strikethrough), s);
    lemma_cons_parts(Component::Formatting(Formatting::Obfuscated), s);
    lemma_cons_parts(Component::Formatting(Formatting::Reset), s);
}

/// A text after a single formatting code renders in HTML as the code's
/// span, the escaped text and the closing tag; for instance `§nHi` gives
/// `<span style="text-decoration: underline">Hi</span>`.
pub proof fn lemma_html_formatted_text(t: Seq<char>)
    ensures
        html_fold(seq![Component::Formatting(Formatting::Bold), Component::Text(t)], 0)
            == "<span style=\"font-weight: bold\">"@ + html_escaped(t) + "</span>"@,
        html_fold(seq![Component::Formatting(Formatting::Italic), Component::Text(t)], 0)
            == "<span style=\"font-style: italic\">"@ + html_escaped(t) + "</span>"@,
        html_fold(seq![Component::Formatting(Formatting::Underlined), Component::Text(t)], 0)
            == "<span style=\"text-decoration: underline\">"@ + html_escaped(t) + "</span>"@,
        html_fold(seq![Component::Formatting(Formatting::Strikethrough), Component::Text(t)], 0)
            == "<span style=\"text-decoration: line-through\">"@ + html_escaped(t) + "</span>"@,
        html_fold(seq![Component::Formatting(Formatting::Obfuscated), Component::Text(t)], 0)
            == "<span class=\"obfuscated\">"@ + html_escaped(t) + "</span>"@,
{
    let txt = seq![Component::Text(t)];
    lemma_html_formatting_tags(txt, 0);
    lemma_cons_parts(Component::Text(t), Seq::<Component>::empty());
    assert(seq![Component::Text(t)] + Seq::<Component>::empty() =~= txt);
    assert(closing_tags(0) =~= Seq::<char>::empty());
    assert(closing_tags(1) =~= "</span>"@);
    assert(txt[0] == Component::Text(t));
    assert(txt.drop_first() =~= Seq::<Component>::empty());
    assert(html_fold(Seq::<Component>::empty(), 1) == closing_tags(1));
    assert(html_fold(txt, 1) == html_escaped(t) + "</span>"@);
    assert(seq![Component::Formatting(Formatting::Bold), Component::Text(t)] =~= seq![
        Component::Formatting(Formatting::Bold),
    ] + txt);
    assert(seq![Component::Formatting(Formatting::Italic), Component::Text(t)] =~= seq![
        Component::Formatting(Formatting::Italic),
    ] + txt);
    assert(seq![Component::Formatting(Formatting::Underlined), Component::Text(t)] =~= seq![
        Component::Formatting(Formatting::Underlined),
    ] + txt);
    assert(seq![Component::Formatting(Formatting::Strikethrough), Component::Text(t)] =~= seq![
        Component::Formatting(Formatting::Strikethrough),
    ] + txt);
    assert(seq![Component::Formatting(Formatting::Obfuscated), Component::Text(t)] =~= seq![
        Component::Formatting(Formatting::Obfuscated),
    ] + txt);
    let b: Seq<char> = "<span style=\"font-weight: bold\">"@;
    let i: Seq<char> = "<span style=\"font-style: italic\">"@;
    let u: Seq<char> = "<span style=\"text-decoration: underline\">"@;
    let l: Seq<char> = "<span style=\"text-decoration: line-through\">"@;
    let o: Seq<char> = "<span class=\"obfuscated\">"@;
    let e = html_escaped(t);
    let c: Seq<char> = "</span>"@;
    assert(b + (e + c) =~= b + e + c);
    assert(i + (e + c) =~= i + e + c);
    assert(u + (e + c) =~= u + e + c);
    assert(l + (e + c) =~= l + e + c);
    assert(o + (e + c) =~= o + e + c);
}

proof fn lemma_decimal_nonempty(n: nat)
    ensures
        decimal(n).len() > 0,
    decreases n,
{
    if n >= 10 {
        lemma_decimal_nonempty(n / 10);
    }
}

/// The ANSI foreground escape for the color with channels red `r`, green
/// `g` and blue `b` names the three channels in decimal, in that order.
pub proof fn lemma_ansi_color_channels(r: u8, g: u8, b: u8)
    ensures
        ansi_color((r as int * 0x10000 + g as int * 0x100 + b as int) as u32) == "\x1b[38;2;"@
            + decimal(r as nat) + ";"@ + decimal(g as nat) + ";"@ + decimal(b as nat) + "m"@,
{
    let rgb = (r as int * 0x10000 + g as int * 0x100 + b as int) as u32;
    assert(rgb / 0x10000 == r as u32 && (rgb / 0x100) % 0x100 == g as u32 && rgb % 0x100
        == b as u32) by (nonlinear_arith)
        requires
            rgb == r as int * 0x10000 + g as int * 0x100 + b as int,
            r < 256,
            g < 256,
            b < 256,
    ;
}

/// A text after a named color renders in ANSI as the foreground escape of
/// that color's red, green and blue channels (in that order), the text, and
/// a final reset; for instance gold (`§6x`) gives `\x1b[38;2;255;170;0mx\x1b[0m`.
pub proof fn lemma_ansi_colored_text(m: MinecraftColor, r: u8, g: u8, b: u8, t: Seq<char>)
    requires
        color_rgb(m) == r as int * 0x10000 + g as int * 0x100 + b as int,
    ensures
        ansi_text(seq![Component::MinecraftColor(m), Component::Text(t)]) == "\x1b[38;2;"@
            + decimal(r as nat) + ";"@ + decimal(g as nat) + ";"@ + decimal(b as nat) + "m"@ + t
            + "\x1b[0m"@,
{
    lemma_ansi_color_channels(r, g, b);
    let s = seq![Component::MinecraftColor(m), Component::Text(t)];
    let txt = seq![Component::Text(t)];
    assert(s =~= seq![Component::MinecraftColor(m)] + txt);
    lemma_cons_parts(Component::MinecraftColor(m), txt);
    lemma_cons_parts(Component::Text(t), Seq::<Component>::empty());
    assert(seq![Component::Text(t)] + Seq::<Component>::empty() =~= txt);
    let esc = "\x1b[38;2;"@ + decimal(r as nat) + ";"@ + decimal(g as nat) + ";"@ + decimal(
        b as nat,
    ) + "m"@;
    assert(ansi_fold(Seq::<Component>::empty(), Some(color_rgb(m))) == Seq::<char>::empty());
    assert(ansi_fold(txt, Some(color_rgb(m))) =~= t);
    assert(ansi_fold(s, None) == esc + t);
    lemma_decimal_nonempty(r as nat);
    assert(esc.len() > 0);
    assert(ansi_text(s) == esc + t + "\x1b[0m"@);
}


/// In HTML a named color closes every open tag and opens a span whose color
/// is `#` and the red, green and blue channels, each as two upper-case
/// hexadecimal digits, in that order.
pub proof fn lemma_html_color_span(m: MinecraftColor, r: u8, g: u8, b: u8, s: Seq<Component>, open: nat)
    requires
        color_rgb(m) == r as int * 0x10000 + g as int * 0x100 + b as int,
    ensures
        html_fold(seq![Component::MinecraftColor(m)] + s, open) == closing_tags(open)
            + "<span style=\"color: #"@ + hex_byte_upper(r) + hex_byte_upper(g) + hex_byte_upper(b)
            + "\">"@ + html_fold(s, 1),
{
    lemma_cons_parts(Component::MinecraftColor(m), s);
    let rgb = color_rgb(m);
    assert(rgb / 0x10000 == r as u32 && (rgb / 0x100) % 0x100 == g as u32 && rgb % 0x100
        == b as u32) by (nonlinear_arith)
        requires
            rgb == r as int * 0x10000 + g as int * 0x100 + b as int,
            r < 256,
            g < 256,
            b < 256,
    ;
    let x = closing_tags(open);
    let y = "<span style=\"color: #"@ + hex_byte_upper(r) + hex_byte_upper(g) + hex_byte_upper(b)
        + "\">"@;
    assert(color_span(rgb) == y);
    assert(x + y + html_fold(s, 1) =~= x + "<span style=\"color: #"@ + hex_byte_upper(r)
        + hex_byte_upper(g) + hex_byte_upper(b) + "\">"@ + html_fold(s, 1));
}

/// In ANSI each formatting code writes its own escape before what follows:
/// bold `ESC[1m`, italic `ESC[3m`, underlined `ESC[4m`, strikethrough
/// `ESC[9m`, obfuscated nothing, and reset `ESC[0m`, which also forgets the
/// current color.
pub proof fn lemma_ansi_formatting_codes(s: Seq<Component>, fg: Option<u32>)
    ensures
        ansi_fold(seq![Component::Formatting(Formatting::Bold)] + s, fg) == "\x1b[1m"@ + ansi_fold(
            s,
            fg,
        ),
        ansi_fold(seq![Component::Formatting(Formatting::Italic)] + s, fg) == "\x1b[3m"@
            + ansi_fold(s, fg),
        ansi_fold(seq![Component::Formatting(Formatting::Underlined)] + s, fg) == "\x1b[4m"@
            + ansi_fold(s, fg),
        ansi_fold(seq![Component::Formatting(Formatting::Strikethrough)] + s, fg) == "\x1b[9m"@
            + ansi_fold(s, fg),
        ansi_fold(seq![Component::Formatting(Formatting::Obfuscated)] + s, fg) == ansi_fold(
            s,
            fg,
        ),
        ansi_fold(seq![Component::Formatting(Formatting::Reset)] + s, fg) == "\x1b[0m"@
            + ansi_fold(s, None),
{
    lemma_cons_parts(Component::Formatting(Formatting::Bold), s);
    lemma_cons_parts(Component::Formatting(Formatting::Italic), s);
    lemma_cons_parts(Component::Formatting(Formatting::Underlined), s);
    lemma_cons_parts(Component::Formatting(Formatting::Strikethrough), s);
    lemma_cons_parts(Component::Formatting(Formatting::Obfuscated), s);
    lemma_cons_parts(Component::Formatting(Formatting::Reset), s);
    assert(Seq::<char>::empty() + ansi_fold(s, fg) =~= ansi_fold(s, fg));
}

} // verus!
