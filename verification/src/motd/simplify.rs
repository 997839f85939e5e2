//! MOTD simplification passes.
//!
//! These functions remove redundant or meaningless formatting/color components
//! from a parsed MOTD component list. The simplifications run iteratively until
//! no more elements can be removed (a fixed-point iteration). None of them
//! changes what is shown: every character keeps its place and the color and
//! formatting in force for it.
use vstd::prelude::*;

use super::components::{
    clone_component, components_view, lemma_plain_text_append, lemma_plain_text_single,
    plain_text, text_of, Component, Formatting, MotdComponent,
};

verus! {

/// Type alias for a parsed MOTD component list.
pub type ComponentList = Vec<MotdComponent>;

/// The value of a component list.
pub open spec fn list_view(v: &Vec<MotdComponent>) -> Seq<Component> {
    components_view(v@)
}

/// Whether a component is a color (named or web).
pub open spec fn is_color(c: Component) -> bool {
    c is MinecraftColor || c is WebColor
}

/// Whether a component is shown as text (text or translation tag).
pub open spec fn is_textual(c: Component) -> bool {
    c is Text || c is TranslationTag
}

/// Whether `b`, right after `a`, repeats it: the same formatting code or the same color.
pub open spec fn is_double(a: Component, b: Component) -> bool {
    match (a, b) {
        (Component::Formatting(x), Component::Formatting(y)) => x == y,
        (Component::MinecraftColor(x), Component::MinecraftColor(y)) => x == y,
        (Component::WebColor(x), Component::WebColor(y)) => x == y,
        _ => false,
    }
}

/// Appends `x` unless it repeats the last item kept.
pub open spec fn push_unless_double(r: Seq<Component>, x: Component) -> Seq<Component> {
    if r.len() > 0 && is_double(r.last(), x) {
        r
    } else {
        r.push(x)
    }
}

/// Appends the items of `rest` to `r`, one by one, dropping repeats.
pub open spec fn dedup_onto(r: Seq<Component>, rest: Seq<Component>) -> Seq<Component>
    decreases rest.len(),
{
    if rest.len() == 0 {
        r
    } else {
        dedup_onto(push_unless_double(r, rest[0]), rest.drop_first())
    }
}

/// The list with every formatting code or color that repeats the item kept
/// right before it removed.
pub open spec fn without_double_items(s: Seq<Component>) -> Seq<Component> {
    dedup_onto(Seq::empty(), s)
}

/// Whether the first component of `t` that is not a formatting code is a color.
pub open spec fn next_visible_is_color(t: Seq<Component>) -> bool
    decreases t.len(),
{
    if t.len() == 0 {
        false
    } else if t[0] is Formatting {
        next_visible_is_color(t.drop_first())
    } else {
        is_color(t[0])
    }
}

/// The list without the colors that another color overrides before any text.
pub open spec fn without_overridden_colors(s: Seq<Component>) -> Seq<Component>
    decreases s.len(),
{
    if s.len() == 0 {
        s
    } else {
        let rest = without_overridden_colors(s.drop_first());
        if is_color(s[0]) && next_visible_is_color(s.drop_first()) {
            rest
        } else {
            seq![s[0]] + rest
        }
    }
}

/// The list without the formatting codes that a color overrides before any text.
pub open spec fn without_formatting_before_color(s: Seq<Component>) -> Seq<Component>
    decreases s.len(),
{
    if s.len() == 0 {
        s
    } else {
        let rest = without_formatting_before_color(s.drop_first());
        if s[0] is Formatting && next_visible_is_color(s.drop_first()) {
            rest
        } else {
            seq![s[0]] + rest
        }
    }
}

/// The style in force at a point of a MOTD: the color set last (if any) and
/// the formatting codes added since.
pub ghost struct Style {
    pub color: Option<Component>,
    pub formats: Set<Formatting>,
}

/// The style at the start of a MOTD: no color and no formatting.
pub open spec fn no_style() -> Style {
    Style { color: None, formats: Set::empty() }
}

/// The style right after the color `c`: that color and no formatting.
pub open spec fn color_style(c: Component) -> Style {
    Style { color: Some(c), formats: Set::empty() }
}

/// The style after component `c`, from style `st`: a color sets the color and
/// clears the formatting, a reset clears both, any other formatting code adds
/// itself, and text leaves the style as it is.
pub open spec fn apply_style(st: Style, c: Component) -> Style {
    match c {
        Component::MinecraftColor(_) => color_style(c),
        Component::WebColor(_) => color_style(c),
        Component::Formatting(f) => if f == Formatting::Reset {
            no_style()
        } else {
            Style { color: st.color, formats: st.formats.insert(f) }
        },
        _ => st,
    }
}

/// The style after the components of `s`, from style `st`.
pub open spec fn style_after(st: Style, s: Seq<Component>) -> Style
    decreases s.len(),
{
    if s.len() == 0 {
        st
    } else {
        apply_style(style_after(st, s.drop_last()), s.last())
    }
}

/// What component `c` shows, each item with the style `st` it is shown in:
/// a text shows each of its characters (as a one-character text), a
/// translation tag shows itself, and colors and formatting codes show nothing.
pub open spec fn shown(st: Style, c: Component) -> Seq<(Style, Component)> {
    match c {
        Component::Text(t) => Seq::new(t.len(), |i: int| (st, Component::Text(seq![t[i]]))),
        Component::TranslationTag(_) => seq![(st, c)],
        _ => Seq::empty(),
    }
}

/// What the components of `s` show, in order, each item with its style, from
/// style `st` on.
pub open spec fn styled_from(st: Style, s: Seq<Component>) -> Seq<(Style, Component)>
    decreases s.len(),
{
    if s.len() == 0 {
        Seq::empty()
    } else {
        styled_from(st, s.drop_last()) + shown(style_after(st, s.drop_last()), s.last())
    }
}

/// What a MOTD shows: every character of its texts and every translation tag,
/// each with the style in force there.
pub open spec fn styled(s: Seq<Component>) -> Seq<(Style, Component)> {
    styled_from(no_style(), s)
}

/// Whether `c` is a reset code.
pub open spec fn is_reset(c: Component) -> bool {
    c == Component::Formatting(Formatting::Reset)
}

/// From style `st` on, the list without the resets and colors that change
/// nothing: a reset where no color and no formatting is in force, a reset
/// directly followed by the color that was in force with no formatting, and
/// a color that sets the color already in force with no formatting.
pub open spec fn drop_meaningless(st: Style, s: Seq<Component>) -> Seq<Component>
    decreases s.len(),
{
    if s.len() == 0 {
        s
    } else if is_reset(s[0]) && st == no_style() {
        drop_meaningless(st, s.drop_first())
    } else if is_reset(s[0]) && s.len() >= 2 && is_color(s[1]) && st == color_style(s[1]) {
        drop_meaningless(st, s.skip(2))
    } else if is_color(s[0]) && st == color_style(s[0]) {
        drop_meaningless(st, s.drop_first())
    } else {
        seq![s[0]] + drop_meaningless(apply_style(st, s[0]), s.drop_first())
    }
}

/// The list without the resets and colors that do not change the style in
/// force (leading resets among them).
pub open spec fn without_meaningless_resets(s: Seq<Component>) -> Seq<Component> {
    drop_meaningless(no_style(), s)
}

/// The list without the formatting codes and colors that come after its last text.
pub open spec fn without_trailing_non_text(s: Seq<Component>) -> Seq<Component>
    decreases s.len(),
{
    if s.len() > 0 && !is_textual(s.last()) {
        without_trailing_non_text(s.drop_last())
    } else {
        s
    }
}

/// Appends `x`, merging it into the last item when both are plain text.
pub open spec fn push_merging_text(r: Seq<Component>, x: Component) -> Seq<Component> {
    if r.len() > 0 && r.last() is Text && x is Text {
        r.drop_last().push(Component::Text(r.last()->Text_0 + x->Text_0))
    } else {
        r.push(x)
    }
}

/// Appends the items of `rest` to `r`, merging adjacent plain texts.
pub open spec fn squash_onto(r: Seq<Component>, rest: Seq<Component>) -> Seq<Component>
    decreases rest.len(),
{
    if rest.len() == 0 {
        r
    } else {
        squash_onto(push_merging_text(r, rest[0]), rest.drop_first())
    }
}

/// The list with every run of adjacent plain texts merged into one text.
pub open spec fn squashed(s: Seq<Component>) -> Seq<Component> {
    squash_onto(Seq::empty(), s)
}

/// One round of the five removal passes.
pub open spec fn removal_round(s: Seq<Component>) -> Seq<Component> {
    without_trailing_non_text(
        without_meaningless_resets(
            without_formatting_before_color(without_overridden_colors(without_double_items(s))),
        ),
    )
}

/// The removal passes repeated until a round removes nothing.
pub open spec fn removal_fixpoint(s: Seq<Component>) -> Seq<Component>
    decreases s.len(),
{
    let t = removal_round(s);
    if t.len() < s.len() {
        removal_fixpoint(t)
    } else {
        t
    }
}

/// The fully simplified list.
pub open spec fn simplified(s: Seq<Component>) -> Seq<Component> {
    squashed(removal_fixpoint(s))
}

// ── View bookkeeping ─────────────────────────────────────────────────────────

proof fn lemma_view_take_skip(v: Seq<MotdComponent>, i: int)
    requires
        0 <= i <= v.len(),
    ensures
        components_view(v.take(i)) == components_view(v).take(i),
        components_view(v.skip(i)) == components_view(v).skip(i),
        components_view(v).len() == v.len(),
{
    assert(components_view(v.take(i)) =~= components_view(v).take(i));
    assert(components_view(v.skip(i)) =~= components_view(v).skip(i));
}

proof fn lemma_view_remove(v: Seq<MotdComponent>, i: int)
    requires
        0 <= i < v.len(),
    ensures
        components_view(v.remove(i)) == components_view(v).remove(i),
{
    assert(components_view(v.remove(i)) =~= components_view(v).remove(i));
}

proof fn lemma_view_update(v: Seq<MotdComponent>, i: int, c: MotdComponent)
    requires
        0 <= i < v.len(),
    ensures
        components_view(v.update(i, c)) == components_view(v).update(i, c@),
{
    assert(components_view(v.update(i, c)) =~= components_view(v).update(i, c@));
}

/// Whether two components repeat each other (see `is_double`).
fn is_double_exec(a: &MotdComponent, b: &MotdComponent) -> (r: bool)
    ensures
        r == is_double(a@, b@),
{
    match (a, b) {
        (MotdComponent::Formatting(x), MotdComponent::Formatting(y)) => *x == *y,
        (MotdComponent::MinecraftColor(x), MotdComponent::MinecraftColor(y)) => *x == *y,
        (MotdComponent::WebColor(x), MotdComponent::WebColor(y)) => *x == *y,
        _ => false,
    }
}

fn is_color_exec(c: &MotdComponent) -> (r: bool)
    ensures
        r == is_color(c@),
{
    match c {
        MotdComponent::MinecraftColor(_) | MotdComponent::WebColor(_) => true,
        _ => false,
    }
}

fn is_formatting_exec(c: &MotdComponent) -> (r: bool)
    ensures
        r == c@ is Formatting,
{
    match c {
        MotdComponent::Formatting(_) => true,
        _ => false,
    }
}

fn is_reset_exec(c: &MotdComponent) -> (r: bool)
    ensures
        r == (c@ == Component::Formatting(Formatting::Reset)),
{
    match c {
        MotdComponent::Formatting(Formatting::Reset) => true,
        _ => false,
    }
}

fn is_textual_exec(c: &MotdComponent) -> (r: bool)
    ensures
        r == is_textual(c@),
{
    match c {
        MotdComponent::Text(_) | MotdComponent::TranslationTag { .. } => true,
        _ => false,
    }
}

// ── The passes ───────────────────────────────────────────────────────────────

/// Removes duplicate adjacent formatting or color components.
///
/// Two identical colors or formatting codes in a row are redundant —
/// the second one has no effect.
pub fn remove_double_items(components: &mut ComponentList)
    ensures
        list_view(final(components)) == without_double_items(list_view(old(components))),
{
    let ghost orig = list_view(components);
    if components.len() == 0 {
        assert(orig =~= Seq::<Component>::empty());
        return;
    }
    proof {
        lemma_view_take_skip(components@, 1);
        assert(push_unless_double(Seq::empty(), orig[0]) =~= orig.take(1));
        assert(orig.drop_first() =~= orig.skip(1));
    }
    let mut i: usize = 1;
    while i < components.len()
        invariant
            1 <= i <= components.len(),
            without_double_items(orig) == dedup_onto(
                list_view(components).take(i as int),
                list_view(components).skip(i as int),
            ),
        decreases components.len() - i,
    {
        let ghost v = list_view(components);
        let ghost vv = components@;
        let remove = is_double_exec(&components[i - 1], &components[i]);
        proof {
            assert(v.take(i as int).last() == v[i - 1]);
            assert(v.skip(i as int)[0] == v[i as int]);
            assert(v.skip(i as int).drop_first() =~= v.skip(i + 1));
        }
        if remove {
            components.remove(i);
            proof {
                lemma_view_remove(vv, i as int);
                assert(list_view(components) =~= v.remove(i as int));
                assert(list_view(components).take(i as int) =~= v.take(i as int));
                assert(list_view(components).skip(i as int) =~= v.skip(i + 1));
            }
        } else {
            proof {
                assert(v.take(i as int).push(v[i as int]) =~= v.take(i + 1));
            }
            i += 1;
        }
    }
    proof {
        let v = list_view(components);
        assert(v.take(i as int) =~= v);
        assert(v.skip(i as int) =~= Seq::<Component>::empty());
    }
}

/// Whether the first component from `start` on that is not a formatting code is a color.
fn next_visible_is_color_at(components: &ComponentList, start: usize) -> (r: bool)
    requires
        start <= components.len(),
    ensures
        r == next_visible_is_color(list_view(components).skip(start as int)),
{
    let ghost v = list_view(components);
    let mut j = start;
    while j < components.len()
        invariant
            start <= j <= components.len(),
            v == list_view(components),
            next_visible_is_color(v.skip(start as int)) == next_visible_is_color(v.skip(j as int)),
        decreases components.len() - j,
    {
        proof {
            assert(v.skip(j as int)[0] == v[j as int]);
            assert(v.skip(j as int).drop_first() =~= v.skip(j + 1));
        }
        if !is_formatting_exec(&components[j]) {
            return is_color_exec(&components[j]);
        }
        j += 1;
    }
    assert(v.skip(j as int) =~= Seq::<Component>::empty());
    false
}

/// Removes colors that are immediately overridden by another color before any text.
///
/// If a color is followed (with only formatting in between) by another color
/// and no text appears between them, the first color is never seen and can be removed.
pub fn remove_double_colors(components: &mut ComponentList)
    ensures
        list_view(final(components)) == without_overridden_colors(list_view(old(components))),
{
    let ghost orig = list_view(components);
    let mut i: usize = 0;
    proof {
        assert(orig.take(0) + orig.skip(0) =~= orig);
        assert(orig.take(0) + without_overridden_colors(orig.skip(0)) =~= without_overridden_colors(
            orig,
        )) by {
            assert(orig.skip(0) =~= orig);
        }
    }
    while i < components.len()
        invariant
            i <= components.len(),
            without_overridden_colors(orig) == list_view(components).take(i as int)
                + without_overridden_colors(list_view(components).skip(i as int)),
        decreases components.len() - i,
    {
        let ghost v = list_view(components);
        let ghost vv = components@;
        proof {
            assert(v.skip(i as int)[0] == v[i as int]);
            assert(v.skip(i as int).drop_first() =~= v.skip(i + 1));
        }
        let remove = if is_color_exec(&components[i]) {
            next_visible_is_color_at(components, i + 1)
        } else {
            false
        };
        if remove {
            components.remove(i);
            proof {
                lemma_view_remove(vv, i as int);
                assert(list_view(components).take(i as int) =~= v.take(i as int));
                assert(list_view(components).skip(i as int) =~= v.skip(i + 1));
            }
        } else {
            proof {
                assert(v.take(i + 1) =~= v.take(i as int) + seq![v[i as int]]);
            }
            i += 1;
        }
    }
    proof {
        let v = list_view(components);
        assert(v.take(i as int) =~= v);
        assert(v.skip(i as int) =~= Seq::<Component>::empty());
        assert(v + Seq::<Component>::empty() =~= v);
    }
}

/// Removes formatting codes that appear before a color code.
///
/// In Minecraft, a color code resets all formatting, so any formatting
/// that appears immediately before a color (with no text in between) is
/// never visible and can be removed.
pub fn remove_formatting_before_color(components: &mut ComponentList)
    ensures
        list_view(final(components)) == without_formatting_before_color(
            list_view(old(components)),
        ),
{
    let ghost orig = list_view(components);
    let mut i: usize = 0;
    proof {
        assert(orig.skip(0) =~= orig);
        assert(orig.take(0) + without_formatting_before_color(orig.skip(0))
            =~= without_formatting_before_color(orig));
    }
    while i < components.len()
        invariant
            i <= components.len(),
            without_formatting_before_color(orig) == list_view(components).take(i as int)
                + without_formatting_before_color(list_view(components).skip(i as int)),
        decreases components.len() - i,
    {
        let ghost v = list_view(components);
        let ghost vv = components@;
        proof {
            assert(v.skip(i as int)[0] == v[i as int]);
            assert(v.skip(i as int).drop_first() =~= v.skip(i + 1));
        }
        let remove = if is_formatting_exec(&components[i]) {
            next_visible_is_color_at(components, i + 1)
        } else {
            false
        };
        if remove {
            components.remove(i);
            proof {
                lemma_view_remove(vv, i as int);
                assert(list_view(components).take(i as int) =~= v.take(i as int));
                assert(list_view(components).skip(i as int) =~= v.skip(i + 1));
            }
        } else {
            proof {
                assert(v.take(i + 1) =~= v.take(i as int) + seq![v[i as int]]);
            }
            i += 1;
        }
    }
    proof {
        let v = list_view(components);
        assert(v.take(i as int) =~= v);
        assert(v.skip(i as int) =~= Seq::<Component>::empty());
        assert(v + Seq::<Component>::empty() =~= v);
    }
}

/// Whether two components are the same color.
fn same_color_exec(a: &MotdComponent, b: &MotdComponent) -> (r: bool)
    ensures
        r == (is_color(a@) && a@ == b@),
{
    match (a, b) {
        (MotdComponent::MinecraftColor(x), MotdComponent::MinecraftColor(y)) => *x == *y,
        (MotdComponent::WebColor(x), MotdComponent::WebColor(y)) => *x == *y,
        _ => false,
    }
}

/// Whether the tracked color and flag describe the style `st`.
pub open spec fn tracks_style(color: Option<MotdComponent>, plain: bool, st: Style) -> bool {
    &&& st.color == (match color {
        Some(c) => Some(c@),
        None => None::<Component>,
    })
    &&& plain == (st.formats == Set::<Formatting>::empty())
    &&& (color matches Some(c) ==> is_color(c@))
}

/// Removes unnecessary reset codes and redundant color sets.
///
/// - A reset at the very beginning of the component list has no effect.
/// - A reset followed by the color that was already in effect, with no
///   formatting in effect, is redundant, and both are removed.
/// - A color that re-sets the color already in effect, with no formatting in
///   effect, is redundant.
/// Resets that clear a color or formatting in effect are kept.
pub fn remove_meaningless_resets_and_colors(components: &mut ComponentList)
    ensures
        list_view(final(components)) == without_meaningless_resets(list_view(old(components))),
{
    let ghost orig = list_view(components);
    let mut color: Option<MotdComponent> = None;
    let mut plain: bool = true;
    let ghost mut st = no_style();
    let mut i: usize = 0;
    proof {
        assert(orig.take(0) + drop_meaningless(st, orig.skip(0)) =~= without_meaningless_resets(
            orig,
        )) by {
            assert(orig.skip(0) =~= orig);
        }
    }
    while i < components.len()
        invariant
            i <= components.len(),
            without_meaningless_resets(orig) == list_view(components).take(i as int)
                + drop_meaningless(st, list_view(components).skip(i as int)),
            tracks_style(color, plain, st),
        decreases components.len() - i,
    {
        let ghost v = list_view(components);
        let ghost vv = components@;
        proof {
            assert(v.skip(i as int)[0] == v[i as int]);
            assert(v.skip(i as int).drop_first() =~= v.skip(i + 1));
            assert(v[i as int] == components@[i as int]@);
        }
        let reset = is_reset_exec(&components[i]);
        let same_as_current = match &color {
            Some(c) => same_color_exec(c, &components[i]),
            None => false,
        };
        if reset && color.is_none() && plain {
            proof {
                assert(st == no_style());
            }
            components.remove(i);
            proof {
                lemma_view_remove(vv, i as int);
                assert(list_view(components).take(i as int) =~= v.take(i as int));
                assert(list_view(components).skip(i as int) =~= v.skip(i + 1));
            }
            continue;
        }
        if reset && i + 1 < components.len() && plain {
            let next_same = match &color {
                Some(c) => same_color_exec(c, &components[i + 1]),
                None => false,
            };
            proof {
                assert(v.skip(i as int)[1] == v[i + 1]);
                assert(v[i + 1] == components@[i + 1]@);
            }
            if next_same {
                proof {
                    assert(st == color_style(v[i + 1]));
                    assert(v.skip(i as int).skip(2) =~= v.skip(i + 2));
                }
                components.remove(i + 1);
                components.remove(i);
                proof {
                    lemma_view_remove(vv, i + 1);
                    lemma_view_remove(vv.remove(i + 1), i as int);
                    assert(list_view(components).take(i as int) =~= v.take(i as int));
                    assert(list_view(components).skip(i as int) =~= v.skip(i + 2));
                }
                continue;
            }
        }
        if same_as_current && plain {
            proof {
                assert(st == color_style(v[i as int]));
            }
            components.remove(i);
            proof {
                lemma_view_remove(vv, i as int);
                assert(list_view(components).take(i as int) =~= v.take(i as int));
                assert(list_view(components).skip(i as int) =~= v.skip(i + 1));
            }
            continue;
        }
        proof {
            if reset {
                assert(st != no_style());
            }
            if is_color(v[i as int]) {
                assert(st != color_style(v[i as int]));
            }
        }
        match &components[i] {
            MotdComponent::MinecraftColor(_) | MotdComponent::WebColor(_) => {
                color = Some(clone_component(&components[i]));
                plain = true;
            },
            MotdComponent::Formatting(f) => {
                if *f == Formatting::Reset {
                    color = None;
                    plain = true;
                } else {
                    plain = false;
                    proof {
                        assert(st.formats.insert(*f).contains(*f));
                    }
                }
            },
            _ => {},
        }
        proof {
            st = apply_style(st, v[i as int]);
            assert(v.take(i + 1) =~= v.take(i as int) + seq![v[i as int]]);
        }
        i += 1;
    }
    proof {
        let v = list_view(components);
        assert(v.take(i as int) =~= v);
        assert(v.skip(i as int) =~= Seq::<Component>::empty());
        assert(v + Seq::<Component>::empty() =~= v);
    }
}

/// Removes trailing formatting and color codes that have no text after them.
pub fn remove_end_non_text(components: &mut ComponentList)
    ensures
        list_view(final(components)) == without_trailing_non_text(list_view(old(components))),
{
    let ghost orig = list_view(components);
    while components.len() > 0 && !is_textual_exec(&components[components.len() - 1])
        invariant
            without_trailing_non_text(orig) == without_trailing_non_text(list_view(components)),
        decreases components.len(),
    {
        let ghost vv = components@;
        components.pop();
        proof {
            assert(list_view(components) =~= components_view(vv).drop_last());
        }
    }
}

/// Merges adjacent plain text strings into a single component.
pub fn squash_nearby_strings(components: &mut ComponentList)
    ensures
        list_view(final(components)) == squashed(list_view(old(components))),
{
    let ghost orig = list_view(components);
    if components.len() == 0 {
        assert(orig =~= Seq::<Component>::empty());
        return;
    }
    proof {
        lemma_view_take_skip(components@, 1);
        assert(push_merging_text(Seq::empty(), orig[0]) =~= orig.take(1));
        assert(orig.drop_first() =~= orig.skip(1));
    }
    let mut i: usize = 1;
    while i < components.len()
        invariant
            1 <= i <= components.len(),
            squashed(orig) == squash_onto(
                list_view(components).take(i as int),
                list_view(components).skip(i as int),
            ),
        decreases components.len() - i,
    {
        let ghost v = list_view(components);
        let ghost vv = components@;
        proof {
            assert(v.take(i as int).last() == v[i - 1]);
            assert(v.skip(i as int)[0] == v[i as int]);
            assert(v.skip(i as int).drop_first() =~= v.skip(i + 1));
        }
        let merged: Option<String> = match (&components[i - 1], &components[i]) {
            (MotdComponent::Text(a), MotdComponent::Text(b)) => {
                let mut m = a.clone();
                crate::text::push_str(&mut m, b.as_str());
                Some(m)
            },
            _ => None,
        };
        match merged {
            Some(m) => {
                let ghost mv = m@;
                let comp = MotdComponent::Text(m);
                let ghost gcomp = comp;
                components.set(i - 1, comp);
                let ghost vv2 = components@;
                components.remove(i);
                proof {
                    lemma_view_update(vv, i - 1, gcomp);
                    assert(components_view(vv2) =~= v.update(i - 1, Component::Text(mv)));
                    lemma_view_remove(vv2, i as int);
                    assert(list_view(components).take(i as int) =~= v.take(i as int).drop_last().push(
                        Component::Text(mv),
                    ));
                    assert(list_view(components).skip(i as int) =~= v.skip(i + 1));
                }
            },
            None => {
                proof {
                    assert(v.take(i as int).push(v[i as int]) =~= v.take(i + 1));
                }
                i += 1;
            },
        }
    }
    proof {
        let v = list_view(components);
        assert(v.take(i as int) =~= v);
        assert(v.skip(i as int) =~= Seq::<Component>::empty());
    }
}

// ── Visible text is preserved ────────────────────────────────────────────────

proof fn lemma_plain_cons(x: Component, rest: Seq<Component>)
    ensures
        plain_text(seq![x] + rest) == text_of(x) + plain_text(rest),
{
    lemma_plain_text_append(seq![x], rest);
    lemma_plain_text_single(x);
}

proof fn lemma_plain_first(s: Seq<Component>)
    requires
        s.len() > 0,
    ensures
        plain_text(s) == text_of(s[0]) + plain_text(s.drop_first()),
{
    assert(s =~= seq![s[0]] + s.drop_first());
    lemma_plain_cons(s[0], s.drop_first());
}

proof fn lemma_plain_remove(s: Seq<Component>, i: int)
    requires
        0 <= i < s.len(),
        !is_textual(s[i]),
    ensures
        plain_text(s.remove(i)) == plain_text(s),
        s.remove(i).len() == s.len() - 1,
{
    assert(s =~= s.take(i) + (seq![s[i]] + s.skip(i + 1)));
    assert(s.remove(i) =~= s.take(i) + s.skip(i + 1));
    lemma_plain_text_append(s.take(i), seq![s[i]] + s.skip(i + 1));
    lemma_plain_cons(s[i], s.skip(i + 1));
    lemma_plain_text_append(s.take(i), s.skip(i + 1));
    assert(text_of(s[i]) =~= Seq::<char>::empty());
    assert(Seq::<char>::empty() + plain_text(s.skip(i + 1)) =~= plain_text(s.skip(i + 1)));
}

proof fn lemma_plain_push(r: Seq<Component>, x: Component)
    ensures
        plain_text(r.push(x)) == plain_text(r) + text_of(x),
{
    assert(r.push(x).drop_last() =~= r);
}

proof fn lemma_dedup_onto(r: Seq<Component>, rest: Seq<Component>)
    ensures
        plain_text(dedup_onto(r, rest)) == plain_text(r) + plain_text(rest),
        dedup_onto(r, rest).len() <= r.len() + rest.len(),
    decreases rest.len(),
{
    if rest.len() == 0 {
        assert(plain_text(r) + plain_text(rest) =~= plain_text(r));
    } else {
        let x = rest[0];
        let r2 = push_unless_double(r, x);
        lemma_dedup_onto(r2, rest.drop_first());
        lemma_plain_first(rest);
        lemma_plain_push(r, x);
        if r.len() > 0 && is_double(r.last(), x) {
            assert(text_of(x) =~= Seq::<char>::empty());
        }
        assert(plain_text(r2) + plain_text(rest.drop_first()) =~= plain_text(r) + plain_text(
            rest,
        ));
    }
}

proof fn lemma_overridden_colors(s: Seq<Component>)
    ensures
        plain_text(without_overridden_colors(s)) == plain_text(s),
        without_overridden_colors(s).len() <= s.len(),
    decreases s.len(),
{
    if s.len() > 0 {
        lemma_overridden_colors(s.drop_first());
        lemma_plain_first(s);
        let rest = without_overridden_colors(s.drop_first());
        if is_color(s[0]) && next_visible_is_color(s.drop_first()) {
            assert(text_of(s[0]) + plain_text(rest) =~= plain_text(rest));
        } else {
            lemma_plain_cons(s[0], rest);
        }
    }
}

proof fn lemma_formatting_before_color(s: Seq<Component>)
    ensures
        plain_text(without_formatting_before_color(s)) == plain_text(s),
        without_formatting_before_color(s).len() <= s.len(),
    decreases s.len(),
{
    if s.len() > 0 {
        lemma_formatting_before_color(s.drop_first());
        lemma_plain_first(s);
        let rest = without_formatting_before_color(s.drop_first());
        if s[0] is Formatting && next_visible_is_color(s.drop_first()) {
            assert(text_of(s[0]) + plain_text(rest) =~= plain_text(rest));
        } else {
            lemma_plain_cons(s[0], rest);
        }
    }
}

proof fn lemma_drop_meaningless(st: Style, s: Seq<Component>)
    ensures
        plain_text(drop_meaningless(st, s)) == plain_text(s),
        drop_meaningless(st, s).len() <= s.len(),
    decreases s.len(),
{
    if s.len() == 0 {
    } else if is_reset(s[0]) && st == no_style() {
        lemma_drop_meaningless(st, s.drop_first());
        lemma_plain_first(s);
        assert(text_of(s[0]) + plain_text(s.drop_first()) =~= plain_text(s.drop_first()));
    } else if is_reset(s[0]) && s.len() >= 2 && is_color(s[1]) && st == color_style(s[1]) {
        lemma_drop_meaningless(st, s.skip(2));
        lemma_plain_first(s);
        lemma_plain_first(s.drop_first());
        assert(s.drop_first().drop_first() =~= s.skip(2));
        assert(text_of(s[0]) + (text_of(s[1]) + plain_text(s.skip(2))) =~= plain_text(s.skip(2)));
    } else if is_color(s[0]) && st == color_style(s[0]) {
        lemma_drop_meaningless(st, s.drop_first());
        lemma_plain_first(s);
        assert(text_of(s[0]) + plain_text(s.drop_first()) =~= plain_text(s.drop_first()));
    } else {
        lemma_drop_meaningless(apply_style(st, s[0]), s.drop_first());
        lemma_plain_first(s);
        lemma_plain_cons(s[0], drop_meaningless(apply_style(st, s[0]), s.drop_first()));
    }
}

proof fn lemma_trailing_non_text(s: Seq<Component>)
    ensures
        plain_text(without_trailing_non_text(s)) == plain_text(s),
        without_trailing_non_text(s).len() <= s.len(),
    decreases s.len(),
{
    if s.len() > 0 && !is_textual(s.last()) {
        lemma_trailing_non_text(s.drop_last());
        assert(plain_text(s) =~= plain_text(s.drop_last()));
    }
}

proof fn lemma_squash_onto(r: Seq<Component>, rest: Seq<Component>)
    ensures
        plain_text(squash_onto(r, rest)) == plain_text(r) + plain_text(rest),
    decreases rest.len(),
{
    if rest.len() == 0 {
        assert(plain_text(r) + plain_text(rest) =~= plain_text(r));
    } else {
        let x = rest[0];
        let r2 = push_merging_text(r, x);
        lemma_squash_onto(r2, rest.drop_first());
        lemma_plain_first(rest);
        if r.len() > 0 && r.last() is Text && x is Text {
            let m = Component::Text(r.last()->Text_0 + x->Text_0);
            lemma_plain_push(r.drop_last(), m);
            assert(r.drop_last().push(r.last()) =~= r);
            lemma_plain_push(r.drop_last(), r.last());
            assert(plain_text(r2) =~= plain_text(r) + text_of(x));
        } else {
            lemma_plain_push(r, x);
        }
        assert(plain_text(r2) + plain_text(rest.drop_first()) =~= plain_text(r) + plain_text(
            rest,
        ));
    }
}

/// One round of the removal passes keeps the visible text and never grows the list.
pub proof fn lemma_removal_round(s: Seq<Component>)
    ensures
        plain_text(removal_round(s)) == plain_text(s),
        removal_round(s).len() <= s.len(),
{
    let a = without_double_items(s);
    lemma_dedup_onto(Seq::empty(), s);
    assert(Seq::<char>::empty() + plain_text(s) =~= plain_text(s));
    let b = without_overridden_colors(a);
    lemma_overridden_colors(a);
    let c = without_formatting_before_color(b);
    lemma_formatting_before_color(b);
    let d = without_meaningless_resets(c);
    lemma_drop_meaningless(no_style(), c);
    lemma_trailing_non_text(d);
}

proof fn lemma_removal_fixpoint(s: Seq<Component>)
    ensures
        plain_text(removal_fixpoint(s)) == plain_text(s),
    decreases s.len(),
{
    lemma_removal_round(s);
    let t = removal_round(s);
    if t.len() < s.len() {
        lemma_removal_fixpoint(t);
    }
}

/// Simplifying a MOTD never changes its visible text: only formatting codes,
/// colors and resets that have no visible effect are removed, and adjacent
/// texts are merged.
pub proof fn lemma_simplify_keeps_text(s: Seq<Component>)
    ensures
        plain_text(simplified(s)) == plain_text(s),
{
    lemma_removal_fixpoint(s);
    lemma_squash_onto(Seq::empty(), removal_fixpoint(s));
    assert(Seq::<char>::empty() + plain_text(removal_fixpoint(s)) =~= plain_text(
        removal_fixpoint(s),
    ));
}

// ── What is shown, and in which style, is preserved ──────────────────────────

proof fn lemma_styled_append(st: Style, a: Seq<Component>, b: Seq<Component>)
    ensures
        styled_from(st, a + b) == styled_from(st, a) + styled_from(style_after(st, a), b),
        style_after(st, a + b) == style_after(style_after(st, a), b),
    decreases b.len(),
{
    if b.len() == 0 {
        assert(a + b =~= a);
        assert(styled_from(st, a) + styled_from(style_after(st, a), b) =~= styled_from(st, a));
    } else {
        lemma_styled_append(st, a, b.drop_last());
        assert((a + b).drop_last() =~= a + b.drop_last());
        assert((a + b).last() == b.last());
        assert(styled_from(st, a) + styled_from(style_after(st, a), b) =~= styled_from(st, a)
            + styled_from(style_after(st, a), b.drop_last()) + shown(
            style_after(style_after(st, a), b.drop_last()),
            b.last(),
        ));
    }
}

proof fn lemma_styled_push(st: Style, r: Seq<Component>, x: Component)
    ensures
        styled_from(st, r.push(x)) == styled_from(st, r) + shown(style_after(st, r), x),
        style_after(st, r.push(x)) == apply_style(style_after(st, r), x),
{
    assert(r.push(x).drop_last() =~= r);
    assert(r.push(x).last() == x);
}

proof fn lemma_styled_first(st: Style, s: Seq<Component>)
    requires
        s.len() > 0,
    ensures
        styled_from(st, s) == shown(st, s[0]) + styled_from(apply_style(st, s[0]), s.drop_first()),
{
    let one = seq![s[0]];
    assert(s =~= one + s.drop_first());
    lemma_styled_append(st, one, s.drop_first());
    lemma_styled_push(st, Seq::<Component>::empty(), s[0]);
    assert(Seq::<Component>::empty().push(s[0]) =~= one);
    assert(styled_from(st, Seq::<Component>::empty()) =~= Seq::<(Style, Component)>::empty());
    assert(Seq::<(Style, Component)>::empty() + shown(st, s[0]) =~= shown(st, s[0]));
}

/// Components that are not shown (formatting codes and colors) show nothing.
proof fn lemma_shown_none(st: Style, c: Component, rest: Seq<(Style, Component)>)
    requires
        !is_textual(c),
    ensures
        shown(st, c) + rest == rest,
{
    assert(shown(st, c) =~= Seq::<(Style, Component)>::empty());
    assert(shown(st, c) + rest =~= rest);
}

proof fn lemma_styled_cons(st: Style, x: Component, rest: Seq<Component>)
    ensures
        styled_from(st, seq![x] + rest) == shown(st, x) + styled_from(apply_style(st, x), rest),
{
    let s = seq![x] + rest;
    lemma_styled_first(st, s);
    assert(s[0] == x);
    assert(s.drop_first() =~= rest);
}

/// Where the next component that is not a formatting code is a color, what
/// follows is shown the same from any style: the formatting codes show
/// nothing and the color sets the style anew.
proof fn lemma_styled_before_color(st1: Style, st2: Style, t: Seq<Component>)
    requires
        next_visible_is_color(t),
    ensures
        styled_from(st1, t) == styled_from(st2, t),
    decreases t.len(),
{
    lemma_styled_first(st1, t);
    lemma_styled_first(st2, t);
    lemma_shown_none(st1, t[0], styled_from(apply_style(st1, t[0]), t.drop_first()));
    lemma_shown_none(st2, t[0], styled_from(apply_style(st2, t[0]), t.drop_first()));
    if t[0] is Formatting {
        lemma_styled_before_color(apply_style(st1, t[0]), apply_style(st2, t[0]), t.drop_first());
    } else {
        assert(apply_style(st1, t[0]) == apply_style(st2, t[0]));
    }
}

proof fn lemma_dedup_style(st: Style, r: Seq<Component>, rest: Seq<Component>)
    ensures
        styled_from(st, dedup_onto(r, rest)) == styled_from(st, r) + styled_from(
            style_after(st, r),
            rest,
        ),
    decreases rest.len(),
{
    let sa = style_after(st, r);
    if rest.len() == 0 {
        assert(styled_from(st, r) + styled_from(sa, rest) =~= styled_from(st, r));
    } else {
        let x = rest[0];
        lemma_styled_first(sa, rest);
        let r2 = push_unless_double(r, x);
        lemma_dedup_style(st, r2, rest.drop_first());
        if r.len() > 0 && is_double(r.last(), x) {
            let s0 = style_after(st, r.drop_last());
            assert(sa == apply_style(s0, r.last()));
            if let Component::Formatting(f) = x {
                if f != Formatting::Reset {
                    assert(sa.formats.insert(f) =~= sa.formats);
                }
            }
            assert(apply_style(sa, x) == sa);
            lemma_shown_none(sa, x, styled_from(sa, rest.drop_first()));
        } else {
            lemma_styled_push(st, r, x);
            assert(styled_from(st, r2) + styled_from(style_after(st, r2), rest.drop_first())
                =~= styled_from(st, r) + (shown(sa, x) + styled_from(
                apply_style(sa, x),
                rest.drop_first(),
            )));
        }
    }
}

proof fn lemma_overridden_colors_style(st: Style, s: Seq<Component>)
    ensures
        styled_from(st, without_overridden_colors(s)) == styled_from(st, s),
    decreases s.len(),
{
    if s.len() > 0 {
        let rest = without_overridden_colors(s.drop_first());
        lemma_styled_first(st, s);
        if is_color(s[0]) && next_visible_is_color(s.drop_first()) {
            lemma_overridden_colors_style(st, s.drop_first());
            lemma_styled_before_color(st, apply_style(st, s[0]), s.drop_first());
            lemma_shown_none(st, s[0], styled_from(apply_style(st, s[0]), s.drop_first()));
        } else {
            lemma_overridden_colors_style(apply_style(st, s[0]), s.drop_first());
            lemma_styled_cons(st, s[0], rest);
        }
    }
}

proof fn lemma_formatting_before_color_style(st: Style, s: Seq<Component>)
    ensures
        styled_from(st, without_formatting_before_color(s)) == styled_from(st, s),
    decreases s.len(),
{
    if s.len() > 0 {
        let rest = without_formatting_before_color(s.drop_first());
        lemma_styled_first(st, s);
        if s[0] is Formatting && next_visible_is_color(s.drop_first()) {
            lemma_formatting_before_color_style(st, s.drop_first());
            lemma_styled_before_color(st, apply_style(st, s[0]), s.drop_first());
            lemma_shown_none(st, s[0], styled_from(apply_style(st, s[0]), s.drop_first()));
        } else {
            lemma_formatting_before_color_style(apply_style(st, s[0]), s.drop_first());
            lemma_styled_cons(st, s[0], rest);
        }
    }
}

proof fn lemma_drop_meaningless_style(st: Style, s: Seq<Component>)
    ensures
        styled_from(st, drop_meaningless(st, s)) == styled_from(st, s),
    decreases s.len(),
{
    if s.len() == 0 {
    } else if is_reset(s[0]) && st == no_style() {
        lemma_drop_meaningless_style(st, s.drop_first());
        lemma_styled_first(st, s);
        lemma_shown_none(st, s[0], styled_from(apply_style(st, s[0]), s.drop_first()));
    } else if is_reset(s[0]) && s.len() >= 2 && is_color(s[1]) && st == color_style(s[1]) {
        lemma_drop_meaningless_style(st, s.skip(2));
        lemma_styled_first(st, s);
        let t = s.drop_first();
        lemma_styled_first(no_style(), t);
        assert(t[0] == s[1]);
        assert(t.drop_first() =~= s.skip(2));
        lemma_shown_none(no_style(), t[0], styled_from(apply_style(no_style(), t[0]), s.skip(2)));
        lemma_shown_none(st, s[0], styled_from(no_style(), t));
    } else if is_color(s[0]) && st == color_style(s[0]) {
        lemma_drop_meaningless_style(st, s.drop_first());
        lemma_styled_first(st, s);
        lemma_shown_none(st, s[0], styled_from(apply_style(st, s[0]), s.drop_first()));
    } else {
        lemma_drop_meaningless_style(apply_style(st, s[0]), s.drop_first());
        lemma_styled_first(st, s);
        lemma_styled_cons(st, s[0], drop_meaningless(apply_style(st, s[0]), s.drop_first()));
    }
}

proof fn lemma_trailing_non_text_style(st: Style, s: Seq<Component>)
    ensures
        styled_from(st, without_trailing_non_text(s)) == styled_from(st, s),
    decreases s.len(),
{
    if s.len() > 0 && !is_textual(s.last()) {
        lemma_trailing_non_text_style(st, s.drop_last());
        assert(shown(style_after(st, s.drop_last()), s.last()) =~= Seq::<(Style, Component)>::empty());
        assert(styled_from(st, s) =~= styled_from(st, s.drop_last()));
    }
}

/// Text shows its characters one by one, so two texts merged show what
/// the two show one after the other.
proof fn lemma_shown_text_concat(st: Style, a: Seq<char>, b: Seq<char>)
    ensures
        shown(st, Component::Text(a + b)) == shown(st, Component::Text(a)) + shown(
            st,
            Component::Text(b),
        ),
{
    let sm = shown(st, Component::Text(a + b));
    let sl = shown(st, Component::Text(a));
    let sx = shown(st, Component::Text(b));
    assert(sm.len() == a.len() + b.len());
    assert forall|i: int| 0 <= i < sm.len() implies sm[i] == (sl + sx)[i] by {
        if i < a.len() {
            assert((a + b)[i] == a[i]);
        } else {
            assert((a + b)[i] == b[i - a.len()]);
        }
    }
    assert(sm =~= sl + sx);
}

proof fn lemma_squash_style(st: Style, r: Seq<Component>, rest: Seq<Component>)
    ensures
        styled_from(st, squash_onto(r, rest)) == styled_from(st, r) + styled_from(
            style_after(st, r),
            rest,
        ),
    decreases rest.len(),
{
    let sa = style_after(st, r);
    if rest.len() == 0 {
        assert(styled_from(st, r) + styled_from(sa, rest) =~= styled_from(st, r));
    } else {
        let x = rest[0];
        lemma_styled_first(sa, rest);
        let r2 = push_merging_text(r, x);
        lemma_squash_style(st, r2, rest.drop_first());
        if r.len() > 0 && r.last() is Text && x is Text {
            let d = r.drop_last();
            let s0 = style_after(st, d);
            let m = Component::Text(r.last()->Text_0 + x->Text_0);
            lemma_styled_push(st, d, m);
            assert(sa == s0);
            let ta = r.last()->Text_0;
            let tb = x->Text_0;
            assert(r.last() == Component::Text(ta));
            assert(x == Component::Text(tb));
            lemma_shown_text_concat(s0, ta, tb);
            assert(styled_from(st, r2) =~= styled_from(st, r) + shown(sa, x));
            assert(style_after(st, r2) == apply_style(sa, x));
        } else {
            lemma_styled_push(st, r, x);
        }
        assert(styled_from(st, r2) + styled_from(style_after(st, r2), rest.drop_first())
            =~= styled_from(st, r) + (shown(sa, x) + styled_from(
            apply_style(sa, x),
            rest.drop_first(),
        )));
    }
}

/// One round of the removal passes keeps what is shown and its style.
pub proof fn lemma_removal_round_style(s: Seq<Component>)
    ensures
        styled(removal_round(s)) == styled(s),
{
    let e = Seq::<Component>::empty();
    lemma_dedup_style(no_style(), e, s);
    assert(styled_from(no_style(), e) =~= Seq::<(Style, Component)>::empty());
    assert(Seq::<(Style, Component)>::empty() + styled(s) =~= styled(s));
    let a = without_double_items(s);
    lemma_overridden_colors_style(no_style(), a);
    let b = without_overridden_colors(a);
    lemma_formatting_before_color_style(no_style(), b);
    let c = without_formatting_before_color(b);
    lemma_drop_meaningless_style(no_style(), c);
    lemma_trailing_non_text_style(no_style(), without_meaningless_resets(c));
}

proof fn lemma_removal_fixpoint_style(s: Seq<Component>)
    ensures
        styled(removal_fixpoint(s)) == styled(s),
    decreases s.len(),
{
    lemma_removal_round(s);
    lemma_removal_round_style(s);
    let t = removal_round(s);
    if t.len() < s.len() {
        lemma_removal_fixpoint_style(t);
    }
}

/// Simplifying a MOTD keeps what it shows: every character of its texts and
/// every translation tag comes out in the same order and with the same style
/// (color and formatting) in force.
pub proof fn lemma_simplify_keeps_style(s: Seq<Component>)
    ensures
        styled(simplified(s)) == styled(s),
{
    lemma_removal_fixpoint_style(s);
    let f = removal_fixpoint(s);
    let e = Seq::<Component>::empty();
    lemma_squash_style(no_style(), e, f);
    assert(styled_from(no_style(), e) =~= Seq::<(Style, Component)>::empty());
    assert(Seq::<(Style, Component)>::empty() + styled(f) =~= styled(f));
}

/// Runs all simplification passes on the component list.
///
/// This runs the 5 removal passes iteratively until no more elements
/// are removed, then applies `squash_nearby_strings`.
pub fn simplify(components: &mut ComponentList)
    ensures
        list_view(final(components)) == simplified(list_view(old(components))),
{
    let ghost orig = list_view(components);
    loop
        invariant_except_break
            removal_fixpoint(orig) == removal_fixpoint(list_view(components)),
        ensures
            removal_fixpoint(orig) == list_view(components),
        decreases list_view(components).len(),
    {
        let ghost start = list_view(components);
        let before = components.len();
        remove_double_items(components);
        remove_double_colors(components);
        remove_formatting_before_color(components);
        remove_meaningless_resets_and_colors(components);
        remove_end_non_text(components);
        proof {
            lemma_removal_round(start);
            assert(list_view(components) == removal_round(start));
        }
        if components.len() == before {
            break;
        }
    }
    squash_nearby_strings(components);
}

} // verus!
