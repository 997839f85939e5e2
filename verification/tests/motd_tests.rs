use mcstatus::json::{JsonNumber, JsonValue};
use mcstatus::motd::components::{Formatting, MinecraftColor, MotdComponent, WebColor};
use mcstatus::motd::motd_impl::{parse_legacy_string, parse_web_color};
use mcstatus::motd::simplify::{
    remove_double_colors, remove_double_items, remove_end_non_text,
    remove_formatting_before_color, remove_meaningless_resets_and_colors, simplify,
    squash_nearby_strings,
};
use mcstatus::motd::transform::{encode_upper, html_escape, to_ansi, to_html, to_minecraft, to_plain};
use mcstatus::motd::{Motd, MotdRaw};

fn to_json(v: &serde_json::Value) -> JsonValue {
    match v {
        serde_json::Value::Null => JsonValue::Null,
        serde_json::Value::Bool(b) => JsonValue::Bool(*b),
        serde_json::Value::Number(n) => {
            if let Some(u) = n.as_u64() {
                JsonValue::Number(JsonNumber::PosInt(u))
            } else if let Some(i) = n.as_i64() {
                JsonValue::Number(JsonNumber::NegInt(i))
            } else {
                JsonValue::Number(JsonNumber::Float(n.to_string()))
            }
        }
        serde_json::Value::String(s) => JsonValue::String(s.clone()),
        serde_json::Value::Array(a) => JsonValue::Array(a.iter().map(to_json).collect()),
        serde_json::Value::Object(m) => {
            JsonValue::Object(m.iter().map(|(k, v)| (k.clone(), to_json(v))).collect())
        }
    }
}

fn json(text: &str) -> JsonValue {
    to_json(&serde_json::from_str::<serde_json::Value>(text).unwrap())
}

fn text(s: &str) -> MotdComponent {
    MotdComponent::Text(s.to_string())
}

#[test]
fn test_parse_legacy_simple() {
    let motd = Motd::from_string("§cHello §lWorld", false);
    assert_eq!(motd.to_plain(), "Hello World");
    assert!(motd.to_minecraft().contains("§c"));
    assert!(motd.to_minecraft().contains("§l"));
}

#[test]
fn test_parse_legacy_empty() {
    let motd = Motd::from_string("", false);
    assert!(motd.parsed.is_empty());
}

#[test]
fn test_parse_legacy_no_codes() {
    let motd = Motd::from_string("Just plain text", false);
    assert_eq!(motd.to_plain(), "Just plain text");
    assert_eq!(motd.parsed.len(), 1);
    assert_eq!(motd.parsed[0], MotdComponent::Text("Just plain text".into()));
}

#[test]
fn test_parse_legacy_ampersand_codes() {
    let motd = Motd::from_string("&4Red &lBold", false);
    assert_eq!(motd.to_plain(), "Red Bold");
}

#[test]
fn test_parse_json_simple() {
    let value = json(r#"{"text": "Hello World", "color": "gold"}"#);
    let motd = Motd::from_json(&value, false);
    assert_eq!(motd.to_plain(), "Hello World");
    assert!(motd.to_html().contains("#FFAA00"));
}

#[test]
fn test_parse_json_with_extra() {
    let value = json(
        r#"{"text": "Prefix ", "color": "white", "extra": [
            {"text": "Highlight", "color": "red", "bold": true},
            {"text": " Suffix"}
        ]}"#,
    );
    let motd = Motd::from_json(&value, false);
    let plain = motd.to_plain();
    assert!(plain.contains("Prefix"));
    assert!(plain.contains("Highlight"));
    assert!(plain.contains("Suffix"));
}

#[test]
fn test_parse_json_nested_extra() {
    let value = json(
        r#"{"text": "", "extra": [
            {"text": "A", "extra": [{"text": "B", "extra": [{"text": "C"}]}]}
        ]}"#,
    );
    let motd = Motd::from_json(&value, false);
    assert_eq!(motd.to_plain(), "ABC");
}

#[test]
fn test_parse_json_translation() {
    let value = json(r#"{"translate": "multiplayer.player.joined", "color": "yellow"}"#);
    let motd = Motd::from_json(&value, false);
    let plain = motd.to_plain();
    assert_eq!(plain, "multiplayer.player.joined");
}

#[test]
fn test_motd_simplify_then_transform() {
    let mut motd = Motd::from_string("§c§cHello", false);
    assert!(motd.parsed.len() >= 3);
    motd.simplify();
    assert_eq!(motd.parsed.len(), 2);
}

#[test]
fn test_parse_invalid_json_type() {
    let value = json("42");
    let motd = Motd::from_json(&value, false);
    assert!(motd.parsed.is_empty());
}

#[test]
fn motd_keeps_its_raw_input() {
    let motd = Motd::from_string("§aHi", true);
    assert!(motd.bedrock);
    assert!(matches!(&motd.raw, MotdRaw::String(s) if s == "§aHi"));
    let motd = Motd::from_json(&json(r#"{"text": "x"}"#), false);
    assert!(matches!(&motd.raw, MotdRaw::Json(JsonValue::Object(m)) if m.len() == 1));
}

#[test]
fn legacy_parser_reads_colors_formats_and_web_colors() {
    let parsed = parse_legacy_string("§x&#FF8800ab§");
    assert_eq!(
        parsed,
        vec![
            text("§"),
            text("x"),
            MotdComponent::WebColor(WebColor::new(0xFF, 0x88, 0x00)),
            text("ab§"),
        ]
    );
    let parsed = parse_legacy_string("§r§kA");
    assert_eq!(
        parsed,
        vec![
            MotdComponent::Formatting(Formatting::Reset),
            MotdComponent::Formatting(Formatting::Obfuscated),
            text("A"),
        ]
    );
    let parsed = parse_legacy_string("&#12345G!");
    assert_eq!(parsed, vec![text("&"), text("#12345G!")]);
}

#[test]
fn web_colors_parse_with_or_without_hash() {
    let c = parse_web_color("#00FF7f").unwrap();
    assert_eq!((c.r(), c.g(), c.b()), (0x00, 0xFF, 0x7F));
    let c = parse_web_color("##0a0b0c").unwrap();
    assert_eq!(c.rgb(), 0x0A0B0C);
    assert!(parse_web_color("#12345").is_none());
    assert!(parse_web_color("#12345g").is_none());
}

#[test]
fn json_styles_are_inherited_by_extra_items() {
    let value = json(
        r##"{"text": "a", "color": "#102030", "italic": true, "extra": [
            {"text": "b", "italic": false},
            "c§ld"
        ]}"##,
    );
    let motd = Motd::from_json(&value, false);
    let web = MotdComponent::WebColor(WebColor::new(0x10, 0x20, 0x30));
    assert_eq!(
        motd.parsed,
        vec![
            web.clone(),
            MotdComponent::Formatting(Formatting::Italic),
            text("a"),
            web,
            text("b"),
            text("c"),
            MotdComponent::Formatting(Formatting::Bold),
            text("d"),
        ]
    );
}

#[test]
fn test_remove_double_items() {
    let mut components = vec![
        MotdComponent::MinecraftColor(MinecraftColor::Red),
        MotdComponent::MinecraftColor(MinecraftColor::Red),
        MotdComponent::Text("Hello".into()),
    ];
    remove_double_items(&mut components);
    assert_eq!(components.len(), 2);
    assert_eq!(components[1], MotdComponent::Text("Hello".into()));
}

#[test]
fn test_remove_end_non_text() {
    let mut components = vec![
        MotdComponent::Text("Hi".into()),
        MotdComponent::MinecraftColor(MinecraftColor::Red),
        MotdComponent::Formatting(Formatting::Bold),
    ];
    remove_end_non_text(&mut components);
    assert_eq!(components.len(), 1);
    assert_eq!(components[0], MotdComponent::Text("Hi".into()));
}

#[test]
fn test_squash_nearby_strings() {
    let mut components = vec![
        MotdComponent::Text("Hello".into()),
        MotdComponent::Text(" ".into()),
        MotdComponent::Text("World".into()),
    ];
    squash_nearby_strings(&mut components);
    assert_eq!(components.len(), 1);
    assert_eq!(components[0], MotdComponent::Text("Hello World".into()));
}

#[test]
fn test_remove_leading_reset() {
    let mut components = vec![
        MotdComponent::Formatting(Formatting::Reset),
        MotdComponent::Text("Hi".into()),
    ];
    remove_meaningless_resets_and_colors(&mut components);
    assert_eq!(components.len(), 1);
    assert_eq!(components[0], MotdComponent::Text("Hi".into()));
}

#[test]
fn test_simplify_no_changes() {
    let unchanged = vec![MotdComponent::Text("Simple MOTD".into())];
    let mut simplified = unchanged.clone();
    simplify(&mut simplified);
    assert_eq!(simplified, unchanged);
}

#[test]
fn overridden_colors_and_formatting_before_colors_go() {
    let mut c = vec![
        MotdComponent::MinecraftColor(MinecraftColor::Red),
        MotdComponent::MinecraftColor(MinecraftColor::Blue),
        text("x"),
    ];
    remove_double_colors(&mut c);
    assert_eq!(c, vec![MotdComponent::MinecraftColor(MinecraftColor::Blue), text("x")]);
    let mut c = vec![
        MotdComponent::Formatting(Formatting::Bold),
        MotdComponent::MinecraftColor(MinecraftColor::Blue),
        text("x"),
    ];
    remove_formatting_before_color(&mut c);
    assert_eq!(c, vec![MotdComponent::MinecraftColor(MinecraftColor::Blue), text("x")]);
}

#[test]
fn simplify_keeps_the_plain_text() {
    let mut c = parse_legacy_string("§c§c§lHello§r§r §aWorld§l");
    let before = to_plain(&c);
    simplify(&mut c);
    assert_eq!(to_plain(&c), before);
    assert_eq!(before, "Hello World");
}

#[test]
fn test_to_plain() {
    let components = vec![
        MotdComponent::MinecraftColor(MinecraftColor::Red),
        MotdComponent::Formatting(Formatting::Bold),
        MotdComponent::Text("Hello".into()),
        MotdComponent::Formatting(Formatting::Reset),
        MotdComponent::Text(" World".into()),
    ];
    assert_eq!(to_plain(&components), "Hello World");
}

#[test]
fn test_to_minecraft() {
    let components = vec![
        MotdComponent::MinecraftColor(MinecraftColor::Red),
        MotdComponent::Text("Red text".into()),
    ];
    assert_eq!(to_minecraft(&components), "§cRed text");
}

#[test]
fn test_to_html() {
    let components = vec![
        MotdComponent::MinecraftColor(MinecraftColor::Gold),
        MotdComponent::Text("Gold text".into()),
    ];
    let html = to_html(&components);
    assert!(html.contains("<span style=\"color: #FFAA00\">"));
    assert!(html.contains("Gold text"));
    assert!(html.contains("</span>"));
}

#[test]
fn test_to_ansi() {
    let components = vec![
        MotdComponent::MinecraftColor(MinecraftColor::Red),
        MotdComponent::Text("Red".into()),
        MotdComponent::Formatting(Formatting::Reset),
    ];
    let ansi = to_ansi(&components);
    assert!(ansi.contains("\x1b[38;2;255;85;85m"));
    assert!(ansi.contains("Red"));
    assert!(ansi.contains("\x1b[0m"));
}

#[test]
fn minecraft_text_writes_web_colors_and_tags() {
    let components = vec![
        MotdComponent::WebColor(WebColor::new(1, 2, 0xAB)),
        MotdComponent::Formatting(Formatting::Italic),
        MotdComponent::TranslationTag { id: "k".to_string() },
    ];
    assert_eq!(to_minecraft(&components), "§#0102AB§ok");
    assert_eq!(encode_upper(&[0x0f, 0xa0]), "0FA0");
}

#[test]
fn html_escapes_markup() {
    assert_eq!(html_escape("<a href='x'>&\"</a>"), "&lt;a href='x'&gt;&amp;&quot;&lt;/a&gt;");
}

#[test]
fn reset_that_clears_formatting_is_kept() {
    let mut c = vec![
        MotdComponent::MinecraftColor(MinecraftColor::Red),
        MotdComponent::Formatting(Formatting::Bold),
        MotdComponent::Text("a".into()),
        MotdComponent::Formatting(Formatting::Reset),
        MotdComponent::MinecraftColor(MinecraftColor::Red),
        MotdComponent::Text("b".into()),
    ];
    let before = c.clone();
    remove_meaningless_resets_and_colors(&mut c);
    assert_eq!(c, before);
}

#[test]
fn color_repeating_the_color_in_force_goes() {
    let mut c = vec![
        MotdComponent::MinecraftColor(MinecraftColor::Red),
        MotdComponent::Text("a".into()),
        MotdComponent::MinecraftColor(MinecraftColor::Red),
        MotdComponent::Text("b".into()),
    ];
    remove_meaningless_resets_and_colors(&mut c);
    assert_eq!(
        c,
        vec![
            MotdComponent::MinecraftColor(MinecraftColor::Red),
            MotdComponent::Text("a".into()),
            MotdComponent::Text("b".into()),
        ]
    );
    let mut c = vec![
        MotdComponent::MinecraftColor(MinecraftColor::Red),
        MotdComponent::Text("a".into()),
        MotdComponent::Formatting(Formatting::Reset),
        MotdComponent::MinecraftColor(MinecraftColor::Red),
        MotdComponent::Text("b".into()),
    ];
    remove_meaningless_resets_and_colors(&mut c);
    assert_eq!(
        c,
        vec![
            MotdComponent::MinecraftColor(MinecraftColor::Red),
            MotdComponent::Text("a".into()),
            MotdComponent::Text("b".into()),
        ]
    );
}

#[test]
fn simplify_keeps_the_style_of_each_character() {
    let mut c = parse_legacy_string("§c§lHi§r§cthere§c!");
    simplify(&mut c);
    assert_eq!(to_minecraft(&c), "§c§lHi§cthere!");
}

#[test]
fn section_sign_text_renders_back_unchanged() {
    for raw in ["§cHello §lworld§r!", "a § b §z c", "§", "plain", "§a§b§k§o§n§m§r"] {
        assert_eq!(to_minecraft(&parse_legacy_string(raw)), raw);
    }
}
