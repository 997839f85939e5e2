use mcstatus::json::{JsonNumber, JsonValue};
use mcstatus::response::bedrock::BedrockStatusResponse;
use mcstatus::response::forge::{decode_optimized_buffer, ForgeData, ForgeDataChannel, ForgeDataMod};
use mcstatus::response::java::JavaStatusResponse;
use mcstatus::response::legacy::LegacyStatusResponse;
use mcstatus::response::query::{parse_plugins, QueryResponse};
use mcstatus::response::raw::{
    RawForgeChannel, RawForgeData, RawForgeMod, RawJavaPlayer, RawJavaPlayers, RawJavaResponse,
    RawJavaVersion, RawMotd, RawQueryResponse,
};

fn to_json(v: &serde_json::Value) -> JsonValue {
    match v {
        serde_json::Value::Null => JsonValue::Null,
        serde_json::Value::Bool(b) => JsonValue::Bool(*b),
        serde_json::Value::Number(n) => {
            if let Some(u) = n.as_u64() {
                JsonValue::Number(JsonNumber::PosInt(u))
            } else if let Some(i) = n.as_i64() {
                JsonValue::Number(JsonNumber::NegInt(i))
            } else {
                JsonValue::Number(JsonNumber::Float(n.to_string()))
            }
        }
        serde_json::Value::String(s) => JsonValue::String(s.clone()),
        serde_json::Value::Array(a) => JsonValue::Array(a.iter().map(to_json).collect()),
        serde_json::Value::Object(m) => {
            JsonValue::Object(m.iter().map(|(k, v)| (k.clone(), to_json(v))).collect())
        }
    }
}

fn json(text: &str) -> JsonValue {
    to_json(&serde_json::from_str::<serde_json::Value>(text).unwrap())
}

fn strings(v: &[&str]) -> Vec<String> {
    v.iter().map(|s| s.to_string()).collect()
}

fn raw_java(description: RawMotd, players: Option<RawJavaPlayers>, version: Option<RawJavaVersion>) -> RawJavaResponse {
    RawJavaResponse {
        description,
        players,
        version,
        enforces_secure_chat: None,
        favicon: None,
        forge_data: None,
        modinfo: None,
    }
}

fn version(name: &str, protocol: u32) -> Option<RawJavaVersion> {
    Some(RawJavaVersion { name: name.to_string(), protocol })
}

#[test]
fn test_build_bedrock_response() {
    let data = strings(&[
        "Pocketmine-MP",
        "§r§4G§r§6a§r§ey §r§2S§r§9e§r§1r§r§5v§r§ce§r§6r",
        "422",
        "1.18.100500",
        "0",
        "20",
        "Survival",
        "Creative",
        "world",
    ]);

    let response = BedrockStatusResponse::build(&data, 42.0).unwrap();
    assert_eq!(response.players.online, 0);
    assert_eq!(response.players.max, 20);
    assert_eq!(response.version.protocol, Some(422));
    assert_eq!(response.version.name.as_deref(), Some("1.18.100500"));
    assert_eq!(response.version.brand.as_deref(), Some("Pocketmine-MP"));
    assert_eq!(response.map_name.as_deref(), Some("world"));
    assert_eq!(response.gamemode.as_deref(), Some("Creative"));
    assert_eq!(response.latency, 42.0);
}

#[test]
fn test_build_minimal_bedrock() {
    let data = strings(&["Brand", "MOTD", "1", "v1", "0", "10"]);

    let response = BedrockStatusResponse::build(&data, 10.0).unwrap();
    assert_eq!(response.players.online, 0);
    assert_eq!(response.players.max, 10);
    assert_eq!(response.motd.to_plain(), "MOTD");
}

#[test]
fn test_build_too_few_fields() {
    let data = strings(&["a", "b", "c"]);
    assert!(BedrockStatusResponse::build(&data, 0.0).is_err());
}

#[test]
fn test_build_empty_fields() {
    let data: Vec<String> =
        vec![String::new(), "Hello".into(), String::new(), String::new(), "5".into(), "20".into()];

    let response = BedrockStatusResponse::build(&data, 0.0).unwrap();
    assert_eq!(response.version.brand, None);
    assert_eq!(response.version.protocol, None);
    assert_eq!(response.version.name, None);
}

#[test]
fn bedrock_counts_that_do_not_parse_are_zero() {
    let data = strings(&["B", "M", "+7", "v", "-1", "4294967296", "x", ""]);
    let response = BedrockStatusResponse::build(&data, ()).unwrap();
    assert_eq!(response.version.protocol, Some(7));
    assert_eq!((response.players.online, response.players.max), (0, 0));
    assert_eq!(response.gamemode, None);
    assert_eq!(response.map_name, None);
    assert!(response.motd.bedrock);
    let e = BedrockStatusResponse::build(&strings(&["a"]), ()).err().unwrap();
    assert_eq!(e, "Bedrock response has too few fields: expected at least 6, got 1");
}

#[test]
fn test_build_v1_fml_format() {
    let value = json(
        r#"{
            "mods": [
                {"modId": "testmod", "modmarker": "1.0.0", "modName": "Test Mod", "version": "1.0.0"}
            ],
            "channels": [
                {"res": "test:channel", "version": "1.0", "required": true}
            ],
            "fmlNetworkVersion": 2
        }"#,
    );

    let forge = ForgeData::build(&value).unwrap();
    assert_eq!(forge.fml_network_version, Some(2));
    assert_eq!(forge.mods.len(), 1);
    assert_eq!(forge.mods[0].mod_id.as_deref(), Some("testmod"));
    assert_eq!(forge.channels.len(), 1);
    assert_eq!(forge.channels[0].name, "test:channel");
    assert!(forge.channels[0].required);
}

#[test]
fn test_build_empty() {
    let value = json("{}");
    let forge = ForgeData::build(&value).unwrap();
    assert!(forge.mods.is_empty());
    assert!(forge.channels.is_empty());
    assert_eq!(forge.fml_network_version, None);
}

#[test]
fn test_build_v3_compressed() {
    let value = json("{\"fmlNetworkVersion\": 3, \"d\": \"\\u0001\\u0001\"}");

    let forge = ForgeData::build(&value).unwrap();
    assert_eq!(forge.fml_network_version, Some(3));
}

#[test]
fn test_decode_optimized_buffer_empty() {
    let (channels, mods) = decode_optimized_buffer("").unwrap();
    assert!(channels.is_empty());
    assert!(mods.is_empty());
}

#[test]
fn compressed_forge_data_decodes_mods_and_channels() {
    // bytes: truncated=0, 1 mod ("a", "", "n", "v"), 1 channel ("c", "1", required)
    let bytes: Vec<u8> = vec![0, 1, 1, b'a', 0, 1, b'n', 1, b'v', 1, 1, b'c', 1, b'1', 1];
    let mut text = String::new();
    for pair in bytes.chunks(2) {
        let hi = pair[0] as u32;
        let lo = if pair.len() > 1 { pair[1] as u32 } else { 0 };
        text.push(char::from_u32(hi * 256 + lo).unwrap());
    }
    let (channels, mods) = decode_optimized_buffer(&text).unwrap();
    assert_eq!(mods.len(), 1);
    assert_eq!(mods[0].mod_id.as_deref(), Some("a"));
    assert_eq!(mods[0].marker, None);
    assert_eq!(mods[0].name.as_deref(), Some("n"));
    assert_eq!(mods[0].version.as_deref(), Some("v"));
    assert_eq!(channels.len(), 1);
    assert_eq!(channels[0].name, "c");
    assert_eq!(channels[0].version, "1");
    assert!(channels[0].required);
}

#[test]
fn forge_data_must_be_an_object() {
    assert_eq!(ForgeData::build(&json("[1]")).err().unwrap(), "Forge data must be a JSON object");
    assert!(ForgeDataChannel::build(&json("3")).is_err());
    assert!(ForgeDataMod::build(&json("\"x\"")).is_err());
    let forge = ForgeData::build(&json(r#"{"mods": [1, {"modId": "m"}], "channels": [{}], "truncated": true}"#)).unwrap();
    assert_eq!(forge.mods.len(), 1);
    assert_eq!(forge.channels[0].name, "");
    assert!(!forge.channels[0].required);
    assert_eq!(forge.truncated, Some(true));
}

#[test]
fn forge_data_from_raw_modinfo() {
    let raw = RawForgeData {
        mods: Some(vec![RawForgeMod {
            mod_id: Some("forge".into()),
            mod_marker: None,
            mod_name: None,
            version: Some("1".into()),
        }]),
        channels: Some(vec![RawForgeChannel { res: "r".into(), version: "2".into(), required: false }]),
        fml_network_version: Some(1),
        truncated: None,
        d: None,
    };
    let forge = ForgeData::from_raw(&raw);
    assert_eq!(forge.mods[0].mod_id.as_deref(), Some("forge"));
    assert_eq!(forge.channels[0].version, "2");
    assert_eq!(forge.fml_network_version, Some(1));
}

#[test]
fn test_build_minimal_response() {
    let text = r#"{"description": "A Minecraft Server", "players": {"max": 20, "online": 0}, "version": {"name": "1.8-pre1", "protocol": 44}}"#;
    let raw = raw_java(
        RawMotd::String("A Minecraft Server".into()),
        Some(RawJavaPlayers { online: 0, max: 20, sample: None }),
        version("1.8-pre1", 44),
    );

    let response = JavaStatusResponse::build(json(text), raw, 15.5).unwrap();
    assert_eq!(response.players.max, 20);
    assert_eq!(response.players.online, 0);
    assert_eq!(response.version.name, "1.8-pre1");
    assert_eq!(response.version.protocol, 44);
    assert_eq!(response.latency, 15.5);
    assert_eq!(response.motd.to_plain(), "A Minecraft Server");
}

#[test]
fn test_handle_status_response_valid() {
    let text = r#"{"description":"Test","players":{"max":20,"online":0},"version":{"name":"1.8","protocol":47}}"#;
    let raw = raw_java(
        RawMotd::String("Test".into()),
        Some(RawJavaPlayers { online: 0, max: 20, sample: None }),
        version("1.8", 47),
    );
    let result = JavaStatusResponse::build(json(text), raw, 10.0);
    assert!(result.is_ok());
    let status = result.unwrap();
    assert_eq!(status.motd.to_plain(), "Test");
    assert_eq!(status.players.max, 20);
}

#[test]
fn test_build_with_sample() {
    let raw = raw_java(
        RawMotd::String("Test".into()),
        Some(RawJavaPlayers {
            online: 2,
            max: 10,
            sample: Some(vec![
                RawJavaPlayer { name: "Player1".into(), id: "uuid-1".into() },
                RawJavaPlayer { name: "Player2".into(), id: "uuid-2".into() },
            ]),
        }),
        version("1.21", 766),
    );

    let response = JavaStatusResponse::build(JsonValue::Null, raw, 10.0).unwrap();
    let sample = response.players.sample.unwrap();
    assert_eq!(sample.len(), 2);
    assert_eq!(sample[0].name, "Player1");
    assert_eq!(sample[1].id, "uuid-2");
}

#[test]
fn test_build_missing_version() {
    let raw = raw_java(RawMotd::String("No version field".into()), None, None);
    assert!(JavaStatusResponse::build(json(r#"{"description": "No version field"}"#), raw, 0.0).is_err());
}

#[test]
fn test_build_missing_description() {
    let raw = raw_java(RawMotd::default(), None, version("1.8", 47));
    let response = JavaStatusResponse::build(json(r#"{"version": {"name": "1.8", "protocol": 47}}"#), raw, 0.0).unwrap();
    assert_eq!(response.motd.to_plain(), "");
}

#[test]
fn test_build_with_secure_chat_and_icon() {
    let mut raw = raw_java(
        RawMotd::String("Secure Server".into()),
        Some(RawJavaPlayers { online: 50, max: 100, sample: None }),
        version("1.19.2", 760),
    );
    raw.enforces_secure_chat = Some(true);
    raw.favicon = Some("data:image/png;base64,abc123".into());

    let response = JavaStatusResponse::build(JsonValue::Null, raw, 5.0).unwrap();
    assert_eq!(response.enforces_secure_chat, Some(true));
    assert_eq!(response.icon, Some("data:image/png;base64,abc123".into()));
}

#[test]
fn java_response_reads_chat_components_and_forge_data() {
    let mut raw = raw_java(
        RawMotd::Object(json(r#"{"text": "Hi", "color": "red"}"#)),
        None,
        version("1.20", 763),
    );
    raw.forge_data = Some(json(r#"{"fmlNetworkVersion": 3, "mods": [{"modId": "x"}]}"#));
    let response = JavaStatusResponse::build(JsonValue::Null, raw, ()).unwrap();
    assert_eq!(response.motd.to_plain(), "Hi");
    assert_eq!(response.players.online, 0);
    let forge = response.forge_data.unwrap();
    assert_eq!(forge.fml_network_version, Some(3));
    assert_eq!(forge.mods[0].mod_id.as_deref(), Some("x"));
}

#[test]
fn test_build_legacy_response() {
    let response = LegacyStatusResponse::build(61, "1.4.7", "§aA Minecraft Server", 5, 20, 12.3);

    assert_eq!(response.version.protocol, 61);
    assert_eq!(response.version.name, "1.4.7");
    assert_eq!(response.motd.to_plain(), "A Minecraft Server");
    assert_eq!(response.players.online, 5);
    assert_eq!(response.players.max, 20);
    assert_eq!(response.latency, 12.3);
}

#[test]
fn test_build_legacy_empty_motd() {
    let response = LegacyStatusResponse::build(39, "1.2.5", "", 0, 0, 0.0);
    assert_eq!(response.motd.to_plain(), "");
}

#[test]
fn test_build_query_response() {
    let raw = RawQueryResponse {
        hostname: Some("A Minecraft Server".into()),
        gametype: Some("SMP".into()),
        game_id: Some("MINECRAFT".into()),
        version: Some("1.21.4".into()),
        plugins: Some("Paper on 1.21.4: Essentials; WorldEdit".into()),
        map: Some("world".into()),
        numplayers: Some(5),
        maxplayers: Some(20),
        hostport: Some(25565),
        hostip: Some("192.168.1.1".into()),
        players: vec!["Player1".into(), "Player2".into()],
        software: None,
    };

    let response = QueryResponse::build(raw, vec![]);
    assert_eq!(response.motd.to_plain(), "A Minecraft Server");
    assert_eq!(response.players.online, 5);
    assert_eq!(response.players.max, 20);
    assert_eq!(response.players.list.len(), 2);
    assert_eq!(response.map_name.as_deref(), Some("world"));
    assert_eq!(response.game_type.as_deref(), Some("SMP"));

    let sw = response.software.unwrap();
    assert_eq!(sw.brand.as_deref(), Some("Paper on 1.21.4"));
    assert_eq!(sw.plugins.len(), 2);
    assert_eq!(sw.plugins[0], "Essentials");
}

#[test]
fn query_software_version_is_the_reported_version() {
    let mut raw = RawQueryResponse::default();
    raw.version = Some("1.21.4".into());
    raw.plugins = Some("Paper on 1.21.4: Essentials; WorldEdit".into());
    let sw = QueryResponse::build(raw, vec![]).software.unwrap();
    assert_eq!(sw.version.as_deref(), Some("1.21.4"));
    let mut only_software = RawQueryResponse::default();
    only_software.software = Some("sw".into());
    assert!(QueryResponse::build(only_software, vec![]).software.is_none());
}

#[test]
fn test_build_minimal_query() {
    let raw = RawQueryResponse::default();
    let response = QueryResponse::build(raw, vec![]);
    assert_eq!(response.motd.to_plain(), "");
    assert_eq!(response.players.online, 0);
    assert_eq!(response.players.max, 0);
}

#[test]
fn query_players_given_override_the_raw_list() {
    let mut raw = RawQueryResponse::default();
    raw.players = vec!["a".into()];
    raw.version = Some("1.20.1".into());
    raw.software = Some("sw".into());
    let response = QueryResponse::build(raw, vec!["b".into(), "c".into()]);
    assert_eq!(response.players.list, vec!["b".to_string(), "c".to_string()]);
    let sw = response.software.unwrap();
    assert_eq!(sw.version.as_deref(), Some("1.20.1"));
    assert_eq!(sw.brand, None);
    assert!(sw.plugins.is_empty());
}

#[test]
fn test_parse_plugins_no_colon() {
    let (brand, plugins) = parse_plugins("Vanilla");
    assert_eq!(brand.as_deref(), Some("Vanilla"));
    assert!(plugins.is_empty());
}

#[test]
fn test_parse_plugins_empty_brand() {
    let (brand, plugins) = parse_plugins(": plugin1; plugin2");
    assert_eq!(brand, None);
    assert_eq!(plugins.len(), 2);
}

#[test]
fn plugins_are_trimmed_and_empty_ones_dropped() {
    let (brand, plugins) = parse_plugins("  Paper \u{3000}: a ;; b : c ;  ");
    assert_eq!(brand.as_deref(), Some("Paper"));
    assert_eq!(plugins, vec!["a".to_string(), "b : c".to_string()]);
}
