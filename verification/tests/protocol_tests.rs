use mcstatus::address::Address;
use mcstatus::buffer::Buffer;
use mcstatus::error::McStatusError;
use mcstatus::io::{read_mc_bytearray, read_mc_utf, read_varint, write_mc_bytearray, write_mc_utf, write_varint};
use mcstatus::protocol::bedrock::{self, BedrockClient};
use mcstatus::protocol::java::{read_varint_from_buffer, JavaClient};
use mcstatus::protocol::legacy::{self, decode_utf16be, LegacyClient};
use mcstatus::protocol::query::{
    find_subsequence, read_null_terminated_ascii, read_null_terminated_iso, session_id_from_draw,
    QueryClient,
};

fn utf16be(s: &str) -> Vec<u8> {
    let mut data = Vec::new();
    for ch in s.encode_utf16() {
        data.extend_from_slice(&ch.to_be_bytes());
    }
    data
}

#[test]
fn bedrock_test_request_status_data() {
    assert_eq!(bedrock::REQUEST_STATUS_DATA.len(), 33);
    assert_eq!(bedrock::REQUEST_STATUS_DATA[0], 0x01);
}

#[test]
fn test_parse_response_valid() {
    let info = "Pocketmine-MP;§cHello;422;1.18.0;0;20;Survival;;world";
    let info_bytes = info.as_bytes();
    let name_length = info_bytes.len() as u16;

    let mut response = vec![0x1c];
    response.extend_from_slice(&vec![0u8; 33]);
    response.extend_from_slice(&name_length.to_be_bytes());
    response.extend_from_slice(info_bytes);

    let result = BedrockClient::<f64>::parse_response(&response, 42.0);
    assert!(result.is_ok());
    let status = result.unwrap();
    assert_eq!(status.players.online, 0);
    assert_eq!(status.players.max, 20);
    assert_eq!(status.latency, 42.0);
}

#[test]
fn test_parse_response_too_short() {
    let data = vec![0u8; 10];
    assert!(BedrockClient::<f64>::parse_response(&data, 0.0).is_err());
}

#[test]
fn bedrock_response_cut_short_of_its_info_fails() {
    let mut response = vec![0x1c];
    response.extend_from_slice(&vec![0u8; 33]);
    response.extend_from_slice(&10u16.to_be_bytes());
    response.extend_from_slice(b"abc");
    match BedrockClient::<f64>::parse_response(&response, 0.0) {
        Err(McStatusError::Protocol(m)) => assert_eq!(m, "Bedrock response too short for server info"),
        _ => panic!("expected a protocol error"),
    }
    let mut response = vec![0x1c];
    response.extend_from_slice(&vec![0u8; 33]);
    response.extend_from_slice(&3u16.to_be_bytes());
    response.extend_from_slice(b"a;b");
    match BedrockClient::<f64>::parse_response(&response, 0.0) {
        Err(McStatusError::Protocol(m)) => {
            assert_eq!(m, "Bedrock response has too few fields: expected at least 6, got 2")
        }
        _ => panic!("expected a protocol error"),
    }
}

#[test]
fn test_build_handshake_packet() {
    let mut packet = Buffer::new();
    write_varint(&mut packet, 0).unwrap();
    write_varint(&mut packet, 47).unwrap();
    write_mc_utf(&mut packet, "example.com").unwrap();
    packet.write_ushort(25565);
    write_varint(&mut packet, 1).unwrap();

    let mut framed = Buffer::new();
    write_mc_bytearray(&mut framed, packet.as_bytes()).unwrap();

    let bytes = framed.as_bytes().to_vec();
    assert!(!bytes.is_empty());

    let mut reader = Buffer::from_bytes(bytes);
    let inner = read_mc_bytearray(&mut reader).unwrap();
    assert!(!inner.is_empty());
}

#[test]
fn test_build_status_request() {
    let mut request = Buffer::new();
    write_varint(&mut request, 0).unwrap();

    let mut framed = Buffer::new();
    write_mc_bytearray(&mut framed, request.as_bytes()).unwrap();

    assert!(framed.len() >= 2);
}

#[test]
fn test_build_ping_request() {
    let mut request = Buffer::new();
    write_varint(&mut request, 1).unwrap();
    request.write_ulonglong(12345678);

    let mut framed = Buffer::new();
    write_mc_bytearray(&mut framed, request.as_bytes()).unwrap();

    let mut reader = Buffer::from_bytes(framed.into_bytes());
    let inner = read_mc_bytearray(&mut reader).unwrap();

    assert_eq!(inner.len(), 1 + 8);
}

#[test]
fn java_client_packets_are_framed() {
    let client = JavaClient::new((), Address::new("example.com".to_string(), 25565), 47, Some(12345678));
    assert_eq!(client.ping_token, 12345678);
    assert_eq!(client.status_request_packet(), vec![0x01, 0x00]);
    let ping = client.ping_request_packet();
    assert_eq!(ping, vec![0x09, 0x01, 0, 0, 0, 0, 0, 0xBC, 0x61, 0x4E]);
    let hs = client.handshake_packet().unwrap();
    let mut reader = Buffer::from_bytes(hs);
    let inner = read_mc_bytearray(&mut reader).unwrap();
    let mut inner = Buffer::from_bytes(inner);
    assert_eq!(read_varint(&mut inner).unwrap(), 0);
    assert_eq!(read_varint(&mut inner).unwrap(), 47);
    assert_eq!(read_mc_utf(&mut inner).unwrap(), "example.com");
    assert_eq!(inner.read_ushort().unwrap(), 25565);
    assert_eq!(read_varint(&mut inner).unwrap(), 1);
    assert_eq!(inner.remaining(), 0);
}

#[test]
fn java_client_draws_a_ping_token_when_none_is_given() {
    let client = JavaClient::new((), Address::new("h".to_string(), 1), 47, None);
    assert!(client.ping_token >= 0);
}

#[test]
fn java_status_answer_gives_its_json_text() {
    let client = JavaClient::new((), Address::new("h".to_string(), 1), 47, Some(5));
    let json = r#"{"description":"Test"}"#;
    let mut framed = Buffer::new();
    write_varint(&mut framed, 0).unwrap();
    write_mc_utf(&mut framed, json).unwrap();
    assert_eq!(client.handle_status_response(framed).unwrap(), json);

    let mut wrong = Buffer::new();
    wrong.write_ubyte(1);
    assert!(matches!(client.handle_status_response(wrong), Err(McStatusError::Protocol(_))));

    let mut negative = Buffer::new();
    negative.write_ubyte(0);
    write_varint(&mut negative, -1).unwrap();
    match client.handle_status_response(negative) {
        Err(McStatusError::Protocol(m)) => assert_eq!(m, "Invalid JSON length in status response"),
        _ => panic!("expected a protocol error"),
    }
}

#[test]
fn java_ping_answer_must_echo_the_token() {
    let client = JavaClient::new((), Address::new("h".to_string(), 1), 47, Some(5));
    let mut good = Buffer::new();
    good.write_ubyte(1);
    good.write_ulonglong(5);
    assert!(client.handle_ping_response(good).is_ok());
    let mut bad = Buffer::new();
    bad.write_ubyte(1);
    bad.write_ulonglong(u64::MAX);
    match client.handle_ping_response(bad) {
        Err(McStatusError::Protocol(m)) => {
            assert_eq!(m, "Received mangled ping response (expected token 5, got -1)")
        }
        _ => panic!("expected a protocol error"),
    }
}

#[test]
fn varint_from_buffer_keeps_32_bits_and_stops_at_five_bytes() {
    let mut b = Buffer::from_bytes(vec![0xFF, 0xFF, 0xFF, 0xFF, 0x0F]);
    assert_eq!(read_varint_from_buffer(&mut b).unwrap(), -1);
    let mut b = Buffer::from_bytes(vec![0xFF, 0xFF, 0xFF, 0xFF, 0x7F]);
    assert_eq!(read_varint_from_buffer(&mut b).unwrap(), -1);
    let mut b = Buffer::from_bytes(vec![0x80, 0x80, 0x80, 0x80, 0x80, 0x01]);
    match read_varint_from_buffer(&mut b) {
        Err(McStatusError::Protocol(m)) => assert_eq!(m, "Varint too long for 32-bit integer"),
        _ => panic!("expected a protocol error"),
    }
    assert!(JavaClient::<()>::check_packet_length(0).is_err());
    assert_eq!(JavaClient::<()>::check_packet_length(7).unwrap(), 7);
}

#[test]
fn legacy_test_request_status_data() {
    assert_eq!(legacy::REQUEST_STATUS_DATA, [0xFE, 0x01, 0xFA]);
}

#[test]
fn test_parse_response_1_4_format() {
    let fields = ["§1", "61", "1.4.7", "A Minecraft Server", "5", "20"];
    let joined = fields.join("\0");
    let data = utf16be(&joined);

    let result = LegacyClient::<()>::parse_response(&data, 12.3).unwrap();
    assert_eq!(result.version.protocol, 61);
    assert_eq!(result.version.name, "1.4.7");
    assert_eq!(result.motd.to_plain(), "A Minecraft Server");
    assert_eq!(result.players.online, 5);
    assert_eq!(result.players.max, 20);
    assert_eq!(result.latency, 12.3);
}

#[test]
fn test_parse_response_pre_1_4_format() {
    let data = utf16be("My Server§3§10");

    let result = LegacyClient::<()>::parse_response(&data, 5.0).unwrap();
    assert_eq!(result.version.name, "<1.4");
    assert_eq!(result.motd.to_plain(), "My Server");
    assert_eq!(result.players.online, 3);
    assert_eq!(result.players.max, 10);
}

#[test]
fn legacy_answers_with_missing_fields_fail() {
    let data = utf16be("§1\x0061\x001.4.7");
    match LegacyClient::<()>::parse_response(&data, 0.0) {
        Err(McStatusError::Protocol(m)) => {
            assert_eq!(m, "Received invalid legacy response (expected 6 fields)")
        }
        _ => panic!("expected a protocol error"),
    }
    let data = utf16be("only a motd");
    match LegacyClient::<()>::parse_response(&data, 0.0) {
        Err(McStatusError::Protocol(m)) => assert_eq!(m, "Received invalid kick packet reason"),
        _ => panic!("expected a protocol error"),
    }
    let data = utf16be("M§x§y");
    let r = LegacyClient::<()>::parse_response(&data, 0.0).unwrap();
    assert_eq!((r.players.online, r.players.max), (0, 0));
}

#[test]
fn utf16be_decoding_drops_surrogates_and_odd_bytes() {
    assert_eq!(decode_utf16be(&[0x00, 0x41, 0xD8, 0x00, 0x00, 0xE9, 0x42]), "Aé");
}

#[test]
fn test_generate_session_id() {
    let id = QueryClient::<()>::generate_session_id();
    assert_eq!(id & !0x0F0F_0F0F, 0);
}

#[test]
fn test_read_null_terminated_iso() {
    let data = b"hello\0world";
    let result = read_null_terminated_iso(data).unwrap();
    assert_eq!(result, "hello");
}

#[test]
fn null_terminated_reads_run_to_the_end_without_a_zero() {
    assert_eq!(read_null_terminated_iso(&[0x61, 0xE9]).unwrap(), "aé");
    assert_eq!(read_null_terminated_ascii(b"1234\0x").unwrap(), "1234");
    assert_eq!(read_null_terminated_ascii(&[0xFF]).unwrap(), "\u{FFFD}");
    assert_eq!(find_subsequence(b"abcabc", b"ca"), Some(2));
    assert_eq!(find_subsequence(b"ab", b"abc"), None);
}

#[test]
fn test_parse_query_response() {
    let mut data = Vec::new();
    data.push(0x00);
    data.extend_from_slice(&[0x01, 0x02, 0x03, 0x04]);
    data.extend_from_slice(&[0x05, 0x06, 0x07, 0x08]);
    data.extend_from_slice(b"splitnum\0\x80\x00");

    data.extend_from_slice(b"hostname\0Test Server\0");
    data.extend_from_slice(b"numplayers\x005\0");
    data.extend_from_slice(b"maxplayers\x0020\0");
    data.extend_from_slice(b"gametype\0SMP\0");

    data.push(0x00);
    data.push(0x00);

    data.push(0x01);
    data.extend_from_slice(b"player_\0");
    data.extend_from_slice(b"Player1\0");
    data.extend_from_slice(b"Player2\0");
    data.push(0x00);

    let (raw, players) = QueryClient::<()>::parse_response(&mut data).unwrap();
    assert_eq!(raw.hostname.as_deref(), Some("Test Server"));
    assert_eq!(raw.numplayers, Some(5));
    assert_eq!(raw.maxplayers, Some(20));
    assert_eq!(players.len(), 2);
    assert_eq!(players[0], "Player1");
}

#[test]
fn query_response_that_is_cut_off_is_reported() {
    let mut data = vec![0u8; 9];
    data.extend_from_slice(b"splitnum\0\x80\x00");
    data.extend_from_slice(b"numplayers");
    assert!(QueryClient::<()>::try_parse_response(&data).is_none());
    let short = vec![0u8; 12];
    match QueryClient::<()>::parse_response(&short) {
        Err(McStatusError::Protocol(m)) => assert_eq!(m, "Query response too short"),
        _ => panic!("expected a protocol error"),
    }
}

#[test]
fn query_packets_carry_session_and_challenge() {
    assert_eq!(
        QueryClient::<()>::handshake_packet(0x01020304),
        vec![0xFE, 0xFD, 0x09, 0x01, 0x02, 0x03, 0x04]
    );
    let mut client = QueryClient::new(());
    client.handle_handshake_response(b"\x09\x01\x02\x03\x04-12345\0").unwrap();
    assert_eq!(client.challenge, -12345);
    assert_eq!(
        client.query_packet(1),
        vec![0xFE, 0xFD, 0x00, 0, 0, 0, 1, 0xFF, 0xFF, 0xCF, 0xC7, 0, 0, 0, 0]
    );
    assert!(client.handle_handshake_response(b"\x09\x01\x02").is_err());
    assert!(client.handle_handshake_response(b"\x09\x01\x02\x03\x04abc\0").is_err());
    assert_eq!(client.challenge, -12345);
}

#[test]
fn legacy_answers_start_with_the_kick_packet_id() {
    assert!(LegacyClient::<()>::check_packet_id(0xFF).is_ok());
    match LegacyClient::<()>::check_packet_id(0x00) {
        Err(McStatusError::Protocol(m)) => assert_eq!(m, "Received invalid packet ID from legacy server"),
        _ => panic!("expected a protocol error"),
    }
}

#[test]
fn session_id_keeps_the_low_nibble_of_each_byte() {
    assert_eq!(session_id_from_draw(0x7FFF_FFFF), 0x0F0F_0F0F);
    assert_eq!(session_id_from_draw(0x1234_5678), 0x0204_0608);
    assert_eq!(session_id_from_draw(0), 0);
}

#[test]
fn cut_off_query_response_is_too_short() {
    let mut data = vec![0u8; 9];
    data.extend_from_slice(b"splitnum\0\x80\x00");
    data.extend_from_slice(b"numplayers");
    match QueryClient::<()>::parse_response(&data) {
        Err(McStatusError::Protocol(m)) => assert_eq!(m, "Query response too short"),
        _ => panic!("expected a protocol error"),
    }
}

#[test]
fn handshake_host_limit_counts_characters() {
    let client = JavaClient::new((), Address::new("é".repeat(20000), 25565), 47, Some(1));
    assert!(client.handshake_packet().is_ok());
    let client = JavaClient::new((), Address::new("a".repeat(32768), 25565), 47, Some(1));
    assert!(client.handshake_packet().is_err());
}
