use mcstatus::address::Address;
use mcstatus::dns::{srv_fallback, srv_lookup_needed, srv_record_name, srv_target_host};
use mcstatus::error::McStatusError;
use mcstatus::server::{BedrockServer, JavaServer, LegacyServer};
use mcstatus::text::{decimal_string, parse_i32, parse_u16, parse_u32, parse_unsigned_max, split_char};
use mcstatus::util::{or_none, retry_exhausted, retry_step, RetryAction};

#[test]
fn test_parse_address_with_port() {
    let addr = Address::parse_address("example.com:25565", 25565).unwrap();
    assert_eq!(addr.host, "example.com");
    assert_eq!(addr.port, 25565);
}

#[test]
fn test_parse_address_default_port() {
    let addr = Address::parse_address("example.com", 25565).unwrap();
    assert_eq!(addr.host, "example.com");
    assert_eq!(addr.port, 25565);
}

#[test]
fn test_parse_address_custom_default() {
    let addr = Address::parse_address("example.com", 19132).unwrap();
    assert_eq!(addr.port, 19132);
}

#[test]
fn test_parse_address_ipv6() {
    let addr = Address::parse_address("[::1]:25565", 25565).unwrap();
    assert_eq!(addr.host, "::1");
    assert_eq!(addr.port, 25565);
}

#[test]
fn test_parse_address_ipv6_no_port() {
    let addr = Address::parse_address("[::1]", 25565).unwrap();
    assert_eq!(addr.host, "::1");
    assert_eq!(addr.port, 25565);
}

#[test]
fn test_parse_address_ipv4() {
    let addr = Address::parse_address("127.0.0.1:25565", 25565).unwrap();
    assert_eq!(addr.host, "127.0.0.1");
    assert_eq!(addr.port, 25565);
}

#[test]
fn test_parse_address_empty() {
    assert!(Address::parse_address("", 25565).is_err());
}

#[test]
fn test_parse_address_invalid_port() {
    assert!(Address::parse_address("example.com:port", 25565).is_err());
    assert!(Address::parse_address("example.com:99999", 25565).is_err());
}

#[test]
fn address_errors_name_the_problem() {
    assert_eq!(Address::parse_address("", 1).err().unwrap(), "Address cannot be empty");
    assert_eq!(Address::parse_address(":25565", 1).err().unwrap(), "Host cannot be empty");
    assert_eq!(Address::parse_address("h:x", 1).err().unwrap(), "Invalid port: 'x'");
    assert_eq!(Address::parse_address("[::1]x", 1).err().unwrap(), "Invalid address format: '[::1]x'");
    assert_eq!(Address::parse_address("[::1]:", 1).err().unwrap(), "Invalid port: ''");
    let a = Address::parse_address("a:b:7", 1).unwrap();
    assert_eq!((a.host.as_str(), a.port), ("a:b", 7));
}

#[test]
fn test_display() {
    let addr = Address::new("example.com".into(), 25565);
    assert_eq!(addr.to_string(), "example.com:25565");

    let addr_ipv6 = Address::new("::1".into(), 25565);
    assert_eq!(addr_ipv6.to_string(), "[::1]:25565");
}

#[test]
fn address_text_parses_back() {
    for (host, port) in [("example.com", 1u16), ("::1", 65535), ("10.0.0.1", 0)] {
        let a = Address::new(host.to_string(), port);
        let b = Address::parse_address(&a.to_string(), 9).unwrap();
        assert_eq!((b.host, b.port), (host.to_string(), port));
    }
}

#[test]
fn test_java_server_new() {
    let server = JavaServer::new("example.com", Some(25565), 3.0, None).unwrap();
    assert_eq!(server.address().host, "example.com");
    assert_eq!(server.address().port, 25565);
}

#[test]
fn test_java_server_default_port() {
    let server = JavaServer::new("example.com", None, 3.0, None).unwrap();
    assert_eq!(server.address().port, 25565);
}

#[test]
fn test_bedrock_server_default_port() {
    let server = BedrockServer::new("example.com", None, 3.0).unwrap();
    assert_eq!(server.address().port, 19132);
}

#[test]
fn test_legacy_server_default_port() {
    let server = LegacyServer::new("example.com", None, 3.0).unwrap();
    assert_eq!(server.address().port, 25565);
}

#[test]
fn server_lookup_parses_the_address() {
    let s = JavaServer::lookup("mc.example.com:25570", 1.0).unwrap();
    assert_eq!((s.address.port, s.query_port), (25570, 25565));
    let s = JavaServer::new("h", Some(1), 1.0, None).unwrap();
    assert_eq!(s.query_port, 1);
    assert!(matches!(BedrockServer::lookup("", 1.0), Err(McStatusError::InvalidAddress(_))));
    assert_eq!(BedrockServer::lookup("h", 1.0).unwrap().address.port, 19132);
    assert_eq!(LegacyServer::lookup("h:7", 1.0).unwrap().address.port, 7);
}

#[test]
fn test_or_none() {
    assert_eq!(or_none(Some(1), None), Some(1));
    assert_eq!(or_none(None, Some(2)), Some(2));
    assert_eq!(or_none(Some(0), None), Some(0));
    assert_eq!(or_none::<i32>(None, None), None);
}

#[test]
fn retry_returns_success_at_once_and_the_last_failure() {
    assert!(matches!(retry_step(3, 0, Ok::<i32, McStatusError>(42)), RetryAction::Return(Ok(42))));
    assert!(matches!(retry_step::<i32>(3, 1, Err(McStatusError::Timeout)), RetryAction::Wait));
    assert!(matches!(
        retry_step::<i32>(3, 2, Err(McStatusError::NoResponse)),
        RetryAction::Return(Err(McStatusError::NoResponse))
    ));
    match retry_exhausted::<i32>() {
        Err(McStatusError::Other(m)) => assert_eq!(m, "Retry exhausted without any attempts"),
        _ => panic!("expected an error"),
    }
}

#[test]
fn srv_lookup_only_without_a_port() {
    assert!(!srv_lookup_needed("example.com:25565"));
    assert!(srv_lookup_needed("localhost"));
    assert!(srv_lookup_needed("[::1]"));
    assert!(!srv_lookup_needed("[::1]:25565"));
    assert_eq!(srv_record_name("example.com"), "_minecraft._tcp.example.com");
    assert_eq!(srv_target_host("mc.example.com."), "mc.example.com");
    let a = Address::new("a".into(), 1);
    let b = Address::new("b".into(), 2);
    assert_eq!(srv_fallback(a.clone(), Ok(Some(b))).host, "b");
    assert_eq!(srv_fallback(a.clone(), Err("x".into())).host, "a");
    assert_eq!(srv_fallback(a, Ok(None)).port, 1);
}

#[test]
fn numbers_parse_as_std_does() {
    for s in ["0", "+7", "4294967295", "", "+", "-1", "4294967296", "1a", " 1"] {
        assert_eq!(parse_u32(s), s.parse::<u32>().ok(), "u32 {s:?}");
        assert_eq!(parse_u16(s), s.parse::<u16>().ok(), "u16 {s:?}");
    }
    for s in ["-2147483648", "2147483647", "-2147483649", "2147483648", "-", "-0", "+5"] {
        assert_eq!(parse_i32(s), s.parse::<i32>().ok(), "i32 {s:?}");
    }
}

#[test]
fn split_matches_std() {
    for (s, sep) in [("a;b;;c", ';'), ("", ';'), (";", ';'), ("x§y", '§')] {
        let expected: Vec<String> = s.split(sep).map(|p| p.to_string()).collect();
        assert_eq!(split_char(s, sep), expected);
    }
}

#[test]
fn decimal_text_parses_back() {
    for n in [0u64, 9, 10, 65535, 4294967295, u64::MAX] {
        assert_eq!(parse_unsigned_max(&decimal_string(n), u64::MAX), Some(n));
    }
    assert_eq!(parse_unsigned_max(&decimal_string(65536), 65535), None);
}
