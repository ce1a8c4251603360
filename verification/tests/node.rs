use ow_protocol::node::{parse_u64, Config, ConfigError, IntParseError};

fn some(s: &str) -> Option<String> {
    Some(s.to_string())
}

#[test]
fn start_block_parsing() {
    assert_eq!(parse_u64("0"), Ok(0));
    assert_eq!(parse_u64("+42"), Ok(42));
    assert_eq!(parse_u64("18446744073709551615"), Ok(u64::MAX));
    assert_eq!(parse_u64(""), Err(IntParseError::Empty));
    assert_eq!(parse_u64("+"), Err(IntParseError::InvalidDigit));
    assert_eq!(parse_u64("-1"), Err(IntParseError::InvalidDigit));
    assert_eq!(parse_u64(" 1"), Err(IntParseError::InvalidDigit));
    assert_eq!(parse_u64("12a"), Err(IntParseError::InvalidDigit));
    assert_eq!(parse_u64("18446744073709551616"), Err(IntParseError::PosOverflow));
    assert_eq!(parse_u64("99999999999999999999x"), Err(IntParseError::PosOverflow));
    for text in ["", "+", "-1", "12a", "7", "+9", "18446744073709551616", "99999999999999999999x", "١"] {
        let ours = parse_u64(text).map_err(|e| e.to_string());
        let std_result = text.parse::<u64>().map_err(|e| e.to_string());
        assert_eq!(ours, std_result, "{text}");
    }
}

#[test]
fn node_config_is_built_in_order() {
    let c = Config::build(some("key"), some("http://rpc"), some("http://beacon"), some("ws://ws"), some("123")).unwrap();
    assert_eq!(c.private_key, "key");
    assert_eq!(c.rpc_url, "http://rpc");
    assert_eq!(c.beacon_rpc_url, "http://beacon");
    assert_eq!(c.ws_url, "ws://ws");
    assert_eq!(c.start_block, 123);
    match Config::build(None, None, some("b"), None, None) {
        Err(ConfigError::MissingEnvVar(k)) => assert_eq!(k, "PRIVATE_KEY"),
        _ => panic!("expected PRIVATE_KEY"),
    }
    match Config::build(some("k"), some("r"), some("b"), None, some("x")) {
        Err(e @ ConfigError::MissingEnvVar(_)) => assert_eq!(e.to_string(), "Error getting environment variable `WS_URL`"),
        _ => panic!("expected WS_URL"),
    }
    match Config::build(some("k"), some("r"), some("b"), some("w"), None) {
        Err(ConfigError::MissingEnvVar(k)) => assert_eq!(k, "START_BLOCK"),
        _ => panic!("expected START_BLOCK"),
    }
    match Config::build(some("k"), some("r"), some("b"), some("w"), some("abc")) {
        Err(e @ ConfigError::InvalidStartBlock(IntParseError::InvalidDigit)) => {
            assert_eq!(e.to_string(), "invalid digit found in string")
        }
        _ => panic!("expected InvalidStartBlock"),
    }
}
