use grow_a_cache::protocol::{
    Command, ParseError, ParseResult, Parser, Response, MAX_KEY_LENGTH, find_recovery_point,
};

#[test]
fn test_parse_get() {
    let buffer = b"get key1 key2 key3\r\n";
    match Parser::parse(buffer) {
        ParseResult::Complete(Command::Get { keys }, bytes) => {
            assert_eq!(keys, vec![b"key1".to_vec(), b"key2".to_vec(), b"key3".to_vec()]);
            assert_eq!(bytes, 20);
        }
        _ => panic!("Expected Get command"),
    }
}

#[test]
fn test_parse_gets() {
    let buffer = b"gets key1\r\n";
    match Parser::parse(buffer) {
        ParseResult::Complete(Command::Gets { keys }, _) => {
            assert_eq!(keys, vec![b"key1".to_vec()]);
        }
        _ => panic!("Expected Gets command"),
    }
}

#[test]
fn test_parse_set() {
    let buffer = b"set mykey 0 3600 5\r\n";
    match Parser::parse(buffer) {
        ParseResult::NeedData { command_bytes, data_bytes } => {
            assert_eq!(command_bytes, 20);
            assert_eq!(data_bytes, 5);
        }
        _ => panic!("Expected NeedData"),
    }
}

#[test]
fn test_parse_set_with_data() {
    let buffer = b"set mykey 0 3600 5\r\nhello\r\n";
    match Parser::parse_with_data(buffer) {
        ParseResult::Complete(Command::SetCmd { key, flags, exptime, bytes, noreply }, total) => {
            assert_eq!(key, b"mykey");
            assert_eq!(flags, 0);
            assert_eq!(exptime, 3600);
            assert_eq!(bytes, 5);
            assert!(!noreply);
            assert_eq!(total, 27);
        }
        _ => panic!("Expected Set command"),
    }
}

#[test]
fn test_parse_set_noreply() {
    let buffer = b"set mykey 0 3600 5 noreply\r\nhello\r\n";
    match Parser::parse_with_data(buffer) {
        ParseResult::Complete(Command::SetCmd { noreply, .. }, _) => {
            assert!(noreply);
        }
        _ => panic!("Expected Set command"),
    }
}

#[test]
fn test_parse_cas() {
    let buffer = b"cas mykey 0 3600 5 12345\r\nhello\r\n";
    match Parser::parse_with_data(buffer) {
        ParseResult::Complete(Command::Cas { key, cas_unique, .. }, _) => {
            assert_eq!(key, b"mykey");
            assert_eq!(cas_unique, 12345);
        }
        _ => panic!("Expected Cas command"),
    }
}

#[test]
fn test_parse_delete() {
    let buffer = b"delete mykey\r\n";
    match Parser::parse(buffer) {
        ParseResult::Complete(Command::Delete { key, noreply }, _) => {
            assert_eq!(key, b"mykey");
            assert!(!noreply);
        }
        _ => panic!("Expected Delete command"),
    }
}

#[test]
fn test_parse_delete_noreply() {
    let buffer = b"delete mykey noreply\r\n";
    match Parser::parse(buffer) {
        ParseResult::Complete(Command::Delete { key, noreply }, _) => {
            assert_eq!(key, b"mykey");
            assert!(noreply);
        }
        _ => panic!("Expected Delete command"),
    }
}

#[test]
fn test_parse_flush_all() {
    let buffer = b"flush_all\r\n";
    match Parser::parse(buffer) {
        ParseResult::Complete(Command::FlushAll { delay, noreply }, _) => {
            assert_eq!(delay, 0);
            assert!(!noreply);
        }
        _ => panic!("Expected FlushAll command"),
    }
}

#[test]
fn test_parse_flush_all_with_delay() {
    let buffer = b"flush_all 30\r\n";
    match Parser::parse(buffer) {
        ParseResult::Complete(Command::FlushAll { delay, .. }, _) => {
            assert_eq!(delay, 30);
        }
        _ => panic!("Expected FlushAll command"),
    }
}

#[test]
fn test_parse_stats() {
    let buffer = b"stats\r\n";
    match Parser::parse(buffer) {
        ParseResult::Complete(Command::Stats, _) => {}
        _ => panic!("Expected Stats command"),
    }
}

#[test]
fn test_parse_version() {
    let buffer = b"version\r\n";
    match Parser::parse(buffer) {
        ParseResult::Complete(Command::Version, _) => {}
        _ => panic!("Expected Version command"),
    }
}

#[test]
fn protocol_test_parse_quit() {
    let buffer = b"quit\r\n";
    match Parser::parse(buffer) {
        ParseResult::Complete(Command::Quit, _) => {}
        _ => panic!("Expected Quit command"),
    }
}

#[test]
fn protocol_test_parse_incomplete() {
    let buffer = b"get key";
    match Parser::parse(buffer) {
        ParseResult::Error(ParseError::Incomplete) => {}
        _ => panic!("Expected Incomplete error"),
    }
}

#[test]
fn test_parse_unknown_command() {
    let buffer = b"unknown command\r\n";
    match Parser::parse(buffer) {
        ParseResult::Error(ParseError::UnknownCommand(cmd)) => {
            assert_eq!(cmd, b"unknown");
        }
        _ => panic!("Expected UnknownCommand error"),
    }
}

#[test]
fn test_response_value() {
    let response = Response::value(b"key1", 0, b"hello", None);
    assert_eq!(&response[..], b"VALUE key1 0 5\r\nhello\r\n");
}

#[test]
fn test_response_value_with_cas() {
    let response = Response::value(b"key1", 0, b"hello", Some(12345));
    assert_eq!(&response[..], b"VALUE key1 0 5 12345\r\nhello\r\n");
}

#[test]
fn test_key_too_long() {
    let long_key = "k".repeat(MAX_KEY_LENGTH + 1);
    let buffer = format!("get {}\r\n", long_key);
    match Parser::parse(buffer.as_bytes()) {
        ParseResult::Error(ParseError::KeyTooLong(_)) => {}
        _ => panic!("Expected KeyTooLong error"),
    }
}

#[test]
fn test_key_at_limit_accepted() {
    let key = "k".repeat(MAX_KEY_LENGTH);
    let buffer = format!("get {}\r\n", key);
    match Parser::parse(buffer.as_bytes()) {
        ParseResult::Complete(Command::Get { keys }, _) => {
            assert_eq!(keys[0].len(), MAX_KEY_LENGTH);
        }
        _ => panic!("Expected 250-byte key to be accepted"),
    }
}

#[test]
fn test_parse_incr() {
    let buffer = b"incr counter 5\r\n";
    match Parser::parse(buffer) {
        ParseResult::Complete(Command::Incr { key, value, noreply }, _) => {
            assert_eq!(key, b"counter");
            assert_eq!(value, 5);
            assert!(!noreply);
        }
        _ => panic!("Expected Incr command"),
    }
}

#[test]
fn test_parse_decr() {
    let buffer = b"decr counter 3 noreply\r\n";
    match Parser::parse(buffer) {
        ParseResult::Complete(Command::Decr { key, value, noreply }, _) => {
            assert_eq!(key, b"counter");
            assert_eq!(value, 3);
            assert!(noreply);
        }
        _ => panic!("Expected Decr command"),
    }
}

#[test]
fn test_find_recovery_point() {
    assert_eq!(find_recovery_point(b"garbage\r\nnext"), Some(9));
    assert_eq!(find_recovery_point(b"no terminator"), None);
}

#[test]
fn test_parse_storage_bad_numbers() {
    match Parser::parse(b"set k x 0 5\r\n") {
        ParseResult::Error(ParseError::InvalidNumber) => {}
        _ => panic!("Expected InvalidNumber for flags"),
    }
    match Parser::parse(b"set k 0 0 notanumber\r\n") {
        ParseResult::Error(ParseError::InvalidNumber) => {}
        _ => panic!("Expected InvalidNumber for bytes"),
    }
    match Parser::parse(b"set k 0 0\r\n") {
        ParseResult::Error(ParseError::InvalidCommand) => {}
        _ => panic!("Expected InvalidCommand for missing fields"),
    }
}
