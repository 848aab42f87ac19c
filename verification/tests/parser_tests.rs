use grow_a_cache::echo;
use grow_a_cache::ping;

#[test]
fn test_parse_echo() {
    match echo::parse(b"100\r\n") {
        echo::ParseResult::Complete(echo::Command::Echo { length, header_len }) => {
            assert_eq!(length, 100);
            assert_eq!(header_len, 5);
        }
        other => panic!("unexpected: {:?}", other),
    }
}

#[test]
fn parser_test_parse_quit() {
    match echo::parse(b"QUIT\r\n") {
        echo::ParseResult::Complete(echo::Command::Quit) => {}
        other => panic!("unexpected: {:?}", other),
    }
}

#[test]
fn parser_test_incomplete() {
    match echo::parse(b"100") {
        echo::ParseResult::Incomplete => {}
        other => panic!("unexpected: {:?}", other),
    }
}

#[test]
fn test_invalid_length() {
    match echo::parse(b"abc\r\n") {
        echo::ParseResult::InvalidLength => {}
        other => panic!("unexpected: {:?}", other),
    }
}

#[test]
fn test_response_header() {
    let mut buf = [0u8; 20];
    let len = echo::response_header(12345, &mut buf);
    assert_eq!(&buf[..len], b"12345\r\n");
}

#[test]
fn test_parse_ping() {
    match ping::parse(b"PING\r\n") {
        ping::ParseResult::Complete(ping::Command::Ping, 6) => {}
        other => panic!("unexpected: {:?}", other),
    }

    match ping::parse(b"ping\r\n") {
        ping::ParseResult::Complete(ping::Command::Ping, 6) => {}
        other => panic!("unexpected: {:?}", other),
    }
}

#[test]
fn test_parse_ping_msg() {
    match ping::parse(b"PING hello\r\n") {
        ping::ParseResult::Complete(ping::Command::PingMsg(msg), 12) => {
            assert_eq!(msg, b"hello");
        }
        other => panic!("unexpected: {:?}", other),
    }
}

#[test]
fn ping_test_parse_quit() {
    match ping::parse(b"QUIT\r\n") {
        ping::ParseResult::Complete(ping::Command::Quit, 6) => {}
        other => panic!("unexpected: {:?}", other),
    }
}

#[test]
fn ping_test_incomplete() {
    match ping::parse(b"PING") {
        ping::ParseResult::Incomplete => {}
        other => panic!("unexpected: {:?}", other),
    }
}

#[test]
fn test_unknown_command() {
    match ping::parse(b"FOO\r\n") {
        ping::ParseResult::Error => {}
        other => panic!("unexpected: {:?}", other),
    }
}
