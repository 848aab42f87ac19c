use grow_a_cache::resp::{parse, Frame, ParseResult};

#[test]
fn test_parse_simple_string() {
    let buffer = b"+OK\r\n";
    match parse(buffer) {
        ParseResult::Complete(Frame::Simple(s), consumed) => {
            assert_eq!(s, b"OK");
            assert_eq!(consumed, 5);
        }
        _ => panic!("Expected simple string"),
    }
}

#[test]
fn test_parse_error() {
    let buffer = b"-ERR unknown command\r\n";
    match parse(buffer) {
        ParseResult::Complete(Frame::Error(s), consumed) => {
            assert_eq!(s, b"ERR unknown command");
            assert_eq!(consumed, 22);
        }
        _ => panic!("Expected error"),
    }
}

#[test]
fn test_parse_integer() {
    let buffer = b":1000\r\n";
    match parse(buffer) {
        ParseResult::Complete(Frame::Integer(n), consumed) => {
            assert_eq!(n, 1000);
            assert_eq!(consumed, 7);
        }
        _ => panic!("Expected integer"),
    }
}

#[test]
fn test_parse_negative_integer() {
    let buffer = b":-42\r\n";
    match parse(buffer) {
        ParseResult::Complete(Frame::Integer(n), _) => {
            assert_eq!(n, -42);
        }
        _ => panic!("Expected integer"),
    }
}

#[test]
fn test_parse_bulk_string() {
    let buffer = b"$5\r\nhello\r\n";
    match parse(buffer) {
        ParseResult::Complete(Frame::Bulk(Some(data)), consumed) => {
            assert_eq!(&data[..], b"hello");
            assert_eq!(consumed, 11);
        }
        _ => panic!("Expected bulk string"),
    }
}

#[test]
fn test_parse_null_bulk_string() {
    let buffer = b"$-1\r\n";
    match parse(buffer) {
        ParseResult::Complete(Frame::Bulk(None), consumed) => {
            assert_eq!(consumed, 5);
        }
        _ => panic!("Expected null bulk string"),
    }
}

#[test]
fn test_parse_empty_bulk_string() {
    let buffer = b"$0\r\n\r\n";
    match parse(buffer) {
        ParseResult::Complete(Frame::Bulk(Some(data)), consumed) => {
            assert_eq!(data.len(), 0);
            assert_eq!(consumed, 6);
        }
        _ => panic!("Expected empty bulk string"),
    }
}

#[test]
fn test_parse_array() {
    let buffer = b"*2\r\n$3\r\nfoo\r\n$3\r\nbar\r\n";
    match parse(buffer) {
        ParseResult::Complete(Frame::Array(Some(frames)), consumed) => {
            assert_eq!(frames.len(), 2);
            assert_eq!(consumed, 22);
            match &frames[0] {
                Frame::Bulk(Some(data)) => assert_eq!(&data[..], b"foo"),
                _ => panic!("Expected bulk string"),
            }
            match &frames[1] {
                Frame::Bulk(Some(data)) => assert_eq!(&data[..], b"bar"),
                _ => panic!("Expected bulk string"),
            }
        }
        _ => panic!("Expected array"),
    }
}

#[test]
fn test_parse_null_array() {
    let buffer = b"*-1\r\n";
    match parse(buffer) {
        ParseResult::Complete(Frame::Array(None), consumed) => {
            assert_eq!(consumed, 5);
        }
        _ => panic!("Expected null array"),
    }
}

#[test]
fn test_parse_empty_array() {
    let buffer = b"*0\r\n";
    match parse(buffer) {
        ParseResult::Complete(Frame::Array(Some(frames)), consumed) => {
            assert_eq!(frames.len(), 0);
            assert_eq!(consumed, 4);
        }
        _ => panic!("Expected empty array"),
    }
}

#[test]
fn test_parse_incomplete() {
    let buffer = b"+OK";
    match parse(buffer) {
        ParseResult::Incomplete => {}
        _ => panic!("Expected incomplete"),
    }

    let buffer = b"$5\r\nhel";
    match parse(buffer) {
        ParseResult::Incomplete => {}
        _ => panic!("Expected incomplete"),
    }

    let buffer = b"*2\r\n$3\r\nfoo\r\n";
    match parse(buffer) {
        ParseResult::Incomplete => {}
        _ => panic!("Expected incomplete"),
    }
}

#[test]
fn test_encode_simple_string() {
    let frame = Frame::simple(b"OK".to_vec());
    assert_eq!(&frame.encode()[..], b"+OK\r\n");
}

#[test]
fn test_encode_error() {
    let frame = Frame::error(b"ERR unknown".to_vec());
    assert_eq!(&frame.encode()[..], b"-ERR unknown\r\n");
}

#[test]
fn test_encode_integer() {
    let frame = Frame::integer(42);
    assert_eq!(&frame.encode()[..], b":42\r\n");
}

#[test]
fn test_encode_bulk_string() {
    let frame = Frame::bulk(b"hello".to_vec());
    assert_eq!(&frame.encode()[..], b"$5\r\nhello\r\n");
}

#[test]
fn test_encode_null() {
    let frame = Frame::null();
    assert_eq!(&frame.encode()[..], b"$-1\r\n");
}

#[test]
fn test_encode_array() {
    let frame = Frame::array(vec![
        Frame::bulk(b"foo".to_vec()),
        Frame::bulk(b"bar".to_vec()),
    ]);
    assert_eq!(&frame.encode()[..], b"*2\r\n$3\r\nfoo\r\n$3\r\nbar\r\n");
}

#[test]
fn test_round_trip_parse_of_encodings() {
    let frames = vec![
        Frame::simple(b"PONG".to_vec()),
        Frame::error(b"ERR nope".to_vec()),
        Frame::integer(-9223372036854775808),
        Frame::integer(9223372036854775807),
        Frame::bulk(b"binary\x00\xffdata".to_vec()),
        Frame::null(),
        Frame::Array(None),
        Frame::array(vec![
            Frame::bulk(b"SET".to_vec()),
            Frame::bulk(b"k".to_vec()),
            Frame::integer(0),
            Frame::array(vec![Frame::simple(b"x".to_vec())]),
        ]),
    ];
    for f in frames {
        let enc = f.encode();
        match parse(&enc) {
            ParseResult::Complete(g, consumed) => {
                assert_eq!(consumed, enc.len());
                assert_eq!(g, f);
            }
            _ => panic!("round trip failed"),
        }
    }
}
