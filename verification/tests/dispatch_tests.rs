use grow_a_cache::request::{
    handle_incr_decr, process_echo, process_memcached, process_ping, process_resp,
    ProcessResult,
};
use grow_a_cache::storage::Storage;

const MVS: usize = 1024 * 1024;

fn mc(storage: &mut Storage, input: &[u8]) -> (ProcessResult, Vec<u8>) {
    let mut out = vec![0u8; 16 * 1024];
    let r = process_memcached(input, &mut out, storage, MVS);
    (r, out)
}

#[test]
fn test_mc_set_then_get() {
    let mut storage = Storage::new(1024 * 1024, 0);
    let (r, out) = mc(&mut storage, b"set foo 0 0 5\r\nhello\r\n");
    match r {
        ProcessResult::Response { consumed, response_len } => {
            assert_eq!(consumed, 22);
            assert_eq!(&out[..response_len], b"STORED\r\n");
        }
        _ => panic!("expected a response"),
    }
    let (r, out) = mc(&mut storage, b"get foo\r\n");
    match r {
        ProcessResult::Response { consumed, response_len } => {
            assert_eq!(consumed, 9);
            assert_eq!(&out[..response_len], b"VALUE foo 0 5\r\nhello\r\nEND\r\n");
        }
        _ => panic!("expected a response"),
    }
}

#[test]
fn test_mc_add_to_existing_not_stored() {
    let mut storage = Storage::new(1024 * 1024, 0);
    mc(&mut storage, b"set foo 0 0 5\r\nhello\r\n");
    let (r, out) = mc(&mut storage, b"add foo 0 0 3\r\nbye\r\n");
    match r {
        ProcessResult::Response { response_len, .. } => {
            assert_eq!(&out[..response_len], b"NOT_STORED\r\n");
        }
        _ => panic!("expected a response"),
    }
    let (_, out) = mc(&mut storage, b"get foo\r\n");
    assert!(out.starts_with(b"VALUE foo 0 5\r\nhello\r\n"));
}

#[test]
fn test_mc_gets_and_cas() {
    let mut storage = Storage::new(1024 * 1024, 0);
    mc(&mut storage, b"set foo 0 0 5\r\nhello\r\n");
    let token = storage.get(b"foo").unwrap().cas_unique;

    let (r, out) = mc(&mut storage, b"gets foo\r\n");
    let expected = format!("VALUE foo 0 5 {}\r\nhello\r\nEND\r\n", token);
    match r {
        ProcessResult::Response { response_len, .. } => {
            assert_eq!(&out[..response_len], expected.as_bytes());
        }
        _ => panic!("expected a response"),
    }

    let wrong = format!("cas foo 0 0 5 {}\r\nworld\r\n", token + 999);
    let (_, out) = mc(&mut storage, wrong.as_bytes());
    assert!(out.starts_with(b"EXISTS\r\n"));

    let right = format!("cas foo 0 0 5 {}\r\nworld\r\n", token);
    let (_, out) = mc(&mut storage, right.as_bytes());
    assert!(out.starts_with(b"STORED\r\n"));
    assert_eq!(storage.get(b"foo").unwrap().value, b"world");
}

#[test]
fn test_mc_delete_twice() {
    let mut storage = Storage::new(1024 * 1024, 0);
    mc(&mut storage, b"set k 0 0 1\r\nv\r\n");
    let (_, out) = mc(&mut storage, b"delete k\r\n");
    assert!(out.starts_with(b"DELETED\r\n"));
    let (_, out) = mc(&mut storage, b"delete k\r\n");
    assert!(out.starts_with(b"NOT_FOUND\r\n"));
}

#[test]
fn test_mc_incr_wraps_decr_saturates() {
    let mut storage = Storage::new(1024 * 1024, 0);
    mc(&mut storage, b"set n 0 0 20\r\n18446744073709551615\r\n");
    let (_, out) = mc(&mut storage, b"incr n 1\r\n");
    assert!(out.starts_with(b"0\r\n"));

    mc(&mut storage, b"set z 0 0 1\r\n0\r\n");
    let (_, out) = mc(&mut storage, b"decr z 5\r\n");
    assert!(out.starts_with(b"0\r\n"));

    let reply = handle_incr_decr(&mut storage, b"z", 3, true, 0);
    assert_eq!(reply, b"3\r\n");
}

#[test]
fn test_mc_value_size_boundary() {
    let mut storage = Storage::new(64 * 1024 * 1024, 0);
    let small_limit = 8usize;
    let mut out = vec![0u8; 1024];

    // A value of exactly the limit is accepted.
    let input = b"set k 0 0 8\r\n01234567\r\n";
    let r = process_memcached(input, &mut out, &mut storage, small_limit);
    match r {
        ProcessResult::Response { response_len, .. } => {
            assert_eq!(&out[..response_len], b"STORED\r\n");
        }
        _ => panic!("expected a response"),
    }

    // One byte more draws a client error.
    let input = b"set k 0 0 9\r\n012345678\r\n";
    let r = process_memcached(input, &mut out, &mut storage, small_limit);
    match r {
        ProcessResult::Response { response_len, .. } => {
            assert_eq!(&out[..response_len], b"CLIENT_ERROR value too large\r\n");
        }
        _ => panic!("expected a client error response"),
    }
}

#[test]
fn test_mc_large_value_needs_chain() {
    let mut storage = Storage::new(64 * 1024 * 1024, 0);
    let mut out = vec![0u8; 64];
    // Header arrives; the declared value exceeds the output buffer.
    let r = process_memcached(b"set big 0 0 500\r\n", &mut out, &mut storage, MVS);
    match r {
        ProcessResult::NeedChain { command_len, value_len } => {
            assert_eq!(command_len, 17);
            assert_eq!(value_len, 500);
        }
        _ => panic!("expected NeedChain"),
    }
    // Once assembled (as the event loop would after chaining), it stores and
    // round-trips byte for byte.
    let mut full = b"set big 0 0 500\r\n".to_vec();
    let value: Vec<u8> = (0..500).map(|i| (i % 251) as u8).collect();
    full.extend_from_slice(&value);
    full.extend_from_slice(b"\r\n");
    let mut bigout = vec![0u8; 1024];
    let r = process_memcached(&full, &mut bigout, &mut storage, MVS);
    assert!(matches!(r, ProcessResult::Response { .. }));
    assert_eq!(storage.get(b"big").unwrap().value, value);
}

#[test]
fn test_mc_quit_and_errors() {
    let mut storage = Storage::new(1024 * 1024, 0);
    let mut out = vec![0u8; 1024];
    assert!(matches!(
        process_memcached(b"quit\r\n", &mut out, &mut storage, MVS),
        ProcessResult::Quit
    ));
    assert!(matches!(
        process_memcached(b"get k", &mut out, &mut storage, MVS),
        ProcessResult::NeedData
    ));
    assert!(matches!(
        process_memcached(b"bogus cmd\r\n", &mut out, &mut storage, MVS),
        ProcessResult::Error
    ));
}

fn resp(storage: &mut Storage, input: &[u8]) -> Vec<u8> {
    let mut out = vec![0u8; 4096];
    match process_resp(input, &mut out, storage, MVS) {
        ProcessResult::Response { response_len, .. } => out[..response_len].to_vec(),
        other => panic!("expected a response, got {:?}", other),
    }
}

#[test]
fn test_resp_set_get_del() {
    let mut storage = Storage::new(1024 * 1024, 0);
    let out = resp(&mut storage, b"*3\r\n$3\r\nSET\r\n$1\r\nk\r\n$1\r\nv\r\n");
    assert_eq!(out, b"+OK\r\n");
    let out = resp(&mut storage, b"*2\r\n$3\r\nGET\r\n$1\r\nk\r\n");
    assert_eq!(out, b"$1\r\nv\r\n");
    let out = resp(&mut storage, b"*2\r\n$3\r\nDEL\r\n$1\r\nk\r\n");
    assert_eq!(out, b":1\r\n");
}

#[test]
fn test_resp_set_options() {
    let mut storage = Storage::new(1024 * 1024, 0);

    // NX with XX is rejected.
    let out = resp(
        &mut storage,
        b"*5\r\n$3\r\nSET\r\n$1\r\nk\r\n$1\r\nv\r\n$2\r\nNX\r\n$2\r\nXX\r\n",
    );
    assert_eq!(
        out,
        b"-ERR XX and NX options at the same time are not compatible\r\n"
    );

    // XX on a missing key answers the null bulk string.
    let out = resp(
        &mut storage,
        b"*4\r\n$3\r\nSET\r\n$1\r\nk\r\n$1\r\nv\r\n$2\r\nXX\r\n",
    );
    assert_eq!(out, b"$-1\r\n");

    // Plain SET stores.
    let out = resp(&mut storage, b"*3\r\n$3\r\nSET\r\n$1\r\nk\r\n$1\r\nv\r\n");
    assert_eq!(out, b"+OK\r\n");

    // NX on an existing key answers the null bulk string.
    let out = resp(
        &mut storage,
        b"*4\r\n$3\r\nSET\r\n$1\r\nk\r\n$1\r\nw\r\n$2\r\nNX\r\n",
    );
    assert_eq!(out, b"$-1\r\n");
    assert_eq!(storage.get(b"k").unwrap().value, b"v");
}

#[test]
fn test_resp_other_commands() {
    let mut storage = Storage::new(1024 * 1024, 0);
    resp(&mut storage, b"*3\r\n$3\r\nSET\r\n$1\r\na\r\n$1\r\n1\r\n");
    resp(&mut storage, b"*3\r\n$3\r\nSET\r\n$1\r\nb\r\n$1\r\n2\r\n");
    let out = resp(&mut storage, b"*1\r\n$6\r\nDBSIZE\r\n");
    assert_eq!(out, b":2\r\n");
    let out = resp(&mut storage, b"*3\r\n$6\r\nEXISTS\r\n$1\r\na\r\n$1\r\nz\r\n");
    assert_eq!(out, b":1\r\n");
    let out = resp(&mut storage, b"*1\r\n$8\r\nFLUSHALL\r\n");
    assert_eq!(out, b"+OK\r\n");
    let out = resp(&mut storage, b"*1\r\n$6\r\nDBSIZE\r\n");
    assert_eq!(out, b":0\r\n");
    let out = resp(&mut storage, b"*2\r\n$4\r\nPING\r\n$2\r\nhi\r\n");
    assert_eq!(out, b"$2\r\nhi\r\n");
    let out = resp(&mut storage, b"*1\r\n$7\r\nNOSUCHX\r\n");
    assert_eq!(out, b"-ERR unknown command 'NOSUCHX'\r\n");
    let out = resp(&mut storage, b"*2\r\n$5\r\nHELLO\r\n$1\r\n3\r\n");
    assert_eq!(
        out,
        b"*6\r\n$6\r\nserver\r\n$12\r\ngrow-a-cache\r\n$7\r\nversion\r\n$5\r\n0.1.0\r\n$5\r\nproto\r\n:3\r\n"
    );
}

#[test]
fn test_ping_protocol() {
    let mut storage = Storage::new(1024, 0);
    let mut out = vec![0u8; 64];
    match process_ping(b"PING\r\n", &mut out, &mut storage) {
        ProcessResult::Response { consumed, response_len } => {
            assert_eq!(consumed, 6);
            assert_eq!(&out[..response_len], b"PONG\r\n");
        }
        _ => panic!("expected a response"),
    }
    match process_ping(b"PING hi\r\n", &mut out, &mut storage) {
        ProcessResult::Response { consumed, response_len } => {
            assert_eq!(consumed, 9);
            assert_eq!(&out[..response_len], b"PONG hi\r\n");
        }
        _ => panic!("expected a response"),
    }
    assert!(matches!(
        process_ping(b"QUIT\r\n", &mut out, &mut storage),
        ProcessResult::Quit
    ));
    match process_ping(b"NOPE\r\n", &mut out, &mut storage) {
        ProcessResult::Response { response_len, .. } => {
            assert_eq!(&out[..response_len], b"ERROR unknown command\r\n");
        }
        _ => panic!("expected a response"),
    }
}

#[test]
fn test_echo_protocol() {
    let mut storage = Storage::new(1024, 0);
    let mut out = vec![0u8; 64];
    match process_echo(b"5\r\nhello", &mut out, &mut storage, MVS) {
        ProcessResult::Response { consumed, response_len } => {
            assert_eq!(consumed, 8);
            assert_eq!(&out[..response_len], b"5\r\nhello");
        }
        _ => panic!("expected a response"),
    }
    assert!(matches!(
        process_echo(b"QUIT\r\n", &mut out, &mut storage, MVS),
        ProcessResult::Quit
    ));
    match process_echo(b"zzz\r\n", &mut out, &mut storage, MVS) {
        ProcessResult::Response { response_len, .. } => {
            assert_eq!(&out[..response_len], b"ERROR invalid length\r\n");
        }
        _ => panic!("expected a response"),
    }
    match process_echo(b"9\r\nhi", &mut out, &mut storage, MVS) {
        ProcessResult::NeedData => {}
        _ => panic!("expected NeedData"),
    }
}
