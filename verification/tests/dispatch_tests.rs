//! End-to-end tests of the dispatcher: token vector in, wire bytes out.

use memds::command::parse_and_handle;
use memds::database::Database;

fn toks(words: &[&[u8]]) -> Vec<Vec<u8>> {
    words.iter().map(|w| w.to_vec()).collect()
}

fn dispatch(db: &mut Database, words: &[&[u8]]) -> (Vec<u8>, bool, bool) {
    let args = toks(words);
    let mut write_buf: Vec<u8> = Vec::new();
    let d = parse_and_handle(&args, db, &mut write_buf).unwrap();
    (write_buf, d.need_flush, d.save_requested)
}

#[test]
fn test_handle_and_parse_hello_command() {
    let mut db = Database::new();
    let args = toks(&[b"HELLO", b"3", b"AUTH", b"user", b"pass"]);
    let mut write_buf: Vec<u8> = Vec::new();
    parse_and_handle(&args, &mut db, &mut write_buf).unwrap();
    assert_eq!(
        write_buf,
        b"%3\r\n+server\r\n+memds\r\n+version\r\n+0.0.1\r\n+proto\r\n:3\r\n".to_vec()
    );
}

#[test]
fn test_ping_command() {
    let mut db = Database::new();
    let (out, flush, save) = dispatch(&mut db, &[b"PING"]);
    assert_eq!(out, b"+PONG\r\n".to_vec());
    assert!(!flush);
    assert!(!save);
}

#[test]
fn test_command_command() {
    let mut db = Database::new();
    let (out, _, _) = dispatch(&mut db, &[b"COMMAND"]);
    assert_eq!(out, b"*0\r\n".to_vec());
}

#[test]
fn test_get_absent() {
    let mut db = Database::new();
    let (out, _, _) = dispatch(&mut db, &[b"GET", b"a"]);
    assert_eq!(out, b"_\r\n".to_vec());
}

#[test]
fn test_get_command() {
    let mut db = Database::new();
    let (out, _, _) = dispatch(&mut db, &[b"SET", b"a", b"b"]);
    assert_eq!(out, b"+OK\r\n".to_vec());
    let (out, _, _) = dispatch(&mut db, &[b"GET", b"a"]);
    assert_eq!(out, b"$1\r\nb\r\n".to_vec());
}

#[test]
fn test_incr_command() {
    let mut db = Database::new();
    let (out, _, _) = dispatch(&mut db, &[b"INCR", b"a"]);
    assert_eq!(out, b":1\r\n".to_vec());
    let (out, _, _) = dispatch(&mut db, &[b"GET", b"a"]);
    assert_eq!(out, b"$1\r\n1\r\n".to_vec());
    let (out, _, _) = dispatch(&mut db, &[b"INCR", b"a"]);
    assert_eq!(out, b":2\r\n".to_vec());
}

#[test]
fn test_incr_non_numeric() {
    let mut db = Database::new();
    dispatch(&mut db, &[b"SET", b"a", b"zzz"]);
    let (out, flush, _) = dispatch(&mut db, &[b"INCR", b"a"]);
    assert_eq!(out, b"-ERR failed to parse: INCR\r\n".to_vec());
    assert!(flush);
    // The store is unchanged by the failure.
    let (out, _, _) = dispatch(&mut db, &[b"GET", b"a"]);
    assert_eq!(out, b"$3\r\nzzz\r\n".to_vec());
}

#[test]
fn test_incr_at_largest_value() {
    let mut db = Database::new();
    dispatch(&mut db, &[b"SET", b"a", b"9223372036854775807"]);
    let (out, flush, _) = dispatch(&mut db, &[b"INCR", b"a"]);
    assert_eq!(out, b"-ERR failed to parse: INCR\r\n".to_vec());
    assert!(flush);
}

#[test]
fn test_sadd_and_smembers() {
    let mut db = Database::new();
    let (out, _, _) = dispatch(&mut db, &[b"SADD", b"s", b"x", b"y", b"x"]);
    assert_eq!(out, b":2\r\n".to_vec());
    let (out, _, _) = dispatch(&mut db, &[b"SADD", b"s", b"y", b"z"]);
    assert_eq!(out, b":1\r\n".to_vec());
    let (out, _, _) = dispatch(&mut db, &[b"SMEMBERS", b"s"]);
    // Three members, each a blob string; this store keeps insertion order.
    assert_eq!(out, b"*3\r\n$1\r\nx\r\n$1\r\ny\r\n$1\r\nz\r\n".to_vec());
}

#[test]
fn test_smembers_absent() {
    let mut db = Database::new();
    let (out, _, _) = dispatch(&mut db, &[b"SMEMBERS", b"nope"]);
    assert_eq!(out, b"_\r\n".to_vec());
}

#[test]
fn test_wrong_type_errors() {
    let mut db = Database::new();
    dispatch(&mut db, &[b"SET", b"a", b"b"]);
    let (out, flush, _) = dispatch(&mut db, &[b"SADD", b"a", b"x"]);
    assert_eq!(out, b"-ERR key a is not set\r\n".to_vec());
    assert!(flush);
    let (out, flush, _) = dispatch(&mut db, &[b"SMEMBERS", b"a"]);
    assert_eq!(out, b"-ERR key a is not set\r\n".to_vec());
    assert!(flush);

    dispatch(&mut db, &[b"SADD", b"s", b"x"]);
    let (out, flush, _) = dispatch(&mut db, &[b"GET", b"s"]);
    assert_eq!(out, b"-ERR key s is not string\r\n".to_vec());
    assert!(flush);
    let (out, flush, _) = dispatch(&mut db, &[b"INCR", b"s"]);
    assert_eq!(out, b"-ERR key s is not string\r\n".to_vec());
    assert!(flush);

    // The wrong-type failures left both keys as they were.
    let (out, _, _) = dispatch(&mut db, &[b"GET", b"a"]);
    assert_eq!(out, b"$1\r\nb\r\n".to_vec());
    let (out, _, _) = dispatch(&mut db, &[b"SMEMBERS", b"s"]);
    assert_eq!(out, b"*1\r\n$1\r\nx\r\n".to_vec());
}

#[test]
fn test_unknown_command() {
    let mut db = Database::new();
    let (out, flush, _) = dispatch(&mut db, &[b"FOO"]);
    assert_eq!(out, b"-ERR command FOO not supported\r\n".to_vec());
    assert!(!flush);
    // The session continues: the next command is served normally.
    let (out, _, _) = dispatch(&mut db, &[b"PING"]);
    assert_eq!(out, b"+PONG\r\n".to_vec());
}

#[test]
fn test_empty_token_vector() {
    let mut db = Database::new();
    let (out, _, _) = dispatch(&mut db, &[]);
    assert_eq!(out, b"-ERR command  not supported\r\n".to_vec());
}

#[test]
fn test_parse_error_response() {
    let mut db = Database::new();
    let (out, flush, _) = dispatch(&mut db, &[b"HELLO", b"abc"]);
    assert_eq!(out, b"-ERR failed to parse: HELLO\r\n".to_vec());
    assert!(flush);
    let (out, flush, _) = dispatch(&mut db, &[b"GET"]);
    assert_eq!(out, b"-ERR failed to parse: GET\r\n".to_vec());
    assert!(flush);
    // A value too large for the machine word is rejected, not wrapped.
    let (out, _, _) = dispatch(&mut db, &[b"HELLO", b"18446744073709551616"]);
    assert_eq!(out, b"-ERR failed to parse: HELLO\r\n".to_vec());
    // The greedy element list needs at least one element.
    let (out, _, _) = dispatch(&mut db, &[b"SADD", b"k"]);
    assert_eq!(out, b"-ERR failed to parse: SADD\r\n".to_vec());
}

#[test]
fn test_save_requested() {
    let mut db = Database::new();
    let (out, flush, save) = dispatch(&mut db, &[b"SAVE"]);
    assert_eq!(out, b"+OK\r\n".to_vec());
    assert!(!flush);
    assert!(save);
}

#[test]
fn test_set_overwrites_any_type() {
    let mut db = Database::new();
    dispatch(&mut db, &[b"SADD", b"k", b"x"]);
    let (out, _, _) = dispatch(&mut db, &[b"SET", b"k", b"v"]);
    assert_eq!(out, b"+OK\r\n".to_vec());
    let (out, _, _) = dispatch(&mut db, &[b"GET", b"k"]);
    assert_eq!(out, b"$1\r\nv\r\n".to_vec());
}
