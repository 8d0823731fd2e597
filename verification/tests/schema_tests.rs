//! Tests for the token-schema engine: parse, encode, and round trips.

use memds::command::connection::HelloCommand;
use memds::command::set::SaddCommand;
use memds::command::string::{ExpireOption, Exists, GetCommand, SetCommand, SetGet};
use memds::command_args::{CommandArgs, Cursor, Error};

fn toks(words: &[&[u8]]) -> Vec<Vec<u8>> {
    words.iter().map(|w| w.to_vec()).collect()
}

#[test]
fn test_parse_usize() {
    let args = toks(&[b"1"]);
    let mut cursor = Cursor::new(&args);
    let s = <usize as CommandArgs>::parse_maybe(&mut cursor).unwrap();
    assert_eq!(s, Some(1));
}

#[test]
fn test_parse_usize_rejects_junk() {
    let args = toks(&[b"12a"]);
    let mut cursor = Cursor::new(&args);
    let s = <usize as CommandArgs>::parse_maybe(&mut cursor);
    assert!(matches!(s, Err(Error::Parse)));
}

#[test]
fn test_parse_hello_command() {
    let args = toks(&[b"HELLO", b"3", b"AUTH", b"user", b"pass"]);
    let mut cursor = Cursor::new(&args);
    let command = HelloCommand::parse_maybe(&mut cursor).unwrap().unwrap();
    assert_eq!(command.protover, 3);
    assert_eq!(command.auth.as_ref().unwrap().username, b"user".to_vec());
    assert_eq!(command.auth.as_ref().unwrap().username, b"user".to_vec());
}

#[test]
fn test_parse_hello_without_auth() {
    let args = toks(&[b"HELLO", b"3"]);
    let mut cursor = Cursor::new(&args);
    let command = HelloCommand::parse_maybe(&mut cursor).unwrap().unwrap();
    assert_eq!(command.protover, 3);
    assert!(command.auth.is_none());
}

#[test]
fn test_parse_hello_missing_protover() {
    let args = toks(&[b"HELLO"]);
    let mut cursor = Cursor::new(&args);
    let r = HelloCommand::parse_maybe(&mut cursor);
    assert!(matches!(r, Err(Error::InvalidLength)));
}

#[test]
fn test_parse_set() {
    let cmd_str = toks(&[b"SET", b"a", b"b", b"NX", b"GET", b"EX", b"20"]);
    let mut cursor = Cursor::new(&cmd_str);
    let s = SetCommand::parse_maybe(&mut cursor).unwrap().unwrap();

    assert_eq!(s.key, b"a".to_vec());
    assert_eq!(s.value, b"b".to_vec());
    assert!(matches!(s.exists, Exists::NotExistedOnly));
    assert!(matches!(s.get, Some(SetGet)));
    assert!(matches!(s.expire, Some(ExpireOption::ExpireAfterSecond(20))));

    let cmd_str = toks(&[b"SET", b"a", b"b", b"PXAT", b"20"]);
    let mut cursor = Cursor::new(&cmd_str);
    let s = SetCommand::parse_maybe(&mut cursor).unwrap().unwrap();

    assert_eq!(s.key, b"a".to_vec());
    assert_eq!(s.value, b"b".to_vec());
    assert!(matches!(s.exists, Exists::Any));
    assert!(matches!(s.get, None));
    assert!(matches!(s.expire, Some(ExpireOption::ExpireAtMs(20))));
}

#[test]
fn test_encode_set() {
    let s = SetCommand {
        key: b"abc".to_vec(),
        value: b"def".to_vec(),
        exists: Exists::Any,
        get: None,
        expire: Some(ExpireOption::ExpireAfterSecond(20)),
    };
    let mut target: Vec<Vec<u8>> = Vec::new();
    s.encode(&mut target).unwrap();

    let expected = toks(&[b"SET", b"abc", b"def", b"EX", b"20"]);
    assert_eq!(expected, target);

    let mut cursor = Cursor::new(&target);
    let source = SetCommand::parse_maybe(&mut cursor).unwrap().unwrap();
    assert_eq!(source, s);
}

#[test]
fn test_set_options_round_trip() {
    let cmd_str = toks(&[b"SET", b"a", b"b", b"NX", b"GET", b"EX", b"20"]);
    let mut cursor = Cursor::new(&cmd_str);
    let s = SetCommand::parse_maybe(&mut cursor).unwrap().unwrap();
    assert!(matches!(s.exists, Exists::NotExistedOnly));
    assert!(matches!(s.get, Some(SetGet)));
    assert!(matches!(s.expire, Some(ExpireOption::ExpireAfterSecond(20))));

    let mut encoded: Vec<Vec<u8>> = Vec::new();
    s.encode(&mut encoded).unwrap();
    let mut cursor = Cursor::new(&encoded);
    let again = SetCommand::parse_maybe(&mut cursor).unwrap().unwrap();
    assert_eq!(again, s);
}

#[test]
fn test_keyword_case_insensitive() {
    let lower = toks(&[b"hello", b"3"]);
    let mut cursor = Cursor::new(&lower);
    let command = HelloCommand::parse_maybe(&mut cursor).unwrap().unwrap();
    assert_eq!(command.protover, 3);

    let mixed = toks(&[b"SeT", b"k", b"v"]);
    let mut cursor = Cursor::new(&mixed);
    let s = SetCommand::parse_maybe(&mut cursor).unwrap().unwrap();
    assert_eq!(s.key, b"k".to_vec());
}

#[test]
fn test_parse_progress_and_no_match() {
    // A successful parse advances the cursor by at least one token.
    let args = toks(&[b"GET", b"k"]);
    let mut cursor = Cursor::new(&args);
    let r = GetCommand::parse_maybe(&mut cursor).unwrap();
    assert!(r.is_some());
    assert_eq!(cursor.consumed(), 2);

    // A parse that answers no match leaves the cursor unchanged.
    let other = toks(&[b"FOO", b"k"]);
    let mut cursor = Cursor::new(&other);
    let r = GetCommand::parse_maybe(&mut cursor).unwrap();
    assert!(r.is_none());
    assert_eq!(cursor.consumed(), 0);
}

#[test]
fn test_sadd_greedy_elements() {
    let args = toks(&[b"SADD", b"k", b"a", b"b", b"c"]);
    let mut cursor = Cursor::new(&args);
    let s = SaddCommand::parse_maybe(&mut cursor).unwrap().unwrap();
    assert_eq!(s.key, b"k".to_vec());
    assert_eq!(s.elements, toks(&[b"a", b"b", b"c"]));
    assert_eq!(cursor.consumed(), 5);

    let mut encoded: Vec<Vec<u8>> = Vec::new();
    s.encode(&mut encoded).unwrap();
    assert_eq!(encoded, args);
}

#[test]
fn test_sadd_requires_elements() {
    let args = toks(&[b"SADD", b"k"]);
    let mut cursor = Cursor::new(&args);
    let r = SaddCommand::parse_maybe(&mut cursor);
    assert!(matches!(r, Err(Error::InvalidLength)));
}

#[test]
fn test_expire_option_variants() {
    for (word, expect) in [
        (&b"EX"[..], ExpireOption::ExpireAfterSecond(7)),
        (&b"PX"[..], ExpireOption::ExpireAfterMs(7)),
        (&b"EXAT"[..], ExpireOption::ExpireAtSecond(7)),
        (&b"PXAT"[..], ExpireOption::ExpireAtMs(7)),
    ] {
        let args = toks(&[word, b"7"]);
        let mut cursor = Cursor::new(&args);
        let r = ExpireOption::parse_maybe(&mut cursor).unwrap().unwrap();
        assert_eq!(r, expect);
    }
    let args = toks(&[b"KEEPTTL"]);
    let mut cursor = Cursor::new(&args);
    let r = ExpireOption::parse_maybe(&mut cursor).unwrap().unwrap();
    assert_eq!(r, ExpireOption::KeepTTL);

    let args = toks(&[b"EX", b"x"]);
    let mut cursor = Cursor::new(&args);
    assert!(matches!(ExpireOption::parse_maybe(&mut cursor), Err(Error::Parse)));
}
