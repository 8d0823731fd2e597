//! Tests of the datastore's typed operations.

use memds::database::Database;
use memds::memds::{MemDS, SetDS, StringDS};

fn v(b: &[u8]) -> Vec<u8> {
    b.to_vec()
}

#[test]
fn test_get_set_roundtrip() {
    let mut db = Database::new();
    assert!(matches!(db.get(b"a"), Ok(None)));
    db.set(b"a", b"hello").unwrap();
    assert_eq!(db.get(b"a").unwrap(), Some(v(b"hello")));
    db.set(b"a", b"world").unwrap();
    assert_eq!(db.get(b"a").unwrap(), Some(v(b"world")));
}

#[test]
fn test_incr_semantics() {
    let mut db = Database::new();
    assert_eq!(db.incr(b"n").unwrap(), 1);
    assert_eq!(db.incr(b"n").unwrap(), 2);
    assert_eq!(db.get(b"n").unwrap(), Some(v(b"2")));
    db.set(b"m", b"-5").unwrap();
    assert_eq!(db.incr(b"m").unwrap(), -4);
    assert_eq!(db.get(b"m").unwrap(), Some(v(b"-4")));
}

#[test]
fn test_incr_at_smallest_value() {
    let mut db = Database::new();
    db.set(b"m", b"-9223372036854775808").unwrap();
    assert_eq!(db.incr(b"m").unwrap(), -9223372036854775807);
    assert_eq!(db.get(b"m").unwrap(), Some(v(b"-9223372036854775807")));
}

#[test]
fn test_incr_rejects_junk_and_keeps_store() {
    let mut db = Database::new();
    db.set(b"n", b"ten").unwrap();
    assert!(db.incr(b"n").is_err());
    assert_eq!(db.get(b"n").unwrap(), Some(v(b"ten")));
}

#[test]
fn test_sadd_counts_new_members() {
    let mut db = Database::new();
    let elems = vec![v(b"a"), v(b"b"), v(b"a")];
    assert_eq!(db.sadd(b"s", &elems).unwrap(), 2);
    let elems = vec![v(b"b"), v(b"c")];
    assert_eq!(db.sadd(b"s", &elems).unwrap(), 1);
    let members = db.smembers(b"s").unwrap().unwrap();
    assert_eq!(members.len(), 3);
    assert!(members.contains(&v(b"a")));
    assert!(members.contains(&v(b"b")));
    assert!(members.contains(&v(b"c")));
}

#[test]
fn test_sadd_union_either_order() {
    // Two SADDs on one key leave the union of the initial members
    // with both element sets, in whichever order the store's lock
    // serializes them.
    let x = vec![v(b"a"), v(b"b")];
    let y = vec![v(b"b"), v(b"c")];

    let mut first = Database::new();
    first.sadd(b"k", &x).unwrap();
    first.sadd(b"k", &y).unwrap();
    let mut second = Database::new();
    second.sadd(b"k", &y).unwrap();
    second.sadd(b"k", &x).unwrap();

    let mut ms1 = first.smembers(b"k").unwrap().unwrap();
    let mut ms2 = second.smembers(b"k").unwrap().unwrap();
    ms1.sort();
    ms2.sort();
    assert_eq!(ms1, vec![v(b"a"), v(b"b"), v(b"c")]);
    assert_eq!(ms1, ms2);
}

#[test]
fn test_type_mismatch_is_refused() {
    let mut db = Database::new();
    let elems = vec![v(b"x")];
    db.sadd(b"s", &elems).unwrap();
    assert!(db.get(b"s").is_err());
    assert!(db.incr(b"s").is_err());
    db.set(b"a", b"1").unwrap();
    assert!(db.sadd(b"a", &elems).is_err());
    assert!(db.smembers(b"a").is_err());
    // Nothing changed under either key.
    assert_eq!(db.smembers(b"s").unwrap().unwrap(), vec![v(b"x")]);
    assert_eq!(db.get(b"a").unwrap(), Some(v(b"1")));
}

#[test]
fn test_entry_walk() {
    let mut db = Database::new();
    db.set(b"a", b"1").unwrap();
    let elems = vec![v(b"m")];
    db.sadd(b"s", &elems).unwrap();
    assert_eq!(db.entry_count(), 2);
    let mut keys: Vec<Vec<u8>> = Vec::new();
    for i in 0..db.entry_count() {
        let (k, val) = db.entry_at(i);
        keys.push(k.clone());
        match val {
            MemDS::Str(s) => assert_eq!(s.fetch(), v(b"1")),
            MemDS::SetVal(s) => assert_eq!(s.members(), vec![v(b"m")]),
        }
    }
    keys.sort();
    assert_eq!(keys, vec![v(b"a"), v(b"s")]);
}

#[test]
fn test_value_types() {
    let s = StringDS::from(b"abc");
    assert_eq!(s.fetch(), v(b"abc"));

    let mut sd = SetDS::from(b"one");
    assert_eq!(sd.members(), vec![v(b"one")]);
    let added = sd.add(&vec![v(b"one"), v(b"two")]);
    assert_eq!(added, 1);
    assert_eq!(sd.members().len(), 2);

    let m = MemDS::Str(StringDS::from(b"abc"));
    assert!(m.string(b"k").is_ok());
    assert!(m.set(b"k").is_err());
    let mut m = MemDS::SetVal(SetDS::from(b"one"));
    assert!(m.set(b"k").is_ok());
    assert!(m.string(b"k").is_err());
    assert!(m.set_mut(b"k").is_ok());
}
