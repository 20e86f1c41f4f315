use redis_starter_rust::database::{now_unix_millis, Database};
use redis_starter_rust::rdb::RedisString;

fn wait_millis(ms: u64) {
    let start = now_unix_millis();
    while now_unix_millis() < start + ms {}
}

#[test]
fn test_database_get_set() {
    let mut database = Database::new();

    // Check invalid
    assert_eq!(database.get(b"foo"), None);

    // Set and get
    database.set(b"foo", b"hello");
    assert_eq!(database.get(b"foo"), Some(RedisString::new(b"hello")));

    // Update and get
    database.set(b"foo", b"world");
    assert_eq!(database.get(b"foo"), Some(RedisString::new(b"world")));
}

#[test]
fn test_database_expire_in() {
    let mut database = Database::new();

    // Check invalid
    assert_eq!(database.get(b"foo"), None);

    // Set and get
    database.set(b"foo", b"hello");
    database.expire_in_millis(b"foo", 100);
    assert_eq!(database.get(b"foo"), Some(RedisString::new(b"hello")));

    // Wait and get
    wait_millis(250);
    assert_eq!(database.get(b"foo"), None);
}

#[test]
fn clock_is_after_epoch() {
    assert!(now_unix_millis() > 1_600_000_000_000);
}

#[test]
fn expiry_is_strict() {
    let mut db = Database::new();
    db.set(b"k", b"v");
    db.expire_at_millis(b"k", 1000);
    assert_eq!(db.get_at(b"k", 999), Some(RedisString::new(b"v")));
    assert_eq!(db.get_at(b"k", 1000), Some(RedisString::new(b"v")));
    assert_eq!(db.get_at(b"k", 1001), None);
    // the value is gone for good, also at an earlier time
    assert_eq!(db.get_at(b"k", 0), None);
}

#[test]
fn expire_in_counts_from_now() {
    let mut db = Database::new();
    db.set(b"foo", b"bar");
    db.expire_in_millis_at(b"foo", 100, 5000);
    assert_eq!(db.get_at(b"foo", 5099), Some(RedisString::new(b"bar")));
    assert_eq!(db.get_at(b"foo", 5101), None);
}

#[test]
fn expire_in_saturates() {
    let mut db = Database::new();
    db.set(b"foo", b"bar");
    db.expire_in_millis_at(b"foo", u64::MAX, 10);
    assert_eq!(db.get_at(b"foo", u64::MAX), Some(RedisString::new(b"bar")));
}

#[test]
fn plain_set_clears_expiry() {
    let mut db = Database::new();
    db.set(b"foo", b"old");
    db.expire_at_millis(b"foo", 10);
    db.set(b"foo", b"new");
    assert_eq!(db.get_at(b"foo", 1000), Some(RedisString::new(b"new")));
}

#[test]
fn keys_skip_expired_without_removing() {
    let mut db = Database::new();
    db.set(b"a", b"1");
    db.set(b"b", b"2");
    db.set(b"c", b"3");
    db.expire_at_millis(b"b", 50);
    db.expire_at_millis(b"c", 500);
    let mut keys = db.keys_at(100);
    keys.sort_by(|x, y| x.as_slice().cmp(y.as_slice()));
    assert_eq!(keys, vec![RedisString::new(b"a"), RedisString::new(b"c")]);
    // b is still stored: at an earlier time it is live
    assert_eq!(db.keys_at(10).len(), 3);
}

#[test]
fn eviction_removes_key_from_listing() {
    let mut db = Database::new();
    db.set(b"gone", b"x");
    db.expire_at_millis(b"gone", 20);
    assert_eq!(db.get_at(b"gone", 30), None);
    assert!(db.keys_at(0).is_empty());
    assert_eq!(db.get_at(b"gone", 0), None);
}

#[test]
fn dormant_expiry_has_no_value() {
    let mut db = Database::new();
    db.expire_at_millis(b"ghost", 10);
    assert_eq!(db.get_at(b"ghost", 5), None);
    assert!(db.keys_at(5).is_empty());
}

#[test]
fn keys_are_binary() {
    let mut db = Database::new();
    db.set(b"\x00\xff", b"\r\n");
    assert_eq!(db.get_at(b"\x00\xff", 0), Some(RedisString::new(b"\r\n")));
    assert_eq!(db.get_at(b"\x00\xfe", 0), None);
}
