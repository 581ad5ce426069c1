use redis_lite::db::{Db, DbItem};

fn sorted(mut keys: Vec<Vec<u8>>) -> Vec<Vec<u8>> {
    keys.sort();
    keys
}

#[test]
fn db_item_new_keeps_its_parts() {
    let item = DbItem::new(b"v".to_vec(), 7, 100);
    assert_eq!(item.value, b"v".to_vec());
    assert_eq!(item.created, 7);
    assert_eq!(item.expires, 100);
}

#[test]
fn get_from_an_empty_keyspace() {
    let db = Db::new();
    assert_eq!(db.get(b"foo", 0), None);
    assert_eq!(db.keys(), Vec::<Vec<u8>>::new());
}

#[test]
fn set_then_get() {
    let mut db = Db::new();
    db.set(b"foo".to_vec(), b"bar".to_vec(), 0, 5);
    assert_eq!(db.get(b"foo", 5), Some(b"bar".to_vec()));
    assert_eq!(db.get(b"fo", 5), None);
    assert_eq!(db.get(b"foo2", 5), None);
}

#[test]
fn set_overwrites() {
    let mut db = Db::new();
    db.set(b"foo".to_vec(), b"one".to_vec(), 0, 0);
    db.set(b"other".to_vec(), b"x".to_vec(), 0, 0);
    db.set(b"foo".to_vec(), b"two".to_vec(), 0, 1);
    assert_eq!(db.get(b"foo", 2), Some(b"two".to_vec()));
    assert_eq!(db.get(b"other", 2), Some(b"x".to_vec()));
    assert_eq!(db.keys().len(), 2);
}

#[test]
fn value_without_expiry_lives_for_ever() {
    let mut db = Db::new();
    db.set(b"k".to_vec(), b"v".to_vec(), 0, 10);
    assert_eq!(db.get(b"k", 10), Some(b"v".to_vec()));
    assert_eq!(db.get(b"k", u64::MAX), Some(b"v".to_vec()));
}

#[test]
fn value_expires_after_its_time_and_not_before() {
    let mut db = Db::new();
    db.set(b"k".to_vec(), b"v".to_vec(), 100, 1000);
    assert_eq!(db.get(b"k", 1000), Some(b"v".to_vec()));
    assert_eq!(db.get(b"k", 1099), Some(b"v".to_vec()));
    assert_eq!(db.get(b"k", 1100), Some(b"v".to_vec()));
    assert_eq!(db.get(b"k", 1101), None);
    assert_eq!(db.get(b"k", 1150), None);
    assert_eq!(db.get(b"k", u64::MAX), None);
}

#[test]
fn expired_value_never_comes_back() {
    let mut db = Db::new();
    db.set(b"k".to_vec(), b"v".to_vec(), 3, 10);
    let mut gone = false;
    for now in 10..30 {
        let found = db.get(b"k", now).is_some();
        assert!(!(gone && found));
        assert_eq!(found, now - 10 <= 3);
        gone = !found;
    }
}

#[test]
fn read_before_the_write_time_finds_the_value() {
    let mut db = Db::new();
    db.set(b"k".to_vec(), b"v".to_vec(), 5, 100);
    assert_eq!(db.get(b"k", 50), Some(b"v".to_vec()));
}

#[test]
fn overwriting_renews_the_time_to_live() {
    let mut db = Db::new();
    db.set(b"k".to_vec(), b"old".to_vec(), 10, 0);
    db.set(b"k".to_vec(), b"new".to_vec(), 10, 8);
    assert_eq!(db.get(b"k", 15), Some(b"new".to_vec()));
    assert_eq!(db.get(b"k", 19), None);
}

#[test]
fn keys_lists_each_key_once() {
    let mut db = Db::new();
    db.set(b"a".to_vec(), b"1".to_vec(), 0, 0);
    db.set(b"b".to_vec(), b"2".to_vec(), 0, 0);
    db.set(b"a".to_vec(), b"3".to_vec(), 0, 0);
    db.set(b"c".to_vec(), b"4".to_vec(), 0, 0);
    assert_eq!(
        sorted(db.keys()),
        vec![b"a".to_vec(), b"b".to_vec(), b"c".to_vec()]
    );
}

#[test]
fn keys_lists_expired_keys_too() {
    let mut db = Db::new();
    db.set(b"short".to_vec(), b"1".to_vec(), 10, 0);
    db.set(b"long".to_vec(), b"2".to_vec(), 1000, 0);
    db.set(b"ever".to_vec(), b"3".to_vec(), 0, 0);
    assert_eq!(db.get(b"short", 11), None);
    assert_eq!(db.get(b"long", 1001), None);
    assert_eq!(
        sorted(db.keys()),
        vec![b"ever".to_vec(), b"long".to_vec(), b"short".to_vec()]
    );
}

#[test]
fn keys_does_not_change_the_keyspace() {
    let mut db = Db::new();
    db.set(b"a".to_vec(), b"1".to_vec(), 5, 0);
    let first = sorted(db.keys());
    assert_eq!(sorted(db.keys()), first);
    assert_eq!(db.get(b"a", 5), Some(b"1".to_vec()));
}

#[test]
fn bulk_load_replaces_everything() {
    let mut db = Db::new();
    db.set(b"old".to_vec(), b"x".to_vec(), 0, 0);
    db.bulk_load(vec![
        (b"a".to_vec(), DbItem::new(b"1".to_vec(), 0, 0)),
        (b"b".to_vec(), DbItem::new(b"2".to_vec(), 0, 50)),
    ]);
    assert_eq!(db.get(b"old", 0), None);
    assert_eq!(db.get(b"a", 100), Some(b"1".to_vec()));
    assert_eq!(db.get(b"b", 50), Some(b"2".to_vec()));
    assert_eq!(db.get(b"b", 51), None);
}

#[test]
fn bulk_load_keeps_the_later_of_two_entries_with_one_key() {
    let mut db = Db::new();
    db.bulk_load(vec![
        (b"a".to_vec(), DbItem::new(b"first".to_vec(), 0, 0)),
        (b"b".to_vec(), DbItem::new(b"2".to_vec(), 0, 0)),
        (b"a".to_vec(), DbItem::new(b"last".to_vec(), 0, 0)),
    ]);
    assert_eq!(db.get(b"a", 0), Some(b"last".to_vec()));
    assert_eq!(db.keys().len(), 2);
}

#[test]
fn bulk_load_of_nothing_empties_the_keyspace() {
    let mut db = Db::new();
    db.set(b"k".to_vec(), b"v".to_vec(), 0, 0);
    db.bulk_load(vec![]);
    assert_eq!(db.keys().len(), 0);
}

#[test]
fn keys_may_hold_any_bytes() {
    let mut db = Db::new();
    db.set(vec![0, 255, 13, 10], vec![1, 2, 3], 0, 0);
    db.set(vec![], vec![], 0, 0);
    assert_eq!(db.get(&[0, 255, 13, 10], 0), Some(vec![1, 2, 3]));
    assert_eq!(db.get(&[], 0), Some(vec![]));
}
