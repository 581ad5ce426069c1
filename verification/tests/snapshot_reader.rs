use redis_lite::db::Db;
use redis_lite::error::SnapshotError;
use redis_lite::handlers::empty_rdb_bytes;
use redis_lite::rdb::{parse_rdb, parse_rdb_file, SnapshotEntry};

fn entry(key: &[u8], value: &[u8], expires_ms: u64) -> SnapshotEntry {
    SnapshotEntry { key: key.to_vec(), value: value.to_vec(), expires_ms }
}

fn header() -> Vec<u8> {
    let mut bytes = b"REDIS0011".to_vec();
    bytes.extend([0xfa, 0x09]);
    bytes.extend(b"redis-ver");
    bytes.push(0x05);
    bytes.extend(b"7.2.0");
    bytes.extend([0xfe, 0x00]);
    bytes
}

fn plain(key: &[u8], value: &[u8]) -> Vec<u8> {
    let mut bytes = vec![0x00, key.len() as u8];
    bytes.extend(key);
    bytes.push(value.len() as u8);
    bytes.extend(value);
    bytes
}

fn ending() -> Vec<u8> {
    vec![0xff, 1, 2, 3, 4, 5, 6, 7, 8]
}

fn db_of(result: Result<Db, SnapshotError>) -> Db {
    match result {
        Ok(db) => db,
        Err(e) => panic!("unexpected error {:?}", e),
    }
}

#[test]
fn empty_snapshot_literal_is_88_bytes_without_entries() {
    let bytes = empty_rdb_bytes();
    assert_eq!(bytes.len(), 88);
    assert_eq!(&bytes[..9], b"REDIS0011");
    assert_eq!(bytes[87], 0xa2);
    assert_eq!(parse_rdb(&bytes), Ok(vec![]));
}

#[test]
fn snapshot_with_only_the_end_byte() {
    assert_eq!(parse_rdb(&[0xff]), Ok(vec![]));
}

#[test]
fn snapshot_without_end_is_malformed() {
    assert_eq!(parse_rdb(b""), Err(SnapshotError::MalformedSnapshot));
    assert_eq!(parse_rdb(b"REDIS0011"), Err(SnapshotError::MalformedSnapshot));
    let mut bytes = header();
    bytes.extend([0xfb, 0x01, 0x00]);
    bytes.extend(plain(b"foo", b"bar"));
    assert_eq!(parse_rdb(&bytes), Err(SnapshotError::MalformedSnapshot));
}

#[test]
fn section_with_one_plain_entry() {
    let mut bytes = header();
    bytes.extend([0xfb, 0x01, 0x00]);
    bytes.extend(plain(b"foo", b"bar"));
    bytes.extend(ending());
    assert_eq!(parse_rdb(&bytes), Ok(vec![entry(b"foo", b"bar", 0)]));
}

#[test]
fn section_with_plain_entries_and_entries_with_expiry() {
    let mut bytes = header();
    bytes.extend([0xfb, 0x03, 0x02]);
    bytes.extend(plain(b"foo", b"bar"));
    bytes.push(0xfc);
    bytes.extend(1713824559637u64.to_le_bytes());
    bytes.extend(plain(b"baz", b"qux"));
    bytes.push(0xfd);
    bytes.extend(1700000000u32.to_le_bytes());
    bytes.extend(plain(b"k", b""));
    bytes.extend(ending());
    assert_eq!(
        parse_rdb(&bytes),
        Ok(vec![
            entry(b"foo", b"bar", 0),
            entry(b"baz", b"qux", 1713824559637),
            entry(b"k", b"", 1700000000000),
        ])
    );
}

#[test]
fn expiry_in_milliseconds_is_little_endian() {
    let mut bytes = vec![0xfb, 0x01, 0x01, 0xfc, 0x01, 0x02, 0, 0, 0, 0, 0, 0];
    bytes.extend(plain(b"k", b"v"));
    bytes.push(0xff);
    assert_eq!(parse_rdb(&bytes), Ok(vec![entry(b"k", b"v", 0x0201)]));
    let mut bytes = vec![0xfb, 0x01, 0x01, 0xfc, 0xff, 0xff, 0xff, 0xff, 0xff, 0xff, 0xff, 0xff];
    bytes.extend(plain(b"k", b"v"));
    bytes.push(0xff);
    assert_eq!(parse_rdb(&bytes), Ok(vec![entry(b"k", b"v", u64::MAX)]));
}

#[test]
fn expiry_in_seconds_becomes_milliseconds() {
    let mut bytes = vec![0xfb, 0x01, 0x01, 0xfd, 0x02, 0x01, 0, 0];
    bytes.extend(plain(b"k", b"v"));
    bytes.push(0xff);
    assert_eq!(parse_rdb(&bytes), Ok(vec![entry(b"k", b"v", 258_000)]));
}

#[test]
fn two_sections() {
    let mut bytes = header();
    bytes.extend([0xfb, 0x01, 0x00]);
    bytes.extend(plain(b"a", b"1"));
    bytes.extend([0xfe, 0x01, 0xfb, 0x01, 0x00]);
    bytes.extend(plain(b"b", b"2"));
    bytes.extend(ending());
    assert_eq!(
        parse_rdb(&bytes),
        Ok(vec![entry(b"a", b"1", 0), entry(b"b", b"2", 0)])
    );
}

#[test]
fn empty_section() {
    let mut bytes = header();
    bytes.extend([0xfb, 0x00, 0x00]);
    bytes.extend(ending());
    assert_eq!(parse_rdb(&bytes), Ok(vec![]));
}

#[test]
fn size_in_six_bits() {
    let key = vec![b'k'; 63];
    let mut bytes = vec![0xfb, 0x01, 0x00, 0x00, 63];
    bytes.extend(&key);
    bytes.extend([0x01, b'v', 0xff]);
    assert_eq!(parse_rdb(&bytes), Ok(vec![entry(&key, b"v", 0)]));
}

#[test]
fn size_in_fourteen_bits() {
    let key = vec![b'k'; 300];
    let mut bytes = vec![0xfb, 0x01, 0x00, 0x00, 0x41, 0x2c];
    bytes.extend(&key);
    bytes.extend([0x01, b'v', 0xff]);
    assert_eq!(parse_rdb(&bytes), Ok(vec![entry(&key, b"v", 0)]));
}

#[test]
fn size_in_four_bytes_is_big_endian() {
    let value = vec![b'v'; 70000];
    let mut bytes = vec![0xfb, 0x01, 0x00, 0x00, 0x01, b'k', 0x80, 0x00, 0x01, 0x11, 0x70];
    bytes.extend(&value);
    bytes.push(0xff);
    assert_eq!(parse_rdb(&bytes), Ok(vec![entry(b"k", &value, 0)]));
}

#[test]
fn special_size_encoding_is_unsupported() {
    let bytes = vec![0xfb, 0x01, 0x00, 0x00, 0xc0, 0x01, 0x01, b'v', 0xff];
    assert_eq!(parse_rdb(&bytes), Err(SnapshotError::UnsupportedEncoding));
    let bytes = vec![0xfb, 0xc0, 0x00, 0xff];
    assert_eq!(parse_rdb(&bytes), Err(SnapshotError::UnsupportedEncoding));
}

#[test]
fn value_type_other_than_string_is_unsupported() {
    let bytes = vec![0xfb, 0x01, 0x00, 0x01, 0x01, b'k', 0x01, b'v', 0xff];
    assert_eq!(parse_rdb(&bytes), Err(SnapshotError::UnsupportedEncoding));
}

#[test]
fn unknown_expiry_marker_is_malformed() {
    let mut bytes = vec![0xfb, 0x01, 0x01, 0xfa, 0, 0, 0, 0];
    bytes.extend(plain(b"k", b"v"));
    bytes.push(0xff);
    assert_eq!(parse_rdb(&bytes), Err(SnapshotError::MalformedSnapshot));
    let mut bytes = vec![0xfb, 0x01, 0x01];
    bytes.extend(plain(b"k", b"v"));
    bytes.push(0xff);
    assert_eq!(parse_rdb(&bytes), Err(SnapshotError::MalformedSnapshot));
}

#[test]
fn more_entries_with_expiry_than_entries_is_malformed() {
    let bytes = vec![0xfb, 0x01, 0x02, 0xff];
    assert_eq!(parse_rdb(&bytes), Err(SnapshotError::MalformedSnapshot));
}

#[test]
fn truncated_entries_are_malformed() {
    assert_eq!(parse_rdb(&[0xfb]), Err(SnapshotError::MalformedSnapshot));
    assert_eq!(parse_rdb(&[0xfb, 0x01]), Err(SnapshotError::MalformedSnapshot));
    assert_eq!(parse_rdb(&[0xfb, 0x01, 0x00]), Err(SnapshotError::MalformedSnapshot));
    assert_eq!(
        parse_rdb(&[0xfb, 0x01, 0x00, 0x00, 0x05, b'k']),
        Err(SnapshotError::MalformedSnapshot)
    );
    assert_eq!(
        parse_rdb(&[0xfb, 0x01, 0x00, 0x00, 0x41]),
        Err(SnapshotError::MalformedSnapshot)
    );
    assert_eq!(
        parse_rdb(&[0xfb, 0x01, 0x00, 0x00, 0x80, 0, 0, 0]),
        Err(SnapshotError::MalformedSnapshot)
    );
    assert_eq!(
        parse_rdb(&[0xfb, 0x01, 0x01, 0xfc, 1, 2, 3, 4, 5, 6, 7]),
        Err(SnapshotError::MalformedSnapshot)
    );
    assert_eq!(
        parse_rdb(&[0xfb, 0x01, 0x01, 0xfd, 1, 2, 3]),
        Err(SnapshotError::MalformedSnapshot)
    );
}

#[test]
fn missing_file_gives_an_empty_keyspace() {
    let db = db_of(parse_rdb_file(None, 5));
    assert_eq!(db.keys().len(), 0);
}

#[test]
fn file_gives_a_keyspace_with_its_entries() {
    let mut bytes = header();
    bytes.extend([0xfb, 0x02, 0x01]);
    bytes.extend(plain(b"foo", b"bar"));
    bytes.push(0xfc);
    bytes.extend(500u64.to_le_bytes());
    bytes.extend(plain(b"baz", b"qux"));
    bytes.extend(ending());
    let db = db_of(parse_rdb_file(Some(&bytes), 1000));
    assert_eq!(db.get(b"foo", 1000), Some(b"bar".to_vec()));
    assert_eq!(db.get(b"foo", 999_999), Some(b"bar".to_vec()));
    assert_eq!(db.get(b"baz", 1500), Some(b"qux".to_vec()));
    assert_eq!(db.get(b"baz", 1501), None);
    assert_eq!(db.keys().len(), 2);
}

#[test]
fn file_with_one_key_twice_keeps_the_later_entry() {
    let mut bytes = vec![0xfb, 0x02, 0x00];
    bytes.extend(plain(b"k", b"first"));
    bytes.extend(plain(b"k", b"last"));
    bytes.push(0xff);
    let db = db_of(parse_rdb_file(Some(&bytes), 0));
    assert_eq!(db.get(b"k", 0), Some(b"last".to_vec()));
    assert_eq!(db.keys().len(), 1);
}

#[test]
fn file_that_cannot_be_read_is_an_error() {
    assert!(matches!(
        parse_rdb_file(Some(b"REDIS0011"), 0),
        Err(SnapshotError::MalformedSnapshot)
    ));
    assert!(matches!(
        parse_rdb_file(Some(&[0xfb, 0xc0]), 0),
        Err(SnapshotError::UnsupportedEncoding)
    ));
}
