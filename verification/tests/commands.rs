use redis_lite::args::ServiceArguments;
use redis_lite::config::Config;
use redis_lite::db::Db;
use redis_lite::error::CommandError;
use redis_lite::frame::Frame;
use redis_lite::handlers::{
    array3, bulk, bulk_arg, extract_command, handle_config, handle_echo, handle_get, handle_info,
    handle_keys, handle_ping, handle_psync, handle_replconf, handle_set, simple, unpack_bulk_str,
};
use redis_lite::replication::ReplicationConfig;

fn command(words: &[&str]) -> Frame {
    Frame::Array(words.iter().map(|w| bulk(w)).collect())
}

fn config(dir: Option<&str>, dbfilename: Option<&str>, replicaof: Option<&str>) -> Config {
    Config::from_args(ServiceArguments {
        dir: dir.map(|s| s.to_string()),
        dbfilename: dbfilename.map(|s| s.to_string()),
        port: None,
        replicaof: replicaof.map(|s| s.to_string()),
    })
}

fn primary() -> ReplicationConfig {
    ReplicationConfig::from_config(&config(None, None, None))
}

fn replica() -> ReplicationConfig {
    ReplicationConfig::from_config(&config(None, None, Some("localhost 6379")))
}

#[test]
fn frame_builders() {
    assert_eq!(simple("OK"), Frame::SimpleString(b"OK".to_vec()));
    assert_eq!(bulk("GET"), Frame::BulkString(b"GET".to_vec()));
    assert_eq!(
        array3(bulk("a"), simple("b"), Frame::NullBulkString),
        Frame::Array(vec![bulk("a"), simple("b"), Frame::NullBulkString])
    );
}

#[test]
fn extract_command_splits_name_and_arguments() {
    assert_eq!(
        extract_command(command(&["SET", "foo", "bar"])),
        Ok((b"SET".to_vec(), vec![bulk("foo"), bulk("bar")]))
    );
    assert_eq!(
        extract_command(command(&["ping"])),
        Ok((b"ping".to_vec(), vec![]))
    );
    assert_eq!(
        extract_command(Frame::Array(vec![bulk("ECHO"), simple("x")])),
        Ok((b"ECHO".to_vec(), vec![simple("x")]))
    );
}

#[test]
fn extract_command_refuses_what_is_no_command() {
    assert_eq!(extract_command(simple("PING")), Err(CommandError::ProtocolError));
    assert_eq!(extract_command(bulk("PING")), Err(CommandError::ProtocolError));
    assert_eq!(extract_command(Frame::NullBulkString), Err(CommandError::ProtocolError));
    assert_eq!(
        extract_command(Frame::Array(vec![])),
        Err(CommandError::ProtocolError)
    );
    assert_eq!(
        extract_command(Frame::Array(vec![simple("PING")])),
        Err(CommandError::ProtocolError)
    );
    assert_eq!(
        extract_command(Frame::Array(vec![Frame::Array(vec![bulk("PING")])])),
        Err(CommandError::ProtocolError)
    );
}

#[test]
fn unpack_bulk_str_takes_bulk_strings_only() {
    assert_eq!(unpack_bulk_str(bulk("x")), Ok(b"x".to_vec()));
    assert_eq!(unpack_bulk_str(simple("x")), Err(CommandError::ProtocolError));
    assert_eq!(
        unpack_bulk_str(Frame::NullBulkString),
        Err(CommandError::ProtocolError)
    );
    assert_eq!(
        unpack_bulk_str(Frame::SnapshotBlob(b"x".to_vec())),
        Err(CommandError::ProtocolError)
    );
}

#[test]
fn bulk_arg_by_index() {
    let args = vec![bulk("a"), simple("b")];
    assert_eq!(bulk_arg(&args, 0), Some(&b"a".to_vec()));
    assert_eq!(bulk_arg(&args, 1), None);
    assert_eq!(bulk_arg(&args, 2), None);
}

#[test]
fn ping_replies_pong_unless_held_back() {
    assert_eq!(handle_ping(true), Some(simple("PONG")));
    assert_eq!(handle_ping(false), None);
}

#[test]
fn echo_replies_with_its_argument() {
    assert_eq!(handle_echo(bulk("hey")), bulk("hey"));
    assert_eq!(handle_echo(simple("hey")), simple("hey"));
}

#[test]
fn set_writes_and_replies_ok() {
    let mut db = Db::new();
    assert_eq!(
        handle_set(&mut db, command(&["SET", "foo", "bar"]), true, 0),
        Ok(Some(simple("OK")))
    );
    assert_eq!(db.get(b"foo", 0), Some(b"bar".to_vec()));
    assert_eq!(db.get(b"foo", u64::MAX), Some(b"bar".to_vec()));
}

#[test]
fn set_held_back_writes_without_reply() {
    let mut db = Db::new();
    assert_eq!(
        handle_set(&mut db, command(&["SET", "foo", "bar"]), false, 0),
        Ok(None)
    );
    assert_eq!(db.get(b"foo", 0), Some(b"bar".to_vec()));
}

#[test]
fn set_with_px_sets_the_time_to_live() {
    let mut db = Db::new();
    assert_eq!(
        handle_set(&mut db, command(&["SET", "k", "v", "px", "100"]), true, 1000),
        Ok(Some(simple("OK")))
    );
    assert_eq!(db.get(b"k", 1100), Some(b"v".to_vec()));
    assert_eq!(db.get(b"k", 1101), None);
}

#[test]
fn set_takes_px_in_any_case() {
    let mut db = Db::new();
    assert_eq!(
        handle_set(&mut db, command(&["SET", "k", "v", "PX", "5"]), true, 0),
        Ok(Some(simple("OK")))
    );
    assert_eq!(
        handle_set(&mut db, command(&["SET", "j", "v", "Px", "5"]), true, 0),
        Ok(Some(simple("OK")))
    );
    assert_eq!(db.get(b"k", 6), None);
    assert_eq!(db.get(b"j", 5), Some(b"v".to_vec()));
}

#[test]
fn set_with_another_option_is_a_syntax_error() {
    let mut db = Db::new();
    assert_eq!(
        handle_set(&mut db, command(&["SET", "k", "v", "xy", "100"]), true, 0),
        Err(CommandError::SyntaxError)
    );
    assert_eq!(db.get(b"k", 0), None);
}

#[test]
fn set_with_a_bad_shape_is_a_syntax_error() {
    let mut db = Db::new();
    for words in [
        &["SET"][..],
        &["SET", "k"][..],
        &["SET", "k", "v", "px"][..],
        &["SET", "k", "v", "px", "ten"][..],
        &["SET", "k", "v", "px", "-1"][..],
        &["SET", "k", "v", "px", ""][..],
        &["SET", "k", "v", "px", "18446744073709551616"][..],
    ] {
        assert_eq!(
            handle_set(&mut db, command(words), true, 0),
            Err(CommandError::SyntaxError)
        );
    }
    assert_eq!(
        handle_set(
            &mut db,
            Frame::Array(vec![bulk("SET"), simple("k"), bulk("v")]),
            true,
            0
        ),
        Err(CommandError::SyntaxError)
    );
    assert_eq!(db.keys().len(), 0);
}

#[test]
fn set_of_what_is_no_command_is_a_protocol_error() {
    let mut db = Db::new();
    assert_eq!(
        handle_set(&mut db, simple("SET"), true, 0),
        Err(CommandError::ProtocolError)
    );
}

#[test]
fn set_passes_over_what_follows_the_time_to_live() {
    let mut db = Db::new();
    assert_eq!(
        handle_set(&mut db, command(&["SET", "k", "v", "px", "7", "more"]), true, 0),
        Ok(Some(simple("OK")))
    );
    assert_eq!(db.get(b"k", 8), None);
}

#[test]
fn get_replies_with_the_value_or_null() {
    let mut db = Db::new();
    db.set(b"foo".to_vec(), b"bar".to_vec(), 0, 0);
    db.set(b"short".to_vec(), b"x".to_vec(), 10, 0);
    assert_eq!(handle_get(&db, bulk("foo"), 5), Ok(bulk("bar")));
    assert_eq!(handle_get(&db, bulk("nope"), 5), Ok(Frame::NullBulkString));
    assert_eq!(handle_get(&db, bulk("short"), 10), Ok(bulk("x")));
    assert_eq!(handle_get(&db, bulk("short"), 11), Ok(Frame::NullBulkString));
}

#[test]
fn get_of_a_key_that_is_no_bulk_string_is_a_syntax_error() {
    let db = Db::new();
    assert_eq!(handle_get(&db, simple("foo"), 0), Err(CommandError::SyntaxError));
}

#[test]
fn keys_replies_with_bulk_strings() {
    let mut db = Db::new();
    assert_eq!(handle_keys(&db), Frame::Array(vec![]));
    db.set(b"foo".to_vec(), b"1".to_vec(), 0, 0);
    assert_eq!(handle_keys(&db), Frame::Array(vec![bulk("foo")]));
    db.set(b"bar".to_vec(), b"2".to_vec(), 5, 0);
    match handle_keys(&db) {
        Frame::Array(mut items) => {
            items.sort_by_key(|f| f.clone().serialize());
            assert_eq!(items, vec![bulk("bar"), bulk("foo")]);
        }
        other => panic!("unexpected reply {:?}", other),
    }
}

#[test]
fn keys_replies_with_expired_keys_too() {
    let mut db = Db::new();
    db.set(b"gone".to_vec(), b"1".to_vec(), 5, 0);
    assert_eq!(handle_get(&db, bulk("gone"), 6), Ok(Frame::NullBulkString));
    assert_eq!(handle_keys(&db), Frame::Array(vec![bulk("gone")]));
}

#[test]
fn config_get_replies_with_name_and_value() {
    let config = config(Some("/tmp/redis-files"), Some("dump.rdb"), None);
    assert_eq!(
        handle_config(&config, bulk("GET"), bulk("dir")),
        Ok(Frame::Array(vec![bulk("dir"), bulk("/tmp/redis-files")]))
    );
    assert_eq!(
        handle_config(&config, bulk("get"), bulk("dbfilename")),
        Ok(Frame::Array(vec![bulk("dbfilename"), bulk("dump.rdb")]))
    );
}

#[test]
fn config_get_of_an_unknown_name_is_null() {
    let config = config(Some("/data"), None, None);
    assert_eq!(
        handle_config(&config, bulk("GET"), bulk("port")),
        Ok(Frame::NullBulkString)
    );
    assert_eq!(
        handle_config(&config, bulk("GET"), bulk("DIR")),
        Ok(Frame::NullBulkString)
    );
    assert_eq!(
        handle_config(&config, bulk("GET"), bulk("dbfilename")),
        Ok(Frame::NullBulkString)
    );
    assert_eq!(
        handle_config(&config, bulk("GET"), Frame::BulkString(vec![0xff, 0xfe])),
        Ok(Frame::NullBulkString)
    );
}

#[test]
fn config_with_another_subcommand_is_null() {
    let config = config(Some("/data"), None, None);
    assert_eq!(
        handle_config(&config, bulk("SET"), bulk("dir")),
        Ok(Frame::NullBulkString)
    );
}

#[test]
fn config_with_a_bad_shape_is_a_syntax_error() {
    let config = config(Some("/data"), None, None);
    assert_eq!(
        handle_config(&config, simple("GET"), bulk("dir")),
        Err(CommandError::SyntaxError)
    );
    assert_eq!(
        handle_config(&config, bulk("GET"), simple("dir")),
        Err(CommandError::SyntaxError)
    );
}

#[test]
fn info_of_a_primary() {
    assert_eq!(
        handle_info(&primary()),
        bulk("role:master\r\nmaster_replid:8371b4fb1155b71f4a04d3e1bc3e18c4a990aeeb\r\nmaster_repl_offset:0")
    );
}

#[test]
fn info_of_a_replica() {
    assert_eq!(handle_info(&replica()), bulk("role:slave"));
}

#[test]
fn info_reports_the_offset() {
    let mut repl = primary();
    repl.master_repl_offset = Some(1234);
    repl.master_replid = Some("abc".to_string());
    assert_eq!(
        handle_info(&repl),
        bulk("role:master\r\nmaster_replid:abc\r\nmaster_repl_offset:1234")
    );
}

#[test]
fn replconf_replies_ok_unless_held_back() {
    let args = vec![bulk("listening-port"), bulk("6380")];
    assert_eq!(handle_replconf(&primary(), &args, true), Some(simple("OK")));
    assert_eq!(handle_replconf(&primary(), &args, false), None);
    assert_eq!(handle_replconf(&primary(), &vec![], true), Some(simple("OK")));
    assert_eq!(
        handle_replconf(&primary(), &vec![simple("GETACK")], true),
        Some(simple("OK"))
    );
}

#[test]
fn replconf_getack_replies_in_any_case() {
    let args = vec![bulk("GETACK"), bulk("*")];
    let mut repl = replica();
    let ack0 = Frame::Array(vec![bulk("REPLCONF"), bulk("ACK"), bulk("0")]);
    assert_eq!(handle_replconf(&repl, &args, false), Some(ack0.clone()));
    assert_eq!(handle_replconf(&repl, &args, true), Some(ack0.clone()));
    repl.slave_repl_offset = Some(154);
    assert_eq!(
        handle_replconf(&repl, &args, false),
        Some(Frame::Array(vec![bulk("REPLCONF"), bulk("ACK"), bulk("154")]))
    );
    assert_eq!(handle_replconf(&primary(), &args, false), Some(ack0));
}

#[test]
fn psync_on_a_primary() {
    let (announcement, snapshot) = handle_psync(&primary()).unwrap();
    assert_eq!(
        announcement,
        simple("FULLRESYNC 8371b4fb1155b71f4a04d3e1bc3e18c4a990aeeb 0")
    );
    match snapshot {
        Frame::SnapshotBlob(bytes) => {
            assert_eq!(bytes.len(), 88);
            assert_eq!(&bytes[..5], b"REDIS");
        }
        other => panic!("unexpected frame {:?}", other),
    }
}

#[test]
fn psync_on_a_replica_is_unknown() {
    assert_eq!(handle_psync(&replica()), Err(CommandError::UnknownCommand));
}
