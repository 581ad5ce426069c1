//! What each command does: the reply it gives and the change it makes, as
//! functions of the server's state.

use crate::ascii::{
    bytes_eq, decimal, decimal_bytes, eq_ignore_case, is_keyword, lemma_wire_injective,
    parse_unsigned, push_all, push_decimal, text, text_bytes, text_from_utf8, unsigned_u64, wire,
};
use crate::config::{Config, ConfigView};
use crate::db::{read, written, Db, DbView};
use crate::error::CommandError;
use crate::frame::{crlf, lemma_array_view, views, Frame, FrameView, CR, LF};
use crate::replication::{role_name, ReplRole, ReplicationConfig, ReplicationView};
use vstd::prelude::*;
use vstd::string::StrSliceExecFns;

verus! {

/// The command name and the arguments that a frame carries: the frame is an
/// array, its first element a bulk string, the others the arguments.
pub open spec fn command_of(frame: FrameView) -> Result<(Seq<u8>, Seq<FrameView>), CommandError> {
    match frame {
        FrameView::Array(items) => {
            if items.len() > 0 && items[0] is BulkString {
                Ok((items[0]->BulkString_0, items.skip(1)))
            } else {
                Err(CommandError::ProtocolError)
            }
        },
        _ => Err(CommandError::ProtocolError),
    }
}

/// The bytes of the argument at index `i`, where there is one and it is a
/// bulk string.
pub open spec fn arg_bytes(args: Seq<FrameView>, i: int) -> Option<Seq<u8>> {
    if 0 <= i < args.len() && args[i] is BulkString {
        Some(args[i]->BulkString_0)
    } else {
        None
    }
}

/// The model of a frame that may be absent.
pub open spec fn frame_of(frame: Option<Frame>) -> Option<FrameView> {
    match frame {
        Some(f) => Some(f@),
        None => None,
    }
}

/// The bytes of a bulk string; any other frame is refused.
pub fn unpack_bulk_str(frame: Frame) -> (r: Result<Vec<u8>, CommandError>)
    ensures
        match frame@ {
            FrameView::BulkString(b) => r matches Ok(v) && v@ == b,
            _ => r matches Err(e) && e == CommandError::ProtocolError,
        },
{
    match frame {
        Frame::BulkString(s) => Ok(s),
        _ => Err(CommandError::ProtocolError),
    }
}

/// Splits a command frame into the command name and the arguments.
pub fn extract_command(frame: Frame) -> (r: Result<(Vec<u8>, Vec<Frame>), CommandError>)
    ensures
        match command_of(frame@) {
            Ok((name, args)) => r matches Ok((n, a)) && n@ == name && views(a@) == args,
            Err(e) => r matches Err(x) && x == e,
        },
{
    match frame {
        Frame::Array(items) => {
            let mut items = items;
            proof {
                lemma_array_view(items);
            }
            if items.len() == 0 {
                return Err(CommandError::ProtocolError);
            }
            let ghost all = views(items@);
            let first = items.remove(0);
            proof {
                assert(first@ == all[0]);
                assert(views(items@) =~= all.skip(1));
            }
            match unpack_bulk_str(first) {
                Ok(name) => Ok((name, items)),
                Err(e) => Err(e),
            }
        },
        _ => Err(CommandError::ProtocolError),
    }
}

/// The bytes of the argument at index `i`, where there is one and it is a
/// bulk string.
pub fn bulk_arg(args: &Vec<Frame>, i: usize) -> (r: Option<&Vec<u8>>)
    ensures
        match arg_bytes(views(args@), i as int) {
            Some(b) => r matches Some(v) && v@ == b,
            None => r is None,
        },
{
    if i < args.len() {
        match &args[i] {
            Frame::BulkString(b) => Some(b),
            _ => None,
        }
    } else {
        None
    }
}

/// A simple string frame with the given text.
pub fn simple(s: &str) -> (frame: Frame)
    ensures
        frame@ == FrameView::SimpleString(text(s)),
{
    Frame::SimpleString(text_bytes(s))
}

/// A bulk string frame with the given text.
pub fn bulk(s: &str) -> (frame: Frame)
    ensures
        frame@ == FrameView::BulkString(text(s)),
{
    Frame::BulkString(text_bytes(s))
}

/// An array frame of the three given frames.
pub fn array3(a: Frame, b: Frame, c: Frame) -> (frame: Frame)
    ensures
        frame@ == FrameView::Array(seq![a@, b@, c@]),
{
    let mut items: Vec<Frame> = Vec::new();
    items.push(a);
    items.push(b);
    items.push(c);
    proof {
        lemma_array_view(items);
        assert(views(items@) =~= seq![a@, b@, c@]);
    }
    Frame::Array(items)
}

/// The reply to `ECHO`: the argument, as it came.
pub fn handle_echo(what: Frame) -> (reply: Frame)
    ensures
        reply@ == what@,
{
    what
}

/// The reply to `PING`, unless replies are held back.
pub fn handle_ping(reply: bool) -> (r: Option<Frame>)
    ensures
        frame_of(r) == if reply {
            Some(FrameView::SimpleString(text("PONG")))
        } else {
            None
        },
{
    if reply {
        Some(simple("PONG"))
    } else {
        None
    }
}

/// What a `SET` with the given arguments asks for: the key, the value, and
/// the milliseconds the value is to live, zero where none are given. `None`
/// where the arguments have another shape than `key value [px ms]`.
pub open spec fn set_request(args: Seq<FrameView>) -> Option<(Seq<u8>, Seq<u8>, nat)> {
    match (arg_bytes(args, 0), arg_bytes(args, 1)) {
        (Some(key), Some(value)) => {
            if args.len() == 2 {
                Some((key, value, 0nat))
            } else {
                match (arg_bytes(args, 2), arg_bytes(args, 3)) {
                    (Some(unit), Some(ms)) => {
                        if eq_ignore_case(unit, text("px")) {
                            match unsigned_u64(ms) {
                                Some(n) => Some((key, value, n as nat)),
                                None => None,
                            }
                        } else {
                            None
                        }
                    },
                    _ => None,
                }
            }
        },
        _ => None,
    }
}

/// Carries out the `SET` that `frame` holds, at the time `now`: the value is
/// written, and the reply is `OK` unless replies are held back. Arguments of
/// another shape than `key value [px ms]` are a syntax error and change
/// nothing.
pub fn handle_set(db: &mut Db, frame: Frame, reply: bool, now: u64) -> (r: Result<
    Option<Frame>,
    CommandError,
>)
    requires
        old(db).wf(),
    ensures
        final(db).wf(),
        match command_of(frame@) {
            Err(e) => r matches Err(x) && x == e && final(db)@ == old(db)@,
            Ok((_, args)) => match set_request(args) {
                None => r matches Err(x) && x == CommandError::SyntaxError && final(db)@ == old(
                    db,
                )@,
                Some((key, value, expires)) => {
                    &&& r matches Ok(o) && frame_of(o) == if reply {
                        Some(FrameView::SimpleString(text("OK")))
                    } else {
                        None
                    }
                    &&& final(db)@ == written(old(db)@, key, value, expires, now as nat)
                },
            },
        },
{
    let (_, args) = match extract_command(frame) {
        Ok(parts) => parts,
        Err(e) => {
            return Err(e);
        },
    };
    let (key, value) = match (bulk_arg(&args, 0), bulk_arg(&args, 1)) {
        (Some(key), Some(value)) => (key, value),
        _ => {
            return Err(CommandError::SyntaxError);
        },
    };
    let expires: u64 = if args.len() > 2 {
        let (unit, ms) = match (bulk_arg(&args, 2), bulk_arg(&args, 3)) {
            (Some(unit), Some(ms)) => (unit, ms),
            _ => {
                return Err(CommandError::SyntaxError);
            },
        };
        if !is_keyword(unit.as_slice(), "px") {
            return Err(CommandError::SyntaxError);
        }
        match parse_unsigned(ms.as_slice()) {
            Some(n) => n,
            None => {
                return Err(CommandError::SyntaxError);
            },
        }
    } else {
        0
    };
    db.set(key.clone(), value.clone(), expires, now);
    if reply {
        Ok(Some(simple("OK")))
    } else {
        Ok(None)
    }
}

/// The reply to a `GET` of the key that `key` holds, at the time `now`.
pub open spec fn get_reply(db: DbView, key: FrameView, now: nat) -> Result<
    FrameView,
    CommandError,
> {
    match key {
        FrameView::BulkString(k) => Ok(
            match read(db, k, now) {
                Some(v) => FrameView::BulkString(v),
                None => FrameView::NullBulkString,
            },
        ),
        _ => Err(CommandError::SyntaxError),
    }
}

/// The reply to `GET`, at the time `now`: the value as a bulk string, or the
/// null bulk string where the key holds nothing or its value has expired. A
/// key that is no bulk string is a syntax error.
pub fn handle_get(db: &Db, key: Frame, now: u64) -> (r: Result<Frame, CommandError>)
    requires
        db.wf(),
    ensures
        match get_reply(db@, key@, now as nat) {
            Ok(f) => r matches Ok(reply) && reply@ == f,
            Err(e) => r matches Err(x) && x == e,
        },
{
    let key = match unpack_bulk_str(key) {
        Ok(k) => k,
        Err(_) => {
            return Err(CommandError::SyntaxError);
        },
    };
    let frame = match db.get(key.as_slice(), now) {
        Some(value) => Frame::BulkString(value),
        None => Frame::NullBulkString,
    };
    Ok(frame)
}

/// The frame lists the keys of the keyspace, as bulk strings and each once.
/// A key whose value has expired is listed too.
pub open spec fn lists_keys(frame: FrameView, db: DbView) -> bool {
    &&& frame matches FrameView::Array(items)
    &&& forall|i: int| 0 <= i < items.len() ==> (#[trigger] items[i]) is BulkString
    &&& forall|i: int, j: int| 0 <= i < j < items.len() ==> items[i] != items[j]
    &&& forall|key: Seq<u8>|
        (exists|i: int| 0 <= i < items.len() && items[i] == FrameView::BulkString(key))
            <==> db.contains_key(key)
}

/// The reply to `KEYS`: every key of the keyspace, in no particular order.
pub fn handle_keys(db: &Db) -> (reply: Frame)
    requires
        db.wf(),
    ensures
        lists_keys(reply@, db@),
{
    let mut keys = db.keys();
    let ghost names: Seq<Seq<u8>> = Seq::new(keys@.len(), |i: int| keys@[i]@);
    let ghost total = keys@.len();
    proof {
        assert forall|key: Seq<u8>|
            (exists|k: int| 0 <= k < total && names[k] == key) <==> db@.contains_key(key) by {
            if exists|k: int| 0 <= k < total && names[k] == key {
                let k = choose|k: int| 0 <= k < total && names[k] == key;
                assert(keys@[k]@ == key);
            }
            if db@.contains_key(key) {
                let k = choose|k: int| 0 <= k < keys.len() && keys[k]@ == key;
                assert(names[k] == key);
            }
        }
    }
    let mut taken: Vec<Frame> = Vec::new();
    while keys.len() > 0
        invariant
            keys@.len() + taken@.len() == total,
            names.len() == total,
            forall|i: int, j: int| 0 <= i < j < total ==> names[i] != names[j],
            forall|key: Seq<u8>|
                (exists|k: int| 0 <= k < total && names[k] == key) <==> db@.contains_key(key),
            forall|i: int| 0 <= i < keys@.len() ==> keys@[i]@ == names[i],
            forall|i: int|
                0 <= i < taken@.len() ==> (#[trigger] taken@[i])@ == FrameView::BulkString(
                    names[total - 1 - i],
                ),
        decreases keys.len(),
    {
        let key = keys.pop().unwrap();
        taken.push(Frame::BulkString(key));
    }
    proof {
        lemma_array_view(taken);
        let items = views(taken@);
        assert forall|i: int| 0 <= i < items.len() implies items[i] == FrameView::BulkString(
            names[total - 1 - i],
        ) by {
            assert(items[i] == taken@[i]@);
        }
        assert forall|i: int, j: int| 0 <= i < j < items.len() implies items[i] != items[j] by {
            assert(names[total - 1 - i] != names[total - 1 - j]);
        }
        assert forall|key: Seq<u8>|
            (exists|i: int| 0 <= i < items.len() && items[i] == FrameView::BulkString(key))
                <==> db@.contains_key(key) by {
            if exists|i: int| 0 <= i < items.len() && items[i] == FrameView::BulkString(key) {
                let i = choose|i: int|
                    0 <= i < items.len() && items[i] == FrameView::BulkString(key);
                assert(names[total - 1 - i] == key);
            }
            if db@.contains_key(key) {
                let k = choose|k: int| 0 <= k < total && names[k] == key;
                assert(items[total - 1 - k] == FrameView::BulkString(key));
            }
        }
    }
    Frame::Array(taken)
}

/// The value of the setting that `name` spells, as bytes, where the name is
/// known and the setting has a value.
pub open spec fn setting(config: ConfigView, name: Seq<u8>) -> Option<Seq<u8>> {
    let value = if name == text("dir") {
        config.dir
    } else if name == text("dbfilename") {
        config.dbfilename
    } else {
        None
    };
    match value {
        Some(chars) => Some(wire(chars)),
        None => None,
    }
}

/// The reply to `CONFIG` with the given subcommand and setting name.
pub open spec fn config_reply(config: ConfigView, command: FrameView, key: FrameView) -> Result<
    FrameView,
    CommandError,
> {
    match command {
        FrameView::BulkString(c) => {
            if eq_ignore_case(c, text("GET")) {
                match key {
                    FrameView::BulkString(name) => Ok(
                        match setting(config, name) {
                            Some(v) => FrameView::Array(seq![key, FrameView::BulkString(v)]),
                            None => FrameView::NullBulkString,
                        },
                    ),
                    _ => Err(CommandError::SyntaxError),
                }
            } else {
                Ok(FrameView::NullBulkString)
            }
        },
        _ => Err(CommandError::SyntaxError),
    }
}

/// The reply to `CONFIG`: for `GET` with the name of a setting that has a
/// value, the name and the value; the null bulk string for a name that is
/// not known, a setting without a value, and any other subcommand. A
/// subcommand or a name that is no bulk string is a syntax error.
pub fn handle_config(config: &Config, config_command: Frame, config_key: Frame) -> (r: Result<
    Frame,
    CommandError,
>)
    ensures
        match config_reply(config@, config_command@, config_key@) {
            Ok(f) => r matches Ok(reply) && reply@ == f,
            Err(e) => r matches Err(x) && x == e,
        },
{
    let command = match unpack_bulk_str(config_command) {
        Ok(c) => c,
        Err(_) => {
            return Err(CommandError::SyntaxError);
        },
    };
    if !is_keyword(command.as_slice(), "GET") {
        return Ok(Frame::NullBulkString);
    }
    let name: Vec<u8> = match &config_key {
        Frame::BulkString(b) => b.clone(),
        _ => {
            return Err(CommandError::SyntaxError);
        },
    };
    let ghost spelled = name@;
    proof {
        assert(spelled =~= config_key@->BulkString_0);
        lemma_wire_injective("dir"@, "dbfilename"@);
        lemma_wire_injective("dbfilename"@, "dir"@);
    }
    let value = match text_from_utf8(name) {
        Some(config_key_name) => {
            proof {
                lemma_wire_injective(config_key_name@, "dir"@);
                lemma_wire_injective(config_key_name@, "dbfilename"@);
            }
            config.get(config_key_name)
        },
        None => None,
    };
    match value {
        Some(v) => {
            let mut items: Vec<Frame> = Vec::new();
            let ghost key_view = config_key@;
            items.push(config_key);
            items.push(Frame::BulkString(v.as_str().as_bytes_vec()));
            proof {
                lemma_array_view(items);
                assert(views(items@) =~= seq![key_view, FrameView::BulkString(wire(v@))]);
            }
            Ok(Frame::Array(items))
        },
        None => Ok(Frame::NullBulkString),
    }
}

/// The body of the reply to `INFO`: the role, and for a primary the
/// identifier and the offset of its replication stream, one to a line.
pub open spec fn info_text(repl: ReplicationView) -> Seq<u8> {
    let role_line = text("role:") + wire(role_name(repl.role));
    match (repl.role, repl.master_replid, repl.master_repl_offset) {
        (ReplRole::Master, Some(id), Some(offset)) => role_line + crlf() + text("master_replid:")
            + wire(id) + crlf() + text("master_repl_offset:") + decimal(offset),
        _ => role_line,
    }
}

/// The reply to `INFO`: a bulk string with the role and, for a primary, the
/// identifier and the offset of its replication stream.
pub fn handle_info(replication_config: &ReplicationConfig) -> (reply: Frame)
    ensures
        reply@ == FrameView::BulkString(info_text(replication_config@)),
{
    let mut body: Vec<u8> = text_bytes("role:");
    let role = replication_config.role.to_string();
    push_all(&mut body, role.as_str().as_bytes());
    match (
        replication_config.role,
        &replication_config.master_replid,
        replication_config.master_repl_offset,
    ) {
        (ReplRole::Master, Some(master_replid), Some(master_repl_offset)) => {
            body.push(CR);
            body.push(LF);
            push_all(&mut body, "master_replid:".as_bytes());
            push_all(&mut body, master_replid.as_str().as_bytes());
            body.push(CR);
            body.push(LF);
            push_all(&mut body, "master_repl_offset:".as_bytes());
            push_decimal(&mut body, master_repl_offset as u64);
            assert(body@ =~= info_text(replication_config@));
        },
        _ => {
            assert(body@ =~= info_text(replication_config@));
        },
    }
    Frame::BulkString(body)
}

/// The reply to `REPLCONF` with the given arguments: to `GETACK` the
/// acknowledgement with the replica's offset, in any case; to anything else
/// `OK`, unless replies are held back.
pub open spec fn replconf_reply(repl: ReplicationView, args: Seq<FrameView>, respond: bool) -> Option<
    FrameView,
> {
    if arg_bytes(args, 0) == Some(text("GETACK")) {
        let offset = match repl.slave_repl_offset {
            Some(n) => n,
            None => 0,
        };
        Some(
            FrameView::Array(
                seq![
                    FrameView::BulkString(text("REPLCONF")),
                    FrameView::BulkString(text("ACK")),
                    FrameView::BulkString(decimal(offset)),
                ],
            ),
        )
    } else if respond {
        Some(FrameView::SimpleString(text("OK")))
    } else {
        None
    }
}

/// The reply to `REPLCONF`, if any.
pub fn handle_replconf(repl_conf: &ReplicationConfig, args: &Vec<Frame>, respond: bool) -> (r:
    Option<Frame>)
    ensures
        frame_of(r) == replconf_reply(repl_conf@, views(args@), respond),
{
    let slave_repl_offset: usize = match repl_conf.slave_repl_offset {
        Some(n) => n,
        None => 0,
    };
    let asks_for_ack = match bulk_arg(args, 0) {
        Some(arg) => bytes_eq(arg.as_slice(), "GETACK".as_bytes()),
        None => false,
    };
    if asks_for_ack {
        Some(
            array3(
                bulk("REPLCONF"),
                bulk("ACK"),
                Frame::BulkString(decimal_bytes(slave_repl_offset as u64)),
            ),
        )
    } else if respond {
        Some(simple("OK"))
    } else {
        None
    }
}

/// A snapshot of an empty keyspace, as a primary sends it to a replica that
/// joins.
#[verifier::opaque]
pub open spec fn empty_rdb() -> Seq<u8> {
    seq![
        0x52u8, 0x45u8, 0x44u8, 0x49u8, 0x53u8, 0x30u8, 0x30u8, 0x31u8, 0x31u8, 0xfau8, 0x09u8,
        0x72u8, 0x65u8, 0x64u8, 0x69u8, 0x73u8, 0x2du8, 0x76u8, 0x65u8, 0x72u8, 0x05u8, 0x37u8,
        0x2eu8, 0x32u8, 0x2eu8, 0x30u8, 0xfau8, 0x0au8, 0x72u8, 0x65u8, 0x64u8, 0x69u8, 0x73u8,
        0x2du8, 0x62u8, 0x69u8, 0x74u8, 0x73u8, 0xc0u8, 0x40u8, 0xfau8, 0x05u8, 0x63u8, 0x74u8,
        0x69u8, 0x6du8, 0x65u8, 0xc2u8, 0x6du8, 0x08u8, 0xbcu8, 0x65u8, 0xfau8, 0x08u8, 0x75u8,
        0x73u8, 0x65u8, 0x64u8, 0x2du8, 0x6du8, 0x65u8, 0x6du8, 0xc2u8, 0xb0u8, 0xc4u8, 0x10u8,
        0x00u8, 0xfau8, 0x08u8, 0x61u8, 0x6fu8, 0x66u8, 0x2du8, 0x62u8, 0x61u8, 0x73u8, 0x65u8,
        0xc0u8, 0x00u8, 0xffu8, 0xf0u8, 0x6eu8, 0x3bu8, 0xfeu8, 0xc0u8, 0xffu8, 0x5au8, 0xa2u8,
    ]
}

/// A snapshot of an empty keyspace.
pub fn empty_rdb_bytes() -> (bytes: Vec<u8>)
    ensures
        bytes@ == empty_rdb(),
{
    let bytes: Vec<u8> = vec![
        0x52, 0x45, 0x44, 0x49, 0x53, 0x30, 0x30, 0x31, 0x31, 0xfa, 0x09,
        0x72, 0x65, 0x64, 0x69, 0x73, 0x2d, 0x76, 0x65, 0x72, 0x05, 0x37,
        0x2e, 0x32, 0x2e, 0x30, 0xfa, 0x0a, 0x72, 0x65, 0x64, 0x69, 0x73,
        0x2d, 0x62, 0x69, 0x74, 0x73, 0xc0, 0x40, 0xfa, 0x05, 0x63, 0x74,
        0x69, 0x6d, 0x65, 0xc2, 0x6d, 0x08, 0xbc, 0x65, 0xfa, 0x08, 0x75,
        0x73, 0x65, 0x64, 0x2d, 0x6d, 0x65, 0x6d, 0xc2, 0xb0, 0xc4, 0x10,
        0x00, 0xfa, 0x08, 0x61, 0x6f, 0x66, 0x2d, 0x62, 0x61, 0x73, 0x65,
        0xc0, 0x00, 0xff, 0xf0, 0x6e, 0x3b, 0xfe, 0xc0, 0xff, 0x5a, 0xa2,
    ];
    proof {
        reveal(empty_rdb);
    }
    bytes
}

/// The snapshot of an empty keyspace is 88 bytes long.
pub proof fn lemma_empty_rdb_length()
    ensures
        empty_rdb().len() == 88,
{
    reveal(empty_rdb);
}

/// The two replies to `PSYNC` on a server that has a replication
/// identifier: the announcement of a full resynchronisation from offset
/// zero, and the snapshot to start from.
pub open spec fn psync_reply(repl: ReplicationView) -> Option<(FrameView, FrameView)> {
    match repl.master_replid {
        Some(id) => Some(
            (
                FrameView::SimpleString(text("FULLRESYNC ") + wire(id) + text(" 0")),
                FrameView::SnapshotBlob(empty_rdb()),
            ),
        ),
        None => None,
    }
}

/// The replies to `PSYNC`. A server without a replication identifier, which
/// is a replica, does not know the command.
pub fn handle_psync(repl_conf: &ReplicationConfig) -> (r: Result<(Frame, Frame), CommandError>)
    ensures
        match psync_reply(repl_conf@) {
            Some((announcement, snapshot)) => r matches Ok((a, b)) && a@ == announcement && b@
                == snapshot,
            None => r matches Err(e) && e == CommandError::UnknownCommand,
        },
{
    match &repl_conf.master_replid {
        Some(master_replid) => {
            let mut resp: Vec<u8> = text_bytes("FULLRESYNC ");
            push_all(&mut resp, master_replid.as_str().as_bytes());
            push_all(&mut resp, " 0".as_bytes());
            Ok((Frame::SimpleString(resp), Frame::SnapshotBlob(empty_rdb_bytes())))
        },
        None => Err(CommandError::UnknownCommand),
    }
}

} // verus!
