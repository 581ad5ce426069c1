//! What holds of the server whatever commands arrive: how long a value that
//! was set is read, that a replica ends with the values of its primary, and
//! that it acknowledges the bytes it has taken.

use crate::ascii::{decimal, text, wire};
use crate::db::{lemma_expiry, values_of, written, DbView};
use crate::error::CommandError;
use crate::frame::{crlf, encode, encode_all, FrameView, DOLLAR, PLUS};
use crate::handlers::{
    arg_bytes, command_of, empty_rdb, get_reply, lemma_empty_rdb_length, set_request,
};
use crate::replication::ReplRole;
use crate::server::{
    answer, command_named, outcome_fits, outcome_of, reply_bytes, state_after, Command,
    OutcomeView, ReplyView, ServerView,
};
use vstd::prelude::*;

verus! {

/// The server after it has taken the given frames in order, each at its
/// time and each counted with the bytes it is written as.
pub open spec fn run(s: ServerView, frames: Seq<FrameView>, times: Seq<nat>) -> ServerView
    decreases frames.len(),
{
    if frames.len() == 0 || times.len() == 0 {
        s
    } else {
        run(
            state_after(s, frames[0], encode(frames[0]).len(), times[0]),
            frames.skip(1),
            times.skip(1),
        )
    }
}

/// The frame that the server in state `s` hands to its replicas when it
/// takes `frame`, if any.
pub open spec fn published_by(s: ServerView, frame: FrameView) -> Option<FrameView> {
    match command_of(frame) {
        Ok((name, args)) => outcome_of(s, command_named(name), frame, args, true, 0).publish,
        Err(_) => None,
    }
}

/// The frames that the server hands to its replicas while it takes the
/// given frames in order, each at its time.
pub open spec fn published(s: ServerView, frames: Seq<FrameView>, times: Seq<nat>) -> Seq<
    FrameView,
>
    decreases frames.len(),
{
    if frames.len() == 0 || times.len() == 0 {
        Seq::empty()
    } else {
        let first = match published_by(s, frames[0]) {
            Some(f) => seq![f],
            None => Seq::empty(),
        };
        first + published(
            state_after(s, frames[0], encode(frames[0]).len(), times[0]),
            frames.skip(1),
            times.skip(1),
        )
    }
}

/// The frame is a `SET` command, whatever its arguments.
pub open spec fn is_set(frame: FrameView) -> bool {
    command_of(frame) matches Ok((name, _)) && command_named(name) == Command::SetValue
}

/// The frame is a `SET` command that asks to write `value` under `key`, to
/// live for `expires` milliseconds or, where that is zero, for ever.
pub open spec fn sets(frame: FrameView, key: Seq<u8>, value: Seq<u8>, expires: nat) -> bool {
    is_set(frame) && set_request(command_of(frame)->Ok_0.1) == Some((key, value, expires))
}

/// After a `SET` of a key at the time `at`, a `GET` of that key at any later
/// time `now` is answered with the value up to `expires` milliseconds after
/// the `SET`, and with the null bulk string at every time after that. A
/// value that was set without a time to live is read at any later time.
pub proof fn lemma_set_then_get(
    s: ServerView,
    set: FrameView,
    key: Seq<u8>,
    value: Seq<u8>,
    expires: nat,
    at: nat,
    now: nat,
)
    requires
        sets(set, key, value, expires),
        at <= now,
    ensures
        get_reply(
            state_after(s, set, encode(set).len(), at).db,
            FrameView::BulkString(key),
            now,
        ) == Ok::<FrameView, CommandError>(
            if expires == 0 || now - at <= expires {
                FrameView::BulkString(value)
            } else {
                FrameView::NullBulkString
            },
        ),
{
    lemma_expiry(s.db, key, value, expires, at, now);
}

/// Writing a value changes the values of the keyspace at that key only.
pub proof fn lemma_values_written(db: DbView, key: Seq<u8>, value: Seq<u8>, expires: nat, now: nat)
    ensures
        values_of(written(db, key, value, expires, now)) == values_of(db).insert(key, value),
{
}

/// A primary and a replica that hold the same values hold the same values
/// again after the primary has taken any `SET` commands, each at any time,
/// and the replica has taken what the primary published, each frame at any
/// time of its own.
pub proof fn lemma_replication_converges(
    primary: ServerView,
    replica: ServerView,
    commands: Seq<FrameView>,
    taken_at: Seq<nat>,
    applied_at: Seq<nat>,
)
    requires
        primary.replication.role == ReplRole::Master,
        values_of(primary.db) == values_of(replica.db),
        forall|i: int| 0 <= i < commands.len() ==> is_set(#[trigger] commands[i]),
        taken_at.len() == commands.len(),
        applied_at.len() == published(primary, commands, taken_at).len(),
    ensures
        values_of(run(primary, commands, taken_at).db) == values_of(
            run(replica, published(primary, commands, taken_at), applied_at).db,
        ),
    decreases commands.len(),
{
    if commands.len() > 0 {
        let first = commands[0];
        let (name, args) = command_of(first)->Ok_0;
        let next_primary = state_after(primary, first, encode(first).len(), taken_at[0]);
        let later = published(next_primary, commands.skip(1), taken_at.skip(1));
        match set_request(args) {
            Some((key, value, expires)) => {
                let out = published(primary, commands, taken_at);
                assert(out.skip(1) =~= later);
                let next_replica = state_after(replica, first, encode(first).len(), applied_at[0]);
                lemma_values_written(primary.db, key, value, expires, taken_at[0]);
                lemma_values_written(replica.db, key, value, expires, applied_at[0]);
                lemma_replication_converges(
                    next_primary,
                    next_replica,
                    commands.skip(1),
                    taken_at.skip(1),
                    applied_at.skip(1),
                );
            },
            None => {
                lemma_replication_converges(
                    next_primary,
                    replica,
                    commands.skip(1),
                    taken_at.skip(1),
                    applied_at,
                );
            },
        }
    }
}

/// The frame is a command, whatever its name and arguments.
pub open spec fn is_command(frame: FrameView) -> bool {
    command_of(frame) is Ok
}

/// A replica that has taken commands from its primary has counted the bytes
/// that they are written as.
pub proof fn lemma_offset_counts_bytes(s: ServerView, commands: Seq<FrameView>, times: Seq<nat>)
    requires
        s.replication.role == ReplRole::Slave,
        s.replication.slave_repl_offset is Some,
        forall|i: int| 0 <= i < commands.len() ==> is_command(#[trigger] commands[i]),
        times.len() == commands.len(),
        s.replication.slave_repl_offset->0 + encode_all(commands).len() <= usize::MAX,
    ensures
        run(s, commands, times).replication.role == ReplRole::Slave,
        run(s, commands, times).replication.slave_repl_offset == Some(
            s.replication.slave_repl_offset->0 + encode_all(commands).len(),
        ),
    decreases commands.len(),
{
    if commands.len() > 0 {
        let first = commands[0];
        let next = state_after(s, first, encode(first).len(), times[0]);
        lemma_offset_counts_bytes(next, commands.skip(1), times.skip(1));
    }
}

/// The request of a primary for an acknowledgement: `REPLCONF GETACK *`.
pub open spec fn getack() -> FrameView {
    FrameView::Array(
        seq![
            FrameView::BulkString(text("REPLCONF")),
            FrameView::BulkString(text("GETACK")),
            FrameView::BulkString(text("*")),
        ],
    )
}

/// The acknowledgement of `offset` bytes: `REPLCONF ACK offset`.
pub open spec fn acknowledgement(offset: nat) -> FrameView {
    FrameView::Array(
        seq![
            FrameView::BulkString(text("REPLCONF")),
            FrameView::BulkString(text("ACK")),
            FrameView::BulkString(decimal(offset)),
        ],
    )
}

/// The length of a keyword that is written in ASCII is the number of its
/// letters.
proof fn lemma_keyword_lengths()
    ensures
        text("PING").len() == 4,
        text("ECHO").len() == 4,
        text("SET").len() == 3,
        text("GET").len() == 3,
        text("CONFIG").len() == 6,
        text("KEYS").len() == 4,
        text("INFO").len() == 4,
        text("REPLCONF").len() == 8,
{
    reveal_strlit("PING");
    reveal_strlit("ECHO");
    reveal_strlit("SET");
    reveal_strlit("GET");
    reveal_strlit("CONFIG");
    reveal_strlit("KEYS");
    reveal_strlit("INFO");
    reveal_strlit("REPLCONF");
    vstd::utf8::is_ascii_chars_encode_utf8("PING"@);
    vstd::utf8::is_ascii_chars_encode_utf8("ECHO"@);
    vstd::utf8::is_ascii_chars_encode_utf8("SET"@);
    vstd::utf8::is_ascii_chars_encode_utf8("GET"@);
    vstd::utf8::is_ascii_chars_encode_utf8("CONFIG"@);
    vstd::utf8::is_ascii_chars_encode_utf8("KEYS"@);
    vstd::utf8::is_ascii_chars_encode_utf8("INFO"@);
    vstd::utf8::is_ascii_chars_encode_utf8("REPLCONF"@);
}

/// A replica that has taken commands from its primary since its offset was
/// zero answers a request for an acknowledgement with the number of bytes
/// that those commands are written as, and with nothing else, whether or
/// not replies are held back.
pub proof fn lemma_offset_accounting(
    replica: ServerView,
    commands: Seq<FrameView>,
    times: Seq<nat>,
    respond: bool,
    now: nat,
    out: OutcomeView,
)
    requires
        replica.replication.role == ReplRole::Slave,
        replica.replication.slave_repl_offset == Some(0nat),
        forall|i: int| 0 <= i < commands.len() ==> is_command(#[trigger] commands[i]),
        times.len() == commands.len(),
        encode_all(commands).len() <= usize::MAX,
    ensures
        outcome_fits(run(replica, commands, times), getack(), respond, now, out) <==> out
            == answer(seq![ReplyView::Frame(acknowledgement(encode_all(commands).len()))]),
{
    lemma_offset_counts_bytes(replica, commands, times);
    lemma_keyword_lengths();
    let name = text("REPLCONF");
    assert(command_named(name) == Command::Replconf);
    let args = getack()->Array_0.skip(1);
    assert(command_of(getack()) == Ok::<(Seq<u8>, Seq<FrameView>), CommandError>((name, args)));
    assert(arg_bytes(args, 0) == Some(text("GETACK")));
}

/// The frame is a `PSYNC` command, whatever its arguments.
pub open spec fn is_psync(frame: FrameView) -> bool {
    command_of(frame) matches Ok((name, _)) && command_named(name) == Command::Psync
}

/// A server with the replication identifier `id` answers `PSYNC` with the
/// announcement of a full resynchronisation from offset zero, then the
/// length line of a snapshot of 88 bytes, then those 88 bytes and no CRLF
/// after them; and the peer is a replica from then on.
pub proof fn lemma_psync_reply(
    s: ServerView,
    frame: FrameView,
    id: Seq<char>,
    respond: bool,
    now: nat,
    out: OutcomeView,
)
    requires
        is_psync(frame),
        s.replication.master_replid == Some(id),
        outcome_fits(s, frame, respond, now, out),
    ensures
        out.replies.len() == 2,
        reply_bytes(out.replies[0]) + reply_bytes(out.replies[1]) == seq![PLUS] + text(
            "FULLRESYNC ",
        ) + wire(id) + text(" 0") + crlf() + seq![DOLLAR] + decimal(88) + crlf() + empty_rdb(),
        decimal(88) == seq![56u8, 56u8],
        empty_rdb().len() == 88,
        out.subscribe,
        !out.close,
        out.publish is None,
{
    lemma_empty_rdb_length();
    reveal_with_fuel(decimal, 2);
    assert(decimal(88) =~= seq![56u8, 56u8]);
    let announcement = seq![PLUS] + (text("FULLRESYNC ") + wire(id) + text(" 0")) + crlf();
    let snapshot = seq![DOLLAR] + decimal(88) + crlf() + empty_rdb();
    assert(reply_bytes(out.replies[0]) == announcement);
    assert(reply_bytes(out.replies[1]) == snapshot);
    assert(announcement + snapshot =~= seq![PLUS] + text("FULLRESYNC ") + wire(id) + text(" 0")
        + crlf() + seq![DOLLAR] + decimal(88) + crlf() + empty_rdb());
}

} // verus!
