//! The server: its state, and what it does with each frame that a
//! connection hands it.

use crate::ascii::{eq_ignore_case, is_keyword, text, text_bytes};
use crate::clock::Clock;
use crate::config::{text_of, Config, ConfigView};
use crate::db::{written, Db, DbView};
use crate::error::{CommandError, SnapshotError};
use crate::frame::{crlf, encode, Frame, FrameView, CR, LF};
use crate::handlers::{
    command_of, config_reply, extract_command, frame_of, get_reply, handle_config,
    handle_echo, handle_get, handle_info, handle_keys, handle_ping, handle_psync, handle_replconf,
    handle_set, info_text, lists_keys, psync_reply, replconf_reply, set_request,
};
use crate::handshake::{advance, next, received_view, Handshake, HandshakeStep};
use crate::rdb::{contents_view, parse_rdb_file, restored};
use crate::replication::{initial, ReplRole, ReplicationConfig, ReplicationView};
use vstd::prelude::*;

verus! {

/// One thing to write to the peer.
#[derive(Debug, PartialEq, Eq)]
pub enum Reply {
    /// A frame.
    Frame(Frame),
    /// The error line for a command whose arguments have the wrong shape.
    SyntaxError,
    /// The error line for a command that the server does not know.
    UnknownCommand,
}

/// Mathematical model of a reply.
pub enum ReplyView {
    Frame(FrameView),
    SyntaxError,
    UnknownCommand,
}

impl View for Reply {
    type V = ReplyView;

    open spec fn view(&self) -> ReplyView {
        match self {
            Reply::Frame(f) => ReplyView::Frame(f@),
            Reply::SyntaxError => ReplyView::SyntaxError,
            Reply::UnknownCommand => ReplyView::UnknownCommand,
        }
    }
}

/// The bytes that a reply is written as.
pub open spec fn reply_bytes(reply: ReplyView) -> Seq<u8> {
    match reply {
        ReplyView::Frame(f) => encode(f),
        ReplyView::SyntaxError => text("-ERR syntax") + crlf(),
        ReplyView::UnknownCommand => text("-ERR unknown command") + crlf(),
    }
}

impl Reply {
    /// The bytes that this reply is written as.
    pub fn serialize(self) -> (out: Vec<u8>)
        ensures
            out@ == reply_bytes(self@),
    {
        match self {
            Reply::Frame(f) => f.serialize(),
            Reply::SyntaxError => {
                let mut out = text_bytes("-ERR syntax");
                out.push(CR);
                out.push(LF);
                out
            },
            Reply::UnknownCommand => {
                let mut out = text_bytes("-ERR unknown command");
                out.push(CR);
                out.push(LF);
                out
            },
        }
    }
}

/// What the connection is to do after the server has taken a frame.
#[derive(Debug, PartialEq, Eq)]
pub struct Outcome {
    /// What to write to the peer, in this order.
    pub replies: Vec<Reply>,
    /// The frame to hand to every replica, if any.
    pub publish: Option<Frame>,
    /// Whether the peer is a replica from now on: the connection stops
    /// reading commands and forwards what the server publishes.
    pub subscribe: bool,
    /// Whether the connection is to end.
    pub close: bool,
}

/// Mathematical model of an outcome.
pub struct OutcomeView {
    pub replies: Seq<ReplyView>,
    pub publish: Option<FrameView>,
    pub subscribe: bool,
    pub close: bool,
}

impl View for Outcome {
    type V = OutcomeView;

    open spec fn view(&self) -> OutcomeView {
        OutcomeView {
            replies: Seq::new(self.replies@.len(), |i: int| self.replies@[i]@),
            publish: frame_of(self.publish),
            subscribe: self.subscribe,
            close: self.close,
        }
    }
}

/// The outcome that writes the given replies and does nothing else.
pub open spec fn answer(replies: Seq<ReplyView>) -> OutcomeView {
    OutcomeView { replies, publish: None, subscribe: false, close: false }
}

/// The outcome that writes the frame, where there is one, and does nothing
/// else.
pub open spec fn answer_with(frame: Option<FrameView>) -> OutcomeView {
    match frame {
        Some(f) => answer(seq![ReplyView::Frame(f)]),
        None => answer(Seq::empty()),
    }
}

/// The outcome of a command that is refused: a protocol error ends the
/// connection; the other errors are reported to the peer, unless replies
/// are held back, and the connection goes on.
pub open spec fn refusal(e: CommandError, respond: bool) -> OutcomeView {
    match e {
        CommandError::ProtocolError => OutcomeView {
            replies: Seq::empty(),
            publish: None,
            subscribe: false,
            close: true,
        },
        CommandError::SyntaxError => answer(
            if respond {
                seq![ReplyView::SyntaxError]
            } else {
                Seq::empty()
            },
        ),
        CommandError::UnknownCommand => answer(
            if respond {
                seq![ReplyView::UnknownCommand]
            } else {
                Seq::empty()
            },
        ),
    }
}

/// The commands that the server knows.
#[derive(Clone, Copy, Debug, PartialEq, Eq, Structural)]
pub enum Command {
    Ping,
    Echo,
    SetValue,
    GetValue,
    Config,
    Keys,
    Info,
    Replconf,
    Psync,
    Unknown,
}

/// The command that a name stands for, whatever the case of its letters.
pub open spec fn command_named(name: Seq<u8>) -> Command {
    if eq_ignore_case(name, text("PING")) {
        Command::Ping
    } else if eq_ignore_case(name, text("ECHO")) {
        Command::Echo
    } else if eq_ignore_case(name, text("SET")) {
        Command::SetValue
    } else if eq_ignore_case(name, text("GET")) {
        Command::GetValue
    } else if eq_ignore_case(name, text("CONFIG")) {
        Command::Config
    } else if eq_ignore_case(name, text("KEYS")) {
        Command::Keys
    } else if eq_ignore_case(name, text("INFO")) {
        Command::Info
    } else if eq_ignore_case(name, text("REPLCONF")) {
        Command::Replconf
    } else if eq_ignore_case(name, text("PSYNC")) {
        Command::Psync
    } else {
        Command::Unknown
    }
}

/// The command that a name stands for, whatever the case of its letters.
pub fn classify(name: &[u8]) -> (command: Command)
    ensures
        command == command_named(name@),
{
    if is_keyword(name, "PING") {
        Command::Ping
    } else if is_keyword(name, "ECHO") {
        Command::Echo
    } else if is_keyword(name, "SET") {
        Command::SetValue
    } else if is_keyword(name, "GET") {
        Command::GetValue
    } else if is_keyword(name, "CONFIG") {
        Command::Config
    } else if is_keyword(name, "KEYS") {
        Command::Keys
    } else if is_keyword(name, "INFO") {
        Command::Info
    } else if is_keyword(name, "REPLCONF") {
        Command::Replconf
    } else if is_keyword(name, "PSYNC") {
        Command::Psync
    } else {
        Command::Unknown
    }
}

/// Mathematical model of the server: its configuration, its replication
/// state and its keyspace.
pub struct ServerView {
    pub config: ConfigView,
    pub replication: ReplicationView,
    pub db: DbView,
}

/// The replication state after a replica has taken `consumed` more bytes of
/// commands from its primary. A primary counts nothing. The counter stops at
/// the largest number it can hold.
pub open spec fn counted(repl: ReplicationView, consumed: nat) -> ReplicationView {
    if repl.role == ReplRole::Slave {
        let before = match repl.slave_repl_offset {
            Some(n) => n,
            None => 0,
        };
        let sum = before + consumed;
        ReplicationView {
            slave_repl_offset: Some(
                if sum > usize::MAX {
                    usize::MAX as nat
                } else {
                    sum
                },
            ),
            ..repl
        }
    } else {
        repl
    }
}

/// The keyspace after the command was carried out at the time `now`. Only a
/// `SET` whose arguments have the right shape changes it.
pub open spec fn db_after(db: DbView, command: Command, args: Seq<FrameView>, now: nat) -> DbView {
    match (command, set_request(args)) {
        (Command::SetValue, Some((key, value, expires))) => written(db, key, value, expires, now),
        _ => db,
    }
}

/// The server after it has taken `frame`, `consumed` bytes long, at the time
/// `now`. A snapshot blob and a frame that is no command change nothing;
/// every command is counted by a replica, and a `SET` is carried out.
pub open spec fn state_after(s: ServerView, frame: FrameView, consumed: nat, now: nat) -> ServerView {
    if frame is SnapshotBlob {
        s
    } else {
        match command_of(frame) {
            Err(_) => s,
            Ok((name, args)) => ServerView {
                config: s.config,
                replication: counted(s.replication, consumed),
                db: db_after(s.db, command_named(name), args, now),
            },
        }
    }
}

/// What the connection is to do after the server in state `s` has taken the
/// command `command` with the arguments `args`, which came as `frame`. The
/// reply to `KEYS` is not given here, since the order of the keys is open:
/// see `outcome_fits`.
pub open spec fn outcome_of(
    s: ServerView,
    command: Command,
    frame: FrameView,
    args: Seq<FrameView>,
    respond: bool,
    now: nat,
) -> OutcomeView {
    match command {
        Command::Ping => answer_with(
            if respond {
                Some(FrameView::SimpleString(text("PONG")))
            } else {
                None
            },
        ),
        Command::Echo => if args.len() > 0 {
            answer_with(Some(args[0]))
        } else {
            refusal(CommandError::SyntaxError, respond)
        },
        Command::SetValue => match set_request(args) {
            Some(_) => OutcomeView {
                replies: if respond {
                    seq![ReplyView::Frame(FrameView::SimpleString(text("OK")))]
                } else {
                    Seq::empty()
                },
                publish: if s.replication.role == ReplRole::Master {
                    Some(frame)
                } else {
                    None
                },
                subscribe: false,
                close: false,
            },
            None => refusal(CommandError::SyntaxError, respond),
        },
        Command::GetValue => if args.len() > 0 {
            match get_reply(s.db, args[0], now) {
                Ok(f) => answer_with(Some(f)),
                Err(e) => refusal(e, respond),
            }
        } else {
            refusal(CommandError::SyntaxError, respond)
        },
        Command::Config => if args.len() > 1 {
            match config_reply(s.config, args[0], args[1]) {
                Ok(f) => answer_with(Some(f)),
                Err(e) => refusal(e, respond),
            }
        } else {
            refusal(CommandError::SyntaxError, respond)
        },
        Command::Keys => answer(Seq::empty()),
        Command::Info => answer_with(Some(FrameView::BulkString(info_text(s.replication)))),
        Command::Replconf => answer_with(replconf_reply(s.replication, args, respond)),
        Command::Psync => match psync_reply(s.replication) {
            Some((announcement, snapshot)) => OutcomeView {
                replies: seq![ReplyView::Frame(announcement), ReplyView::Frame(snapshot)],
                publish: None,
                subscribe: true,
                close: false,
            },
            None => refusal(CommandError::UnknownCommand, respond),
        },
        Command::Unknown => refusal(CommandError::UnknownCommand, respond),
    }
}

/// `out` is what the connection is to do after the server in state `s` has
/// taken `frame` at the time `now`: nothing for a snapshot blob; to end for a
/// frame that is no command; for `KEYS` to write one frame that lists the
/// keys; for every other command what `outcome_of` says.
pub open spec fn outcome_fits(
    s: ServerView,
    frame: FrameView,
    respond: bool,
    now: nat,
    out: OutcomeView,
) -> bool {
    if frame is SnapshotBlob {
        out == answer(Seq::empty())
    } else {
        match command_of(frame) {
            Err(e) => out == refusal(e, respond),
            Ok((name, args)) => {
                if command_named(name) == Command::Keys {
                    exists|listing: FrameView|
                        lists_keys(listing, s.db) && out == answer(
                            seq![ReplyView::Frame(listing)],
                        )
                } else {
                    out == outcome_of(s, command_named(name), frame, args, respond, now)
                }
            },
        }
    }
}

/// The outcome that writes the frame, where there is one, and does nothing
/// else.
pub fn reply_with(frame: Option<Frame>) -> (out: Outcome)
    ensures
        out@ == answer_with(frame_of(frame)),
{
    let mut replies: Vec<Reply> = Vec::new();
    match frame {
        Some(f) => {
            replies.push(Reply::Frame(f));
        },
        None => {},
    }
    let out = Outcome { replies, publish: None, subscribe: false, close: false };
    assert(out@.replies =~= answer_with(frame_of(frame)).replies);
    out
}

/// The outcome of a command that is refused.
pub fn refuse(e: CommandError, respond: bool) -> (out: Outcome)
    ensures
        out@ == refusal(e, respond),
{
    let mut replies: Vec<Reply> = Vec::new();
    let mut close: bool = false;
    match e {
        CommandError::ProtocolError => {
            close = true;
        },
        CommandError::SyntaxError => {
            if respond {
                replies.push(Reply::SyntaxError);
            }
        },
        CommandError::UnknownCommand => {
            if respond {
                replies.push(Reply::UnknownCommand);
            }
        },
    }
    let out = Outcome { replies, publish: None, subscribe: false, close };
    assert(out@.replies =~= refusal(e, respond).replies);
    out
}

/// What a replica is to do after it has taken one frame from its primary.
#[derive(Debug, PartialEq, Eq)]
pub struct MasterStep {
    /// Where the handshake stands after the frame.
    pub state: Handshake,
    /// The frame to send to the primary for the handshake, if any.
    pub send: Option<Frame>,
    /// What else the link is to do: the replies to write, and whether to
    /// end.
    pub outcome: Outcome,
}

/// Mathematical model of a step on the link from the primary.
pub struct MasterStepView {
    pub state: Handshake,
    pub send: Option<FrameView>,
    pub outcome: OutcomeView,
}

impl View for MasterStep {
    type V = MasterStepView;

    open spec fn view(&self) -> MasterStepView {
        MasterStepView { state: self.state, send: frame_of(self.send), outcome: self.outcome@ }
    }
}

/// The server of a replica after it has taken `frame` from its primary while
/// the handshake stood at `state`. Until the handshake is done, what the
/// primary sends belongs to the handshake: the server does not change, and
/// nothing is counted into the replica's offset. After it, every frame is
/// taken as a command.
pub open spec fn master_state_after(
    s: ServerView,
    state: Handshake,
    frame: FrameView,
    consumed: nat,
    now: nat,
) -> ServerView {
    if state == Handshake::Done {
        state_after(s, frame, consumed, now)
    } else {
        s
    }
}

/// `step` is what a replica in state `s` is to do after it has taken `frame`
/// from its primary while the handshake stood at `state`. Until the
/// handshake is done, it is the next step of the handshake and nothing else.
/// After it, the handshake stays done, nothing is sent for it, and the
/// outcome is that of the command with replies held back.
pub open spec fn master_step_fits(
    s: ServerView,
    state: Handshake,
    frame: FrameView,
    now: nat,
    step: MasterStepView,
) -> bool {
    if state == Handshake::Done {
        &&& step.state == Handshake::Done
        &&& step.send is None
        &&& outcome_fits(s, frame, false, now, step.outcome)
    } else {
        &&& (step.state, step.send) == next(s.config.port, state, Some(frame))
        &&& step.outcome == answer(Seq::empty())
    }
}

/// The server: configuration, replication state, keyspace and clock.
pub struct RedisServer {
    /// The replication state.
    pub replication: ReplicationConfig,
    config: Config,
    db: Db,
    clock: Clock,
}

impl View for RedisServer {
    type V = ServerView;

    closed spec fn view(&self) -> ServerView {
        ServerView { config: self.config@, replication: self.replication@, db: self.db@ }
    }
}

impl RedisServer {
    /// The keyspace holds each key once.
    pub closed spec fn wf(&self) -> bool {
        self.db.wf()
    }

    /// The time that the server's clock showed when it was last read.
    pub closed spec fn time(&self) -> nat {
        self.clock.latest()
    }

    /// A server with the given configuration and keyspace, in the role that
    /// the configuration asks for. Its clock starts now, at zero.
    pub fn new(config: Config, db: Db) -> (server: RedisServer)
        requires
            db.wf(),
        ensures
            server.wf(),
            server.time() == 0,
            server@ == (ServerView {
                config: config@,
                replication: initial(config@),
                db: db@,
            }),
    {
        RedisServer {
            replication: ReplicationConfig::from_config(&config),
            config,
            db,
            clock: Clock::start(),
        }
    }

    /// Whether the server is a primary.
    pub fn is_master(&self) -> (r: bool)
        ensures
            r == (self@.replication.role == ReplRole::Master),
    {
        self.replication.role == ReplRole::Master
    }

    /// The port that the server is to listen on.
    pub fn port(&self) -> (port: usize)
        ensures
            port == self@.config.port,
    {
        self.config.port
    }

    /// The address of the primary to follow, as `host:port`; none on a
    /// primary.
    pub fn master_address(&self) -> (address: Option<String>)
        ensures
            text_of(address) == self@.config.replicaof,
    {
        match &self.config.replicaof {
            Some(address) => Some(address.clone()),
            None => None,
        }
    }

    /// The directory and the name of the snapshot file, where both are
    /// configured.
    pub fn snapshot_location(&self) -> (location: Option<(String, String)>)
        ensures
            match (self@.config.dir, self@.config.dbfilename) {
                (Some(dir), Some(name)) => location matches Some((d, n)) && d@ == dir && n@
                    == name,
                _ => location is None,
            },
    {
        match (&self.config.dir, &self.config.dbfilename) {
            (Some(dir), Some(dbfilename)) => Some((dir.clone(), dbfilename.clone())),
            _ => None,
        }
    }

    /// Puts the entries of the snapshot file whose contents are given in
    /// place of the keyspace, each entry written at the time `now`. Without a
    /// file the keyspace is left without keys. A snapshot that cannot be read
    /// changes nothing.
    pub fn load_rdb_at(&mut self, contents: Option<&[u8]>, now: u64) -> (r: Result<
        (),
        SnapshotError,
    >)
        requires
            old(self).wf(),
        ensures
            final(self).wf(),
            final(self).time() == old(self).time(),
            match restored(contents_view(contents), now as nat) {
                Ok(db) => r is Ok && final(self)@ == (ServerView { db, ..old(self)@ }),
                Err(e) => r matches Err(x) && x == e && final(self)@ == old(self)@,
            },
    {
        match parse_rdb_file(contents, now) {
            Ok(db) => {
                self.db = db;
                Ok(())
            },
            Err(e) => Err(e),
        }
    }

    /// Puts the entries of the snapshot file whose contents are given in
    /// place of the keyspace, at the present time of the server's clock. See
    /// `load_rdb_at`.
    pub fn load_rdb(&mut self, contents: Option<&[u8]>) -> (r: Result<(), SnapshotError>)
        requires
            old(self).wf(),
        ensures
            final(self).wf(),
            old(self).time() <= final(self).time(),
            match restored(contents_view(contents), final(self).time()) {
                Ok(db) => r is Ok && final(self)@ == (ServerView { db, ..old(self)@ }),
                Err(e) => r matches Err(x) && x == e && final(self)@ == old(self)@,
            },
    {
        let now = self.clock.now();
        self.load_rdb_at(contents, now)
    }

    /// One step of the handshake with the primary: takes the state so far
    /// and the frame that the primary sent, and gives the state after the
    /// step and the frame to send. The first step takes no frame.
    pub fn handshake_master(&self, state: Handshake, received: Option<&Frame>) -> (step:
        HandshakeStep)
        ensures
            (step.state, frame_of(step.send)) == next(
                self@.config.port,
                state,
                received_view(received),
            ),
    {
        advance(self.config.port, state, received)
    }

    /// Takes one frame that the primary has sent, `consumed_bytes` long,
    /// while the handshake stands at `state`, at the time `now` of the
    /// server's clock. Until the handshake is done the frame is a step of
    /// the handshake; after it the frame is a command, carried out with
    /// replies held back.
    pub fn process_master_frame_at(
        &mut self,
        state: Handshake,
        frame: Frame,
        consumed_bytes: usize,
        now: u64,
    ) -> (step: MasterStep)
        requires
            old(self).wf(),
        ensures
            final(self).wf(),
            final(self).time() == old(self).time(),
            final(self)@ == master_state_after(
                old(self)@,
                state,
                frame@,
                consumed_bytes as nat,
                now as nat,
            ),
            master_step_fits(old(self)@, state, frame@, now as nat, step@),
    {
        if state == Handshake::Done {
            let outcome = self.process_frame_at(frame, consumed_bytes, false, now);
            MasterStep { state: Handshake::Done, send: None, outcome }
        } else {
            let next = advance(self.config.port, state, Some(&frame));
            MasterStep { state: next.state, send: next.send, outcome: reply_with(None) }
        }
    }

    /// Takes one frame that the primary has sent, at the present time of the
    /// server's clock, which is read only once the handshake is done. See
    /// `process_master_frame_at`.
    pub fn process_master_frame(
        &mut self,
        state: Handshake,
        frame: Frame,
        consumed_bytes: usize,
    ) -> (step: MasterStep)
        requires
            old(self).wf(),
        ensures
            final(self).wf(),
            old(self).time() <= final(self).time(),
            final(self)@ == master_state_after(
                old(self)@,
                state,
                frame@,
                consumed_bytes as nat,
                final(self).time(),
            ),
            master_step_fits(old(self)@, state, frame@, final(self).time(), step@),
    {
        if state == Handshake::Done {
            let outcome = self.process_frame(frame, consumed_bytes, false);
            MasterStep { state: Handshake::Done, send: None, outcome }
        } else {
            let next = advance(self.config.port, state, Some(&frame));
            MasterStep { state: next.state, send: next.send, outcome: reply_with(None) }
        }
    }

    /// Takes one frame that a connection has read, `consumed_bytes` long, at
    /// the time `now` of the server's clock, and says what the connection is
    /// to do. `respond` is false on the link from the primary, where replies
    /// are held back.
    pub fn process_frame_at(
        &mut self,
        frame: Frame,
        consumed_bytes: usize,
        respond: bool,
        now: u64,
    ) -> (out: Outcome)
        requires
            old(self).wf(),
        ensures
            final(self).wf(),
            final(self).time() == old(self).time(),
            final(self)@ == state_after(old(self)@, frame@, consumed_bytes as nat, now as nat),
            outcome_fits(old(self)@, frame@, respond, now as nat, out@),
    {
        if matches!(frame, Frame::SnapshotBlob(_)) {
            return reply_with(None);
        }
        let (command, args) = match extract_command(frame.clone()) {
            Ok(parts) => parts,
            Err(e) => {
                return refuse(e, respond);
            },
        };
        let kind = classify(command.as_slice());
        let out = match kind {
            Command::Ping => reply_with(handle_ping(respond)),
            Command::Echo => {
                if args.len() > 0 {
                    reply_with(Some(handle_echo(args[0].clone())))
                } else {
                    refuse(CommandError::SyntaxError, respond)
                }
            },
            Command::SetValue => {
                let primary = self.is_master();
                match handle_set(&mut self.db, frame.clone(), respond, now) {
                    Ok(reply) => {
                        let written = reply_with(reply);
                        let out = Outcome {
                            replies: written.replies,
                            publish: if primary {
                                Some(frame)
                            } else {
                                None
                            },
                            subscribe: false,
                            close: false,
                        };
                        out
                    },
                    Err(e) => refuse(e, respond),
                }
            },
            Command::GetValue => {
                if args.len() > 0 {
                    match handle_get(&self.db, args[0].clone(), now) {
                        Ok(reply) => reply_with(Some(reply)),
                        Err(e) => refuse(e, respond),
                    }
                } else {
                    refuse(CommandError::SyntaxError, respond)
                }
            },
            Command::Config => {
                if args.len() > 1 {
                    match handle_config(&self.config, args[0].clone(), args[1].clone()) {
                        Ok(reply) => reply_with(Some(reply)),
                        Err(e) => refuse(e, respond),
                    }
                } else {
                    refuse(CommandError::SyntaxError, respond)
                }
            },
            Command::Keys => {
                let listing = handle_keys(&self.db);
                let out = reply_with(Some(listing));
                out
            },
            Command::Info => reply_with(Some(handle_info(&self.replication))),
            Command::Replconf => reply_with(handle_replconf(&self.replication, &args, respond)),
            Command::Psync => {
                match handle_psync(&self.replication) {
                    Ok((announcement, snapshot)) => {
                        let mut replies: Vec<Reply> = Vec::new();
                        let ghost a = announcement@;
                        let ghost b = snapshot@;
                        replies.push(Reply::Frame(announcement));
                        replies.push(Reply::Frame(snapshot));
                        let out = Outcome { replies, publish: None, subscribe: true, close: false };
                        assert(out@.replies =~= seq![ReplyView::Frame(a), ReplyView::Frame(b)]);
                        out
                    },
                    Err(e) => refuse(e, respond),
                }
            },
            Command::Unknown => refuse(CommandError::UnknownCommand, respond),
        };
        if self.replication.role == ReplRole::Slave {
            let before: usize = match self.replication.slave_repl_offset {
                Some(n) => n,
                None => 0,
            };
            self.replication.slave_repl_offset = Some(before.saturating_add(consumed_bytes));
        }
        out
    }

    /// Takes one frame that a connection has read, at the present time of
    /// the server's clock, which is no earlier than the clock showed before.
    /// See `process_frame_at`.
    pub fn process_frame(&mut self, frame: Frame, consumed_bytes: usize, respond: bool) -> (out:
        Outcome)
        requires
            old(self).wf(),
        ensures
            final(self).wf(),
            old(self).time() <= final(self).time(),
            final(self)@ == state_after(
                old(self)@,
                frame@,
                consumed_bytes as nat,
                final(self).time(),
            ),
            outcome_fits(old(self)@, frame@, respond, final(self).time(), out@),
    {
        let now = self.clock.now();
        self.process_frame_at(frame, consumed_bytes, respond, now)
    }
}

} // verus!
