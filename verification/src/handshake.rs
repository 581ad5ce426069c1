//! The handshake of a replica with its primary, as a state machine: each
//! step takes what the primary sent and says what to send next.

use crate::ascii::{bytes_eq, decimal, decimal_bytes, text};
use crate::frame::{lemma_array_view, views, Frame, FrameView};
use crate::handlers::{array3, bulk, frame_of};
use vstd::prelude::*;
use vstd::slice::slice_subrange;

verus! {

/// Where a replica stands in the handshake with its primary.
#[derive(Clone, Copy, Debug, PartialEq, Eq, Structural)]
pub enum Handshake {
    /// Nothing has been sent.
    Start,
    /// `PING` is out; `PONG` is awaited.
    SentPing,
    /// `REPLCONF listening-port` is out; `OK` is awaited.
    SentListeningPort,
    /// `REPLCONF capa` is out; `OK` is awaited.
    SentCapabilities,
    /// `PSYNC` is out; the announcement of the resynchronisation is awaited.
    SentPsync,
    /// The announcement has come; the snapshot is awaited.
    AwaitingSnapshot,
    /// The snapshot has come: what follows on the link are commands.
    Done,
    /// The primary sent something else than was awaited.
    Failed,
}

/// One step of the handshake: the state after it, and what to send.
#[derive(Debug, PartialEq, Eq)]
pub struct HandshakeStep {
    /// The state after the step.
    pub state: Handshake,
    /// The frame to send to the primary, if any.
    pub send: Option<Frame>,
}

/// `PING`, as a command frame.
pub open spec fn ping_command() -> FrameView {
    FrameView::Array(seq![FrameView::BulkString(text("PING"))])
}

/// `REPLCONF listening-port` with the replica's port, as a command frame.
pub open spec fn listening_port_command(port: nat) -> FrameView {
    FrameView::Array(
        seq![
            FrameView::BulkString(text("REPLCONF")),
            FrameView::BulkString(text("listening-port")),
            FrameView::BulkString(decimal(port)),
        ],
    )
}

/// `REPLCONF capa psync2`, as a command frame.
pub open spec fn capabilities_command() -> FrameView {
    FrameView::Array(
        seq![
            FrameView::BulkString(text("REPLCONF")),
            FrameView::BulkString(text("capa")),
            FrameView::BulkString(text("psync2")),
        ],
    )
}

/// `PSYNC ? -1`, as a command frame.
pub open spec fn psync_command() -> FrameView {
    FrameView::Array(
        seq![
            FrameView::BulkString(text("PSYNC")),
            FrameView::BulkString(text("?")),
            FrameView::BulkString(text("-1")),
        ],
    )
}

/// The bytes `s` begin with the bytes `prefix`.
pub open spec fn starts_with(s: Seq<u8>, prefix: Seq<u8>) -> bool {
    prefix.len() <= s.len() && s.subrange(0, prefix.len() as int) == prefix
}

/// The state after a step and the frame to send, for a replica that listens
/// on `port`, stands at `state` and has received `received`. The handshake
/// starts without a frame; every later step needs the frame that was
/// awaited, and fails on any other.
pub open spec fn next(port: nat, state: Handshake, received: Option<FrameView>) -> (
    Handshake,
    Option<FrameView>,
) {
    match (state, received) {
        (Handshake::Start, None) => (Handshake::SentPing, Some(ping_command())),
        (Handshake::SentPing, Some(FrameView::SimpleString(s))) if s == text("PONG") => (
            Handshake::SentListeningPort,
            Some(listening_port_command(port)),
        ),
        (Handshake::SentListeningPort, Some(FrameView::SimpleString(s))) if s == text("OK") => (
            Handshake::SentCapabilities,
            Some(capabilities_command()),
        ),
        (Handshake::SentCapabilities, Some(FrameView::SimpleString(s))) if s == text("OK") => (
            Handshake::SentPsync,
            Some(psync_command()),
        ),
        (Handshake::SentPsync, Some(FrameView::SimpleString(s))) if starts_with(
            s,
            text("FULLRESYNC"),
        ) => (Handshake::AwaitingSnapshot, None),
        (Handshake::AwaitingSnapshot, Some(FrameView::SnapshotBlob(_))) => (Handshake::Done, None),
        (Handshake::Done, _) => (Handshake::Done, None),
        _ => (Handshake::Failed, None),
    }
}

/// The model of a frame that was received, if any.
pub open spec fn received_view(received: Option<&Frame>) -> Option<FrameView> {
    match received {
        Some(f) => Some(f@),
        None => None,
    }
}

/// Whether `frame` is the simple string with the text `expected`.
fn is_simple(frame: &Frame, expected: &str) -> (r: bool)
    ensures
        r == (frame@ == FrameView::SimpleString(text(expected))),
{
    match frame {
        Frame::SimpleString(s) => bytes_eq(s.as_slice(), expected.as_bytes()),
        _ => false,
    }
}

/// Whether `frame` is a simple string that begins with `prefix`.
fn is_simple_with_prefix(frame: &Frame, prefix: &str) -> (r: bool)
    ensures
        r == (frame@ matches FrameView::SimpleString(s) && starts_with(s, text(prefix))),
{
    match frame {
        Frame::SimpleString(s) => {
            let wanted = prefix.as_bytes();
            if wanted.len() <= s.len() {
                bytes_eq(slice_subrange(s.as_slice(), 0, wanted.len()), wanted)
            } else {
                false
            }
        },
        _ => false,
    }
}

/// One step of the handshake of a replica that listens on `port`.
pub fn advance(port: usize, state: Handshake, received: Option<&Frame>) -> (step: HandshakeStep)
    ensures
        (step.state, frame_of(step.send)) == next(port as nat, state, received_view(received)),
{
    let failed = HandshakeStep { state: Handshake::Failed, send: None };
    match (state, received) {
        (Handshake::Start, None) => {
            let mut items: Vec<Frame> = Vec::new();
            items.push(bulk("PING"));
            proof {
                lemma_array_view(items);
                assert(views(items@) =~= seq![FrameView::BulkString(text("PING"))]);
            }
            HandshakeStep { state: Handshake::SentPing, send: Some(Frame::Array(items)) }
        },
        (Handshake::SentPing, Some(frame)) => {
            if is_simple(frame, "PONG") {
                HandshakeStep {
                    state: Handshake::SentListeningPort,
                    send: Some(
                        array3(
                            bulk("REPLCONF"),
                            bulk("listening-port"),
                            Frame::BulkString(decimal_bytes(port as u64)),
                        ),
                    ),
                }
            } else {
                failed
            }
        },
        (Handshake::SentListeningPort, Some(frame)) => {
            if is_simple(frame, "OK") {
                HandshakeStep {
                    state: Handshake::SentCapabilities,
                    send: Some(array3(bulk("REPLCONF"), bulk("capa"), bulk("psync2"))),
                }
            } else {
                failed
            }
        },
        (Handshake::SentCapabilities, Some(frame)) => {
            if is_simple(frame, "OK") {
                HandshakeStep {
                    state: Handshake::SentPsync,
                    send: Some(array3(bulk("PSYNC"), bulk("?"), bulk("-1"))),
                }
            } else {
                failed
            }
        },
        (Handshake::SentPsync, Some(frame)) => {
            if is_simple_with_prefix(frame, "FULLRESYNC") {
                HandshakeStep { state: Handshake::AwaitingSnapshot, send: None }
            } else {
                failed
            }
        },
        (Handshake::AwaitingSnapshot, Some(frame)) => {
            if matches!(frame, Frame::SnapshotBlob(_)) {
                HandshakeStep { state: Handshake::Done, send: None }
            } else {
                failed
            }
        },
        (Handshake::Done, _) => HandshakeStep { state: Handshake::Done, send: None },
        _ => failed,
    }
}

} // verus!
