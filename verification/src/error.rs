//! The ways in which decoding and command handling fail.

use vstd::prelude::*;

verus! {

/// Why no frame could be read from a byte buffer.
#[derive(Clone, Copy, Debug, PartialEq, Eq, Structural)]
pub enum FrameError {
    /// The bytes so far are the beginning of a frame; more are needed.
    Incomplete,
    /// The bytes cannot begin any frame.
    MalformedFrame,
}

/// Why a frame could not be carried out as a command.
#[derive(Clone, Copy, Debug, PartialEq, Eq, Structural)]
pub enum CommandError {
    /// The frame is no command at all: not an array, an empty array, or an
    /// array whose first element is no bulk string. The connection ends.
    ProtocolError,
    /// The command is known but its arguments have the wrong shape.
    SyntaxError,
    /// The command name is not one that the server knows.
    UnknownCommand,
}

/// Why a snapshot could not be read.
#[derive(Clone, Copy, Debug, PartialEq, Eq, Structural)]
pub enum SnapshotError {
    /// The bytes do not follow the snapshot layout, or end too early.
    MalformedSnapshot,
    /// The snapshot uses an encoding outside the supported subset.
    UnsupportedEncoding,
}

} // verus!
