//! The read side of a connection: bytes arrive in chunks of any size, and
//! frames leave as soon as they are complete.

use crate::buffer::{
    buffer_advance, buffer_bytes, buffer_extend, buffer_len, buffer_slice, buffer_with_capacity,
};
use crate::error::FrameError;
use crate::frame::{decode, lemma_decode_bounds, Frame, FrameView};
use bytes::BytesMut;
use vstd::prelude::*;
use vstd::slice::slice_subrange;

verus! {

/// The frames that stand complete at the front of `s`, each with the number
/// of bytes it takes, and the bytes that are left behind them: the beginning
/// of a frame that is not complete yet, or bytes that begin no frame.
pub open spec fn drain(s: Seq<u8>) -> (Seq<(FrameView, int)>, Seq<u8>)
    decreases s.len(),
{
    match decode(s, false) {
        Ok((frame, used)) => {
            if 0 < used <= s.len() {
                let (more, rest) = drain(s.skip(used));
                (seq![(frame, used)] + more, rest)
            } else {
                (Seq::empty(), s)
            }
        },
        Err(_) => (Seq::empty(), s),
    }
}

/// The models of frames that were read, each with its size.
pub open spec fn sized_views(frames: Seq<(Frame, usize)>) -> Seq<(FrameView, int)> {
    Seq::new(frames.len(), |i: int| (frames[i].0@, frames[i].1 as int))
}

/// The buffered read side of one connection.
pub struct Connection {
    buffer: BytesMut,
}

impl View for Connection {
    type V = Seq<u8>;

    /// The bytes that have arrived and belong to no frame handed out so far.
    closed spec fn view(&self) -> Seq<u8> {
        buffer_bytes(self.buffer)
    }
}

impl Connection {
    /// A connection on which nothing has arrived.
    pub fn new() -> (conn: Connection)
        ensures
            conn@ == Seq::<u8>::empty(),
    {
        Connection { buffer: buffer_with_capacity(512) }
    }

    /// The number of bytes that wait for the rest of their frame.
    pub fn pending(&self) -> (n: usize)
        ensures
            n == self@.len(),
    {
        buffer_len(&self.buffer)
    }

    /// Takes the bytes that one read from the peer returned and hands out
    /// the frames that are now complete, in order, each with its size in
    /// bytes.
    ///
    /// An empty `received` is the peer's end of stream: `None`. Bytes that
    /// begin no frame are an error once every frame in front of them has been
    /// handed out. The bytes of an incomplete frame stay for the next call.
    pub fn read_frames(&mut self, received: &[u8]) -> (r: Result<
        Option<Vec<(Frame, usize)>>,
        FrameError,
    >)
        requires
            old(self)@.len() + received@.len() <= isize::MAX,
        ensures
            received@.len() == 0 ==> r == Ok::<Option<Vec<(Frame, usize)>>, FrameError>(None)
                && final(self)@ == old(self)@,
            received@.len() > 0 ==> {
                let s = old(self)@ + received@;
                if decode(s, false) == Err::<(FrameView, int), FrameError>(
                    FrameError::MalformedFrame,
                ) {
                    r == Err::<Option<Vec<(Frame, usize)>>, FrameError>(
                        FrameError::MalformedFrame,
                    ) && final(self)@ == s
                } else {
                    &&& r matches Ok(Some(frames)) && sized_views(frames@) == drain(s).0
                    &&& final(self)@ == drain(s).1
                }
            },
    {
        if received.len() == 0 {
            return Ok(None);
        }
        buffer_extend(&mut self.buffer, received);
        let ghost s = buffer_bytes(self.buffer);
        let bytes = buffer_slice(&self.buffer);
        let mut frames: Vec<(Frame, usize)> = Vec::new();
        let mut pos: usize = 0;
        let mut refused: bool = false;
        assert(s.skip(0) =~= s);
        loop
            invariant_except_break
                drain(s).0 == sized_views(frames@) + drain(s.skip(pos as int)).0,
                drain(s).1 == drain(s.skip(pos as int)).1,
                !refused,
            invariant
                bytes@ == s,
                pos <= bytes.len(),
                pos == 0 <==> frames@.len() == 0,
            ensures
                drain(s).0 == sized_views(frames@),
                drain(s).1 == s.skip(pos as int),
                refused <==> decode(s.skip(pos as int), false) == Err::<
                    (FrameView, int),
                    FrameError,
                >(FrameError::MalformedFrame),
            decreases bytes.len() - pos,
        {
            let tail = slice_subrange(bytes, pos, bytes.len());
            proof {
                lemma_decode_bounds(tail@, 0, false);
            }
            match Frame::parse_at(tail, 0, false) {
                Ok((frame, used)) => {
                    assert(s.skip(pos as int).skip(used as int) =~= s.skip(pos + used));
                    frames.push((frame, used));
                    pos = pos + used;
                },
                Err(e) => {
                    refused = e == FrameError::MalformedFrame;
                    break ;
                },
            }
        }
        if refused && pos == 0 {
            return Err(FrameError::MalformedFrame);
        }
        buffer_advance(&mut self.buffer, pos);
        Ok(Some(frames))
    }
}

} // verus!
