//! The frame codec: what a frame is, how it is written to bytes, and how it is
//! read back from a buffer that may hold less or more than one frame.

use crate::ascii::{copy_range, decimal, parse_signed, push_all, push_decimal, signed_i64};
use crate::buffer::{buffer_bytes, buffer_slice};
use crate::error::FrameError;
use bytes::BytesMut;
use vstd::prelude::*;
use vstd::slice::slice_subrange;

verus! {

/// `+`, the type byte of a simple string.
pub const PLUS: u8 = 43;

/// `$`, the type byte of a bulk string, of the null bulk string and of a
/// snapshot blob.
pub const DOLLAR: u8 = 36;

/// `*`, the type byte of an array.
pub const STAR: u8 = 42;

/// `-`, the sign of the null bulk string's length.
pub const MINUS: u8 = 45;

/// Carriage return.
pub const CR: u8 = 13;

/// Line feed.
pub const LF: u8 = 10;

/// Mathematical model of a frame: the same tree with sequences for vectors.
pub enum FrameView {
    SimpleString(Seq<u8>),
    BulkString(Seq<u8>),
    Array(Seq<FrameView>),
    NullBulkString,
    SnapshotBlob(Seq<u8>),
}

/// One unit of the wire protocol.
#[derive(Debug, PartialEq, Eq)]
pub enum Frame {
    /// Short in-line text without CR or LF.
    SimpleString(Vec<u8>),
    /// A length-prefixed byte string.
    BulkString(Vec<u8>),
    /// A length-prefixed list of frames.
    Array(Vec<Frame>),
    /// The sentinel for an absent value.
    NullBulkString,
    /// A length-prefixed payload that no CRLF closes; it carries the initial
    /// snapshot during the replication handshake.
    SnapshotBlob(Vec<u8>),
}

impl View for Frame {
    type V = FrameView;

    open spec fn view(&self) -> FrameView
        decreases self,
    {
        match self {
            Frame::SimpleString(s) => FrameView::SimpleString(s@),
            Frame::BulkString(b) => FrameView::BulkString(b@),
            Frame::Array(items) => FrameView::Array(
                Seq::new(
                    items.len() as nat,
                    |i: int|
                        if 0 <= i < items.len() {
                            items[i].view()
                        } else {
                            FrameView::NullBulkString
                        },
                ),
            ),
            Frame::NullBulkString => FrameView::NullBulkString,
            Frame::SnapshotBlob(b) => FrameView::SnapshotBlob(b@),
        }
    }
}

/// The models of a list of frames, in order.
pub open spec fn views(items: Seq<Frame>) -> Seq<FrameView> {
    Seq::new(items.len(), |i: int| items[i]@)
}

/// Appending a frame appends its model.
pub proof fn lemma_views_push(items: Seq<Frame>, last: Frame)
    ensures
        views(items.push(last)) == views(items).push(last@),
{
}

/// An array frame's model holds the models of its items.
pub proof fn lemma_array_view(items: Vec<Frame>)
    ensures
        Frame::Array(items)@ == FrameView::Array(views(items@)),
{
    assert(Frame::Array(items)@->Array_0 =~= views(items@));
}

/// The frame's lengths fit the signed 64-bit numbers that carry them on the
/// wire, and no simple string holds a CR or an LF.
pub open spec fn well_formed(f: FrameView) -> bool
    decreases f,
{
    match f {
        FrameView::SimpleString(s) => forall|i: int|
            0 <= i < s.len() ==> #[trigger] s[i] != CR && s[i] != LF,
        FrameView::BulkString(b) => b.len() <= i64::MAX,
        FrameView::Array(items) => items.len() <= i64::MAX && forall|i: int|
            0 <= i < items.len() ==> well_formed(#[trigger] items[i]),
        FrameView::NullBulkString => true,
        FrameView::SnapshotBlob(b) => b.len() <= i64::MAX,
    }
}

/// The line terminator.
pub open spec fn crlf() -> Seq<u8> {
    seq![CR, LF]
}

/// The bytes that a frame is written as.
pub open spec fn encode(f: FrameView) -> Seq<u8>
    decreases f,
{
    match f {
        FrameView::SimpleString(s) => seq![PLUS] + s + crlf(),
        FrameView::BulkString(b) => seq![DOLLAR] + decimal(b.len()) + crlf() + b + crlf(),
        FrameView::Array(items) => seq![STAR] + decimal(items.len()) + crlf() + encode_all(items),
        FrameView::NullBulkString => seq![DOLLAR, MINUS, 49u8, CR, LF],
        FrameView::SnapshotBlob(b) => seq![DOLLAR] + decimal(b.len()) + crlf() + b,
    }
}

/// The bytes of several frames written one after another.
pub open spec fn encode_all(items: Seq<FrameView>) -> Seq<u8>
    decreases items,
{
    if items.len() == 0 {
        Seq::empty()
    } else {
        encode(items[0]) + encode_all(items.skip(1))
    }
}

/// Writing one more frame appends its bytes.
pub proof fn lemma_encode_all_push(items: Seq<FrameView>, last: FrameView)
    ensures
        encode_all(items.push(last)) == encode_all(items) + encode(last),
    decreases items.len(),
{
    let all = items.push(last);
    if items.len() == 0 {
        assert(encode_all(all.skip(1)) =~= Seq::<u8>::empty());
    } else {
        lemma_encode_all_push(items.skip(1), last);
        assert(all.skip(1) =~= items.skip(1).push(last));
    }
}

impl Frame {
    /// Appends the bytes of this frame to `out`.
    pub fn write_to(&self, out: &mut Vec<u8>)
        ensures
            final(out)@ == old(out)@ + encode(self@),
        decreases self,
    {
        match self {
            Frame::SimpleString(s) => {
                out.push(PLUS);
                push_all(out, s.as_slice());
                out.push(CR);
                out.push(LF);
            },
            Frame::BulkString(b) => {
                out.push(DOLLAR);
                push_decimal(out, b.len() as u64);
                out.push(CR);
                out.push(LF);
                push_all(out, b.as_slice());
                out.push(CR);
                out.push(LF);
            },
            Frame::NullBulkString => {
                out.push(DOLLAR);
                out.push(MINUS);
                out.push(49);
                out.push(CR);
                out.push(LF);
            },
            Frame::SnapshotBlob(b) => {
                out.push(DOLLAR);
                push_decimal(out, b.len() as u64);
                out.push(CR);
                out.push(LF);
                push_all(out, b.as_slice());
            },
            Frame::Array(items) => {
                out.push(STAR);
                push_decimal(out, items.len() as u64);
                out.push(CR);
                out.push(LF);
                let ghost head = out@;
                let ghost all = views(items@);
                let mut i: usize = 0;
                while i < items.len()
                    invariant
                        i <= items.len(),
                        all == views(items@),
                        out@ == head + encode_all(all.take(i as int)),
                        self is Array,
                        *items == self->Array_0,
                    decreases items.len() - i,
                {
                    proof {
                        lemma_encode_all_push(all.take(i as int), all[i as int]);
                        assert(all.take(i as int).push(all[i as int]) =~= all.take(i + 1));
                    }
                    items[i].write_to(out);
                    i = i + 1;
                }
                proof {
                    assert(all.take(i as int) =~= all);
                    lemma_array_view(*items);
                }
            },
        }
    }

    /// The bytes that this frame is written as.
    pub fn serialize(self) -> (out: Vec<u8>)
        ensures
            out@ == encode(self@),
    {
        let mut out: Vec<u8> = Vec::new();
        self.write_to(&mut out);
        out
    }
}

impl Clone for Frame {
    /// A frame with the same model.
    fn clone(&self) -> (r: Frame)
        ensures
            r@ == self@,
        decreases self,
    {
        match self {
            Frame::SimpleString(s) => Frame::SimpleString(s.clone()),
            Frame::BulkString(b) => Frame::BulkString(b.clone()),
            Frame::NullBulkString => Frame::NullBulkString,
            Frame::SnapshotBlob(b) => Frame::SnapshotBlob(b.clone()),
            Frame::Array(items) => {
                let mut copy: Vec<Frame> = Vec::new();
                let mut i: usize = 0;
                while i < items.len()
                    invariant
                        i <= items.len(),
                        self is Array,
                        *items == self->Array_0,
                        views(copy@) == views(items@).take(i as int),
                    decreases items.len() - i,
                {
                    let item = items[i].clone();
                    proof {
                        lemma_views_push(copy@, item);
                    }
                    copy.push(item);
                    i = i + 1;
                }
                proof {
                    assert(views(items@).take(i as int) =~= views(items@));
                    lemma_array_view(copy);
                    lemma_array_view(*items);
                }
                Frame::Array(copy)
            },
        }
    }
}

/// A CRLF pair starts at index `i` of `s`.
pub open spec fn crlf_at(s: Seq<u8>, i: int) -> bool {
    0 <= i && i + 1 < s.len() && s[i] == CR && s[i + 1] == LF
}

/// The index of the first CRLF pair of `s` that starts at or after `from`.
pub open spec fn line_end(s: Seq<u8>, from: int) -> Option<int>
    decreases s.len() - from,
{
    if from < 0 || from + 1 >= s.len() {
        None
    } else if s[from] == CR && s[from + 1] == LF {
        Some(from)
    } else {
        line_end(s, from + 1)
    }
}

/// Where `line_end` finds a pair, it lies at or after `from` and inside `s`.
pub proof fn lemma_line_end_bounds(s: Seq<u8>, from: int)
    ensures
        line_end(s, from) matches Some(i) ==> from <= i && crlf_at(s, i),
    decreases s.len() - from,
{
    if 0 <= from && from + 1 < s.len() && !crlf_at(s, from) {
        lemma_line_end_bounds(s, from + 1);
    }
}

/// Searching a tail of `s` from its start is searching `s` from where the
/// tail begins.
pub proof fn lemma_line_end_skip(s: Seq<u8>, k: int, from: int)
    requires
        0 <= k <= s.len(),
        0 <= from,
    ensures
        line_end(s.skip(k), from) == match line_end(s, k + from) {
            Some(i) => Some(i - k),
            None => None,
        },
    decreases s.len() - k - from,
{
    if from + 1 < s.skip(k).len() && !crlf_at(s.skip(k), from) {
        lemma_line_end_skip(s, k, from + 1);
    }
}

/// The number on the line that follows the type byte at `pos`, with the index
/// of the first byte after that line.
pub open spec fn header(s: Seq<u8>, pos: int) -> Result<(int, int), FrameError> {
    match line_end(s, pos + 1) {
        None => Err(FrameError::Incomplete),
        Some(i) => match signed_i64(s.subrange(pos + 1, i)) {
            None => Err(FrameError::MalformedFrame),
            Some(n) => Ok((n as int, i + 2)),
        },
    }
}

/// Whether the bytes after a payload that ends at `end` already show that no
/// CRLF closes it. With `whole`, `s` is all there will ever be, so the end of
/// `s` settles it too.
pub open spec fn blob_settled(s: Seq<u8>, end: int, whole: bool) -> bool {
    whole || s.len() >= end + 2 || (s.len() == end + 1 && s[end] != CR)
}

/// The simple string that starts at `pos`, with the index after it.
pub open spec fn decode_simple(s: Seq<u8>, pos: int) -> Result<(FrameView, int), FrameError> {
    match line_end(s, pos + 1) {
        None => Err(FrameError::Incomplete),
        Some(i) => Ok((FrameView::SimpleString(s.subrange(pos + 1, i)), i + 2)),
    }
}

/// The bulk string, null or snapshot blob that starts at `pos`, with the
/// index after it.
pub open spec fn decode_bulk(s: Seq<u8>, pos: int, whole: bool) -> Result<
    (FrameView, int),
    FrameError,
> {
    match header(s, pos) {
        Err(e) => Err(e),
        Ok((n, start)) => {
            let end = start + n;
            if n == -1 {
                Ok((FrameView::NullBulkString, start))
            } else if n < 0 {
                Err(FrameError::MalformedFrame)
            } else if end > s.len() {
                Err(FrameError::Incomplete)
            } else if crlf_at(s, end) {
                Ok((FrameView::BulkString(s.subrange(start, end)), end + 2))
            } else if blob_settled(s, end, whole) {
                Ok((FrameView::SnapshotBlob(s.subrange(start, end)), end))
            } else {
                Err(FrameError::Incomplete)
            }
        },
    }
}

/// The frame that starts at index `pos` of `s`, with the index after it.
///
/// `whole` says that `s` is everything the sender wrote. Without it, a
/// payload that ends where `s` ends is not yet known to be a snapshot blob,
/// since a CRLF may still arrive.
pub open spec fn decode_at(s: Seq<u8>, pos: int, whole: bool) -> Result<
    (FrameView, int),
    FrameError,
>
    decreases s.len() - pos, 0int,
{
    if pos < 0 || pos >= s.len() {
        Err(FrameError::Incomplete)
    } else if s[pos] == PLUS {
        decode_simple(s, pos)
    } else if s[pos] == DOLLAR {
        decode_bulk(s, pos, whole)
    } else if s[pos] == STAR {
        match header(s, pos) {
            Err(e) => Err(e),
            Ok((count, start)) => {
                if count < 0 {
                    Err(FrameError::MalformedFrame)
                } else {
                    proof {
                        lemma_line_end_bounds(s, pos + 1);
                    }
                    match decode_items(s, start, count, whole) {
                        Err(e) => Err(e),
                        Ok((items, end)) => Ok((FrameView::Array(items), end)),
                    }
                }
            },
        }
    } else {
        Err(FrameError::MalformedFrame)
    }
}

/// The `count` frames that start one after another at index `pos` of `s`,
/// with the index after the last.
pub open spec fn decode_items(s: Seq<u8>, pos: int, count: int, whole: bool) -> Result<
    (Seq<FrameView>, int),
    FrameError,
>
    decreases s.len() - pos, 1 + count,
{
    if count <= 0 {
        Ok((Seq::empty(), pos))
    } else {
        match decode_at(s, pos, whole) {
            Err(e) => Err(e),
            Ok((first, next)) => {
                if next <= pos || next > s.len() {
                    Err(FrameError::MalformedFrame)
                } else {
                    match decode_items(s, next, count - 1, whole) {
                        Err(e) => Err(e),
                        Ok((rest, end)) => Ok((seq![first] + rest, end)),
                    }
                }
            },
        }
    }
}

/// The first frame of `s` with the number of bytes that it takes.
pub open spec fn decode(s: Seq<u8>, whole: bool) -> Result<(FrameView, int), FrameError> {
    decode_at(s, 0, whole)
}

/// The result of a parser is what the codec's model says.
pub open spec fn parsed_as(
    r: Result<(Frame, usize), FrameError>,
    expected: Result<(FrameView, int), FrameError>,
) -> bool {
    match (r, expected) {
        (Ok((frame, end)), Ok((model, e))) => frame@ == model && end == e,
        (Err(e), Err(x)) => e == x,
        _ => false,
    }
}

/// A frame that was decoded ends after where it starts, and inside `s`.
pub proof fn lemma_decode_bounds(s: Seq<u8>, pos: int, whole: bool)
    ensures
        decode_at(s, pos, whole) matches Ok((_, end)) ==> 0 <= pos < end <= s.len(),
    decreases s.len() - pos, 0int,
{
    if 0 <= pos < s.len() {
        lemma_line_end_bounds(s, pos + 1);
        if s[pos] == STAR {
            match header(s, pos) {
                Err(e) => {},
                Ok((count, start)) => {
                    if count >= 0 {
                        lemma_decode_items_bounds(s, start, count, whole);
                    }
                },
            }
        }
    }
}

/// Frames that were decoded one after another end at or after where they
/// start, and inside `s`.
pub proof fn lemma_decode_items_bounds(s: Seq<u8>, pos: int, count: int, whole: bool)
    requires
        0 <= pos <= s.len(),
    ensures
        decode_items(s, pos, count, whole) matches Ok((items, end)) ==> pos <= end <= s.len()
            && items.len() == if count > 0 {
            count
        } else {
            0
        },
    decreases s.len() - pos, 1 + count,
{
    if count > 0 {
        match decode_at(s, pos, whole) {
            Err(e) => {},
            Ok((first, next)) => {
                if next > pos && next <= s.len() {
                    lemma_decode_items_bounds(s, next, count - 1, whole);
                }
            },
        }
    }
}

/// Finds the first CRLF pair of `buffer`: the bytes before it, and the number
/// of bytes up to and including the pair.
pub fn read_until_crlf(buffer: &[u8]) -> (r: Option<(&[u8], usize)>)
    ensures
        match line_end(buffer@, 0) {
            Some(i) => r matches Some((line, used)) && line@ == buffer@.take(i) && used == i + 2,
            None => r is None,
        },
{
    let mut i: usize = 1;
    while i < buffer.len()
        invariant
            1 <= i,
            line_end(buffer@, 0) == line_end(buffer@, i - 1),
        decreases buffer.len() - i,
    {
        if buffer[i - 1] == CR && buffer[i] == LF {
            let line = slice_subrange(buffer, 0, i - 1);
            return Some((line, i + 1));
        }
        i = i + 1;
    }
    None
}

/// Reads the signed decimal number that `buffer` spells.
pub fn parse_int(buffer: &[u8]) -> (r: Result<i64, FrameError>)
    ensures
        match signed_i64(buffer@) {
            Some(v) => r == Ok::<i64, FrameError>(v),
            None => r == Err::<i64, FrameError>(FrameError::MalformedFrame),
        },
{
    match parse_signed(buffer) {
        Some(v) => Ok(v),
        None => Err(FrameError::MalformedFrame),
    }
}

/// Reads the number line that follows the type byte at `at`.
fn read_header(buffer: &[u8], at: usize) -> (r: Result<(i64, usize), FrameError>)
    requires
        at < buffer.len(),
    ensures
        match header(buffer@, at as int) {
            Ok((n, start)) => r matches Ok((v, next)) && v == n && next == start && at < start
                && start <= buffer.len(),
            Err(e) => r == Err::<(i64, usize), FrameError>(e),
        },
{
    let tail = slice_subrange(buffer, at + 1, buffer.len());
    proof {
        lemma_line_end_skip(buffer@, at + 1, 0);
        lemma_line_end_bounds(buffer@, at + 1);
    }
    match read_until_crlf(tail) {
        None => Err(FrameError::Incomplete),
        Some((line, used)) => {
            proof {
                let i = line_end(buffer@, at + 1)->0;
                assert(line@ =~= buffer@.subrange(at + 1, i));
            }
            match parse_int(line) {
                Err(e) => Err(e),
                Ok(n) => Ok((n, at + 1 + used)),
            }
        },
    }
}

/// Reads the simple string whose `+` stands at `at`.
fn parse_simple_string(buffer: &[u8], at: usize) -> (r: Result<(Frame, usize), FrameError>)
    requires
        at < buffer.len(),
    ensures
        parsed_as(r, decode_simple(buffer@, at as int)),
{
    let tail = slice_subrange(buffer, at + 1, buffer.len());
    proof {
        lemma_line_end_skip(buffer@, at + 1, 0);
        lemma_line_end_bounds(buffer@, at + 1);
    }
    match read_until_crlf(tail) {
        None => Err(FrameError::Incomplete),
        Some((line, used)) => {
            let text = copy_range(line, 0, line.len());
            proof {
                let i = line_end(buffer@, at + 1)->0;
                assert(text@ =~= buffer@.subrange(at + 1, i));
            }
            Ok((Frame::SimpleString(text), at + 1 + used))
        },
    }
}

/// Reads the bulk string, null or snapshot blob whose `$` stands at `at`.
fn parse_bulk_string(buffer: &[u8], at: usize, whole: bool) -> (r: Result<
    (Frame, usize),
    FrameError,
>)
    requires
        at < buffer.len(),
    ensures
        parsed_as(r, decode_bulk(buffer@, at as int, whole)),
{
    let (n, start) = match read_header(buffer, at) {
        Err(e) => {
            return Err(e);
        },
        Ok(pair) => pair,
    };
    if n == -1 {
        return Ok((Frame::NullBulkString, start));
    }
    if n < 0 {
        return Err(FrameError::MalformedFrame);
    }
    let room: usize = buffer.len() - start;
    if n as u64 > room as u64 {
        return Err(FrameError::Incomplete);
    }
    let end: usize = start + n as usize;
    let payload = copy_range(buffer, start, end);
    let after: usize = buffer.len() - end;
    if after >= 2 && buffer[end] == CR && buffer[end + 1] == LF {
        Ok((Frame::BulkString(payload), end + 2))
    } else if whole || after >= 2 || (after == 1 && buffer[end] != CR) {
        Ok((Frame::SnapshotBlob(payload), end))
    } else {
        Err(FrameError::Incomplete)
    }
}

/// Reads the array whose `*` stands at `at`.
fn parse_array(buffer: &[u8], at: usize, whole: bool) -> (r: Result<(Frame, usize), FrameError>)
    requires
        at < buffer.len(),
        buffer[at as int] == STAR,
    ensures
        parsed_as(r, decode_at(buffer@, at as int, whole)),
    decreases buffer.len() - at, 0int,
{
    let (count, start) = match read_header(buffer, at) {
        Err(e) => {
            return Err(e);
        },
        Ok(pair) => pair,
    };
    if count < 0 {
        return Err(FrameError::MalformedFrame);
    }
    let ghost s = buffer@;
    let mut items: Vec<Frame> = Vec::new();
    let mut pos: usize = start;
    let mut left: i64 = count;
    while left > 0
        invariant
            s == buffer@,
            at < start <= pos <= buffer.len(),
            0 <= left <= count,
            decode_at(s, at as int, whole) == match decode_items(
                s,
                start as int,
                count as int,
                whole,
            ) {
                Err(e) => Err(e),
                Ok((all, end)) => Ok((FrameView::Array(all), end)),
            },
            decode_items(s, start as int, count as int, whole) == match decode_items(
                s,
                pos as int,
                left as int,
                whole,
            ) {
                Err(e) => Err(e),
                Ok((rest, end)) => Ok((views(items@) + rest, end)),
            },
        decreases left,
    {
        proof {
            lemma_decode_bounds(s, pos as int, whole);
        }
        match Frame::parse_at(buffer, pos, whole) {
            Err(e) => {
                return Err(e);
            },
            Ok((item, next)) => {
                proof {
                    lemma_views_push(items@, item);
                    match decode_items(s, next as int, left - 1, whole) {
                        Err(e) => {},
                        Ok((rest, end)) => {
                            assert(views(items@) + (seq![item@] + rest) =~= views(items@).push(
                                item@,
                            ) + rest);
                        },
                    }
                }
                items.push(item);
                pos = next;
                left = left - 1;
            },
        }
    }
    proof {
        lemma_array_view(items);
    }
    Ok((Frame::Array(items), pos))
}

impl Frame {
    /// Reads the one frame that `buffer` begins with, and says how many bytes
    /// it takes. Nothing is expected to follow the bytes of `buffer`: a
    /// payload that ends where the buffer ends is a snapshot blob.
    pub fn parse_message(buffer: BytesMut) -> (r: Result<(Frame, usize), FrameError>)
        ensures
            parsed_as(r, decode(buffer_bytes(buffer), true)),
    {
        Frame::parse_at(buffer_slice(&buffer), 0, true)
    }

    /// Reads the frame that starts at index `at` of `buffer`, and says where
    /// it ends. `whole` says that nothing will follow the bytes of `buffer`.
    pub fn parse_at(buffer: &[u8], at: usize, whole: bool) -> (r: Result<
        (Frame, usize),
        FrameError,
    >)
        ensures
            parsed_as(r, decode_at(buffer@, at as int, whole)),
        decreases buffer.len() - at, 1int,
    {
        if at >= buffer.len() {
            return Err(FrameError::Incomplete);
        }
        let kind: u8 = buffer[at];
        if kind == PLUS {
            parse_simple_string(buffer, at)
        } else if kind == DOLLAR {
            parse_bulk_string(buffer, at, whole)
        } else if kind == STAR {
            parse_array(buffer, at, whole)
        } else {
            Err(FrameError::MalformedFrame)
        }
    }
}

} // verus!
