//! What holds of the frame codec for every frame and every buffer: reading
//! back what was written, and reading from a buffer that grows.

use crate::ascii::{decimal, digits_value, lemma_decimal_digits, lemma_decimal_parses};
use crate::connection::drain;
use crate::error::FrameError;
use crate::frame::{
    blob_settled, crlf, crlf_at, decode, decode_at, decode_items, encode, encode_all, header,
    lemma_decode_bounds, lemma_line_end_bounds, line_end, well_formed, FrameView, CR, DOLLAR,
    PLUS, STAR,
};
use vstd::prelude::*;

verus! {

/// The bytes `part` stand in `s` from index `pos` on.
pub open spec fn holds_at(s: Seq<u8>, pos: int, part: Seq<u8>) -> bool {
    0 <= pos && pos + part.len() <= s.len() && s.subrange(pos, pos + part.len()) == part
}

/// Where two parts stand in `s` one after the other, each of them stands
/// there.
pub proof fn lemma_holds_parts(s: Seq<u8>, pos: int, a: Seq<u8>, b: Seq<u8>)
    requires
        holds_at(s, pos, a + b),
    ensures
        holds_at(s, pos, a),
        holds_at(s, pos + a.len(), b),
{
    let whole = s.subrange(pos, pos + (a + b).len());
    assert forall|k: int| 0 <= k < b.len() implies s[pos + a.len() + k] == b[k] by {
        assert(whole[a.len() + k] == (a + b)[a.len() + k]);
    }
    assert(s.subrange(pos, pos + a.len()) =~= a);
    assert(s.subrange(pos + a.len(), pos + a.len() + b.len()) =~= b);
}

/// A byte of a part that stands in `s` is a byte of `s`.
pub proof fn lemma_holds_index(s: Seq<u8>, pos: int, part: Seq<u8>, k: int)
    requires
        holds_at(s, pos, part),
        0 <= k < part.len(),
    ensures
        s[pos + k] == part[k],
{
}

/// The first CRLF pair after a run of bytes without CR is the one that
/// follows the run.
pub proof fn lemma_line_end_found(s: Seq<u8>, from: int, i: int)
    requires
        0 <= from <= i,
        crlf_at(s, i),
        forall|j: int| from <= j < i ==> s[j] != CR,
    ensures
        line_end(s, from) == Some(i),
    decreases i - from,
{
    if from < i {
        lemma_line_end_found(s, from + 1, i);
    }
}

/// The line that a length or a count is written on is read back as that
/// number.
pub proof fn lemma_header_encoded(s: Seq<u8>, pos: int, n: nat)
    requires
        n <= i64::MAX,
        holds_at(s, pos + 1, decimal(n) + crlf()),
        0 <= pos,
    ensures
        header(s, pos) == Ok::<(int, int), FrameError>((n as int, pos + 1 + decimal(n).len() + 2)),
{
    let d = decimal(n);
    let i = pos + 1 + d.len();
    lemma_holds_parts(s, pos + 1, d, crlf());
    lemma_decimal_digits(n);
    lemma_decimal_parses(n);
    assert forall|j: int| pos + 1 <= j < i implies s[j] != CR by {
        lemma_holds_index(s, pos + 1, d, j - pos - 1);
    }
    lemma_line_end_found(s, pos + 1, i);
}

/// The frame's last bytes are a snapshot blob's payload, so that only what
/// follows tells it from a bulk string.
pub open spec fn ends_open(f: FrameView) -> bool
    decreases f,
{
    match f {
        FrameView::SnapshotBlob(_) => true,
        FrameView::Array(items) => items.len() > 0 && ends_open(items[items.len() - 1]),
        _ => false,
    }
}

/// What follows index `end` of `s` shows that a payload ending there is a
/// snapshot blob's.
pub open spec fn closes_blob(s: Seq<u8>, end: int, whole: bool) -> bool {
    !crlf_at(s, end) && blob_settled(s, end, whole)
}

/// Every frame is written with a type byte first, and that byte is no CR.
pub proof fn lemma_encode_starts(f: FrameView)
    ensures
        encode(f).len() > 0,
        encode(f)[0] == PLUS || encode(f)[0] == DOLLAR || encode(f)[0] == STAR,
{
}

/// A frame that was written is read back, with the index after its bytes,
/// wherever its bytes stand in a buffer.
pub proof fn lemma_decode_encoded(s: Seq<u8>, pos: int, f: FrameView, whole: bool)
    requires
        well_formed(f),
        holds_at(s, pos, encode(f)),
        ends_open(f) ==> closes_blob(s, pos + encode(f).len(), whole),
    ensures
        decode_at(s, pos, whole) == Ok::<(FrameView, int), FrameError>(
            (f, pos + encode(f).len()),
        ),
    decreases f,
{
    let e = encode(f);
    lemma_holds_index(s, pos, e, 0);
    match f {
        FrameView::SimpleString(text) => {
            let i = pos + 1 + text.len();
            lemma_holds_parts(s, pos, seq![PLUS] + text, crlf());
            lemma_holds_parts(s, pos, seq![PLUS], text);
            assert forall|j: int| pos + 1 <= j < i implies s[j] != CR by {
                lemma_holds_index(s, pos + 1, text, j - pos - 1);
            }
            lemma_line_end_found(s, pos + 1, i);
        },
        FrameView::BulkString(b) => {
            let d = decimal(b.len());
            lemma_holds_parts(s, pos, seq![DOLLAR] + d + crlf() + b, crlf());
            lemma_holds_parts(s, pos, seq![DOLLAR] + d + crlf(), b);
            assert(seq![DOLLAR] + d + crlf() =~= seq![DOLLAR] + (d + crlf()));
            lemma_holds_parts(s, pos, seq![DOLLAR], d + crlf());
            lemma_header_encoded(s, pos, b.len());
        },
        FrameView::SnapshotBlob(b) => {
            let d = decimal(b.len());
            lemma_holds_parts(s, pos, seq![DOLLAR] + d + crlf(), b);
            assert(seq![DOLLAR] + d + crlf() =~= seq![DOLLAR] + (d + crlf()));
            lemma_holds_parts(s, pos, seq![DOLLAR], d + crlf());
            lemma_header_encoded(s, pos, b.len());
        },
        FrameView::NullBulkString => {
            lemma_line_end_found(s, pos + 1, pos + 3);
            let line = s.subrange(pos + 1, pos + 3);
            let digits = line.skip(1);
            assert(digits_value(digits.drop_last()) == 0);
        },
        FrameView::Array(items) => {
            let d = decimal(items.len());
            let start = pos + 1 + d.len() + 2;
            lemma_holds_parts(s, pos, seq![STAR] + d + crlf(), encode_all(items));
            assert(seq![STAR] + d + crlf() =~= seq![STAR] + (d + crlf()));
            lemma_holds_parts(s, pos, seq![STAR], d + crlf());
            lemma_header_encoded(s, pos, items.len());
            lemma_decode_all_encoded(s, start, items, whole);
        },
    }
}

/// Frames that were written one after another are read back in order, with
/// the index after the last.
pub proof fn lemma_decode_all_encoded(s: Seq<u8>, pos: int, items: Seq<FrameView>, whole: bool)
    requires
        forall|i: int| 0 <= i < items.len() ==> well_formed(#[trigger] items[i]),
        holds_at(s, pos, encode_all(items)),
        items.len() > 0 && ends_open(items[items.len() - 1]) ==> closes_blob(
            s,
            pos + encode_all(items).len(),
            whole,
        ),
    ensures
        decode_items(s, pos, items.len() as int, whole) == Ok::<(Seq<FrameView>, int), FrameError>(
            (items, pos + encode_all(items).len()),
        ),
    decreases items,
{
    if items.len() == 0 {
        assert(items =~= Seq::<FrameView>::empty());
    } else {
        let first = items[0];
        let rest = items.skip(1);
        let next = pos + encode(first).len();
        lemma_holds_parts(s, pos, encode(first), encode_all(rest));
        if rest.len() > 0 {
            lemma_encode_starts(rest[0]);
            lemma_holds_index(s, next, encode_all(rest), 0);
        }
        lemma_decode_encoded(s, pos, first, whole);
        lemma_decode_all_encoded(s, next, rest, whole);
        assert(seq![first] + rest =~= items);
    }
}

/// Reading back what `encode` wrote gives the frame, and the number of bytes
/// that were written.
pub proof fn lemma_round_trip(f: FrameView)
    requires
        well_formed(f),
    ensures
        decode(encode(f), true) == Ok::<(FrameView, int), FrameError>((f, encode(f).len() as int)),
{
    let s = encode(f);
    assert(s.subrange(0, s.len() as int) =~= s);
    lemma_decode_encoded(s, 0, f, true);
}

/// A snapshot as a primary sends it, a length line and the payload without
/// a closing CRLF, is read as a snapshot blob that takes exactly the length
/// line and the payload, whatever follows it, as long as what follows is no
/// CRLF: the bytes behind it are left for the next frame. Where the buffer
/// may still grow, what follows must be there to be seen: one byte that is
/// no CR, or two bytes. A snapshot of 88 bytes takes 93 bytes.
pub proof fn lemma_snapshot_blob_decoded(payload: Seq<u8>, rest: Seq<u8>, whole: bool)
    requires
        payload.len() <= i64::MAX,
        !crlf_at(rest, 0),
        whole || rest.len() >= 2 || (rest.len() == 1 && rest[0] != CR),
    ensures
        decode(encode(FrameView::SnapshotBlob(payload)) + rest, whole) == Ok::<
            (FrameView, int),
            FrameError,
        >((FrameView::SnapshotBlob(payload), encode(FrameView::SnapshotBlob(payload)).len() as int)),
        encode(FrameView::SnapshotBlob(payload)).len() == 1 + decimal(payload.len()).len() + 2
            + payload.len(),
        payload.len() == 88 ==> encode(FrameView::SnapshotBlob(payload)).len() == 93,
{
    let blob = FrameView::SnapshotBlob(payload);
    let written = encode(blob);
    let s = written + rest;
    let end = written.len() as int;
    assert(s.subrange(0, end) =~= written);
    if rest.len() > 0 {
        assert(s[end] == rest[0]);
    }
    if rest.len() > 1 {
        assert(s[end + 1] == rest[1]);
    }
    lemma_decode_encoded(s, 0, blob, whole);
    reveal_with_fuel(decimal, 2);
    assert(decimal(88).len() == 2);
}

/// A CRLF pair that was found is still the first one when more bytes arrive.
pub proof fn lemma_line_end_extend(s: Seq<u8>, ext: Seq<u8>, from: int)
    ensures
        line_end(s, from) matches Some(i) ==> line_end(s + ext, from) == Some(i),
    decreases s.len() - from,
{
    if 0 <= from && from + 1 < s.len() && !crlf_at(s, from) {
        lemma_line_end_extend(s, ext, from + 1);
    }
}

/// A number line that was read, or refused, is read or refused in the same
/// way when more bytes arrive.
pub proof fn lemma_header_extend(s: Seq<u8>, ext: Seq<u8>, pos: int)
    requires
        0 <= pos,
    ensures
        header(s, pos) is Ok ==> header(s + ext, pos) == header(s, pos),
        header(s, pos) == Err::<(int, int), FrameError>(FrameError::MalformedFrame) ==> header(
            s + ext,
            pos,
        ) == header(s, pos),
{
    lemma_line_end_extend(s, ext, pos + 1);
    lemma_line_end_bounds(s, pos + 1);
    match line_end(s, pos + 1) {
        Some(i) => {
            assert((s + ext).subrange(pos + 1, i) =~= s.subrange(pos + 1, i));
        },
        None => {},
    }
}

/// What was decided from the bytes so far stays decided when more bytes
/// arrive: a frame that was read is read again, the same and as long, and
/// bytes that were refused are refused again.
pub proof fn lemma_decode_extend(s: Seq<u8>, ext: Seq<u8>, pos: int, whole: bool)
    ensures
        decode_at(s, pos, false) is Ok ==> decode_at(s + ext, pos, whole) == decode_at(
            s,
            pos,
            false,
        ),
        decode_at(s, pos, false) == Err::<(FrameView, int), FrameError>(
            FrameError::MalformedFrame,
        ) ==> decode_at(s + ext, pos, whole) == decode_at(s, pos, false),
    decreases s.len() - pos, 0int,
{
    let t = s + ext;
    if 0 <= pos < s.len() {
        lemma_header_extend(s, ext, pos);
        lemma_line_end_extend(s, ext, pos + 1);
        lemma_line_end_bounds(s, pos + 1);
        if s[pos] == PLUS {
            match line_end(s, pos + 1) {
                Some(i) => {
                    assert(t.subrange(pos + 1, i) =~= s.subrange(pos + 1, i));
                },
                None => {},
            }
        } else if s[pos] == DOLLAR {
            match header(s, pos) {
                Ok((n, start)) => {
                    let end = start + n;
                    if n >= 0 && end <= s.len() {
                        assert(t.subrange(start, end) =~= s.subrange(start, end));
                    }
                },
                Err(e) => {},
            }
        } else if s[pos] == STAR {
            match header(s, pos) {
                Ok((count, start)) => {
                    if count >= 0 {
                        lemma_decode_items_extend(s, ext, start, count, whole);
                    }
                },
                Err(e) => {},
            }
        }
    }
}

/// The same for frames read one after another.
pub proof fn lemma_decode_items_extend(
    s: Seq<u8>,
    ext: Seq<u8>,
    pos: int,
    count: int,
    whole: bool,
)
    requires
        0 <= pos <= s.len(),
    ensures
        decode_items(s, pos, count, false) is Ok ==> decode_items(s + ext, pos, count, whole)
            == decode_items(s, pos, count, false),
        decode_items(s, pos, count, false) == Err::<(Seq<FrameView>, int), FrameError>(
            FrameError::MalformedFrame,
        ) ==> decode_items(s + ext, pos, count, whole) == decode_items(s, pos, count, false),
    decreases s.len() - pos, 1 + count,
{
    if count > 0 {
        lemma_decode_extend(s, ext, pos, whole);
        lemma_decode_bounds(s, pos, false);
        match decode_at(s, pos, false) {
            Ok((first, next)) => {
                lemma_decode_items_extend(s, ext, next, count - 1, whole);
            },
            Err(e) => {},
        }
    }
}

/// The bytes of the chunks, one chunk after another.
pub open spec fn concat(chunks: Seq<Seq<u8>>) -> Seq<u8>
    decreases chunks.len(),
{
    if chunks.len() == 0 {
        Seq::empty()
    } else {
        chunks[0] + concat(chunks.skip(1))
    }
}

/// The frames that a connection hands out, in order, while the chunks arrive
/// one by one after the bytes `pending`, and the bytes that it holds in the
/// end.
pub open spec fn feed(pending: Seq<u8>, chunks: Seq<Seq<u8>>) -> (Seq<(FrameView, int)>, Seq<u8>)
    decreases chunks.len(),
{
    if chunks.len() == 0 {
        (Seq::empty(), pending)
    } else {
        let (now, rest) = drain(pending + chunks[0]);
        let (later, last) = feed(rest, chunks.skip(1));
        (now + later, last)
    }
}

/// Each frame with the number of bytes that it is written as.
pub open spec fn sized(frames: Seq<FrameView>) -> Seq<(FrameView, int)> {
    Seq::new(frames.len(), |i: int| (frames[i], encode(frames[i]).len() as int))
}

/// The number of bytes that the given frames took, all together.
pub open spec fn total_size(frames: Seq<(FrameView, int)>) -> int
    decreases frames.len(),
{
    if frames.len() == 0 {
        0
    } else {
        frames[0].1 + total_size(frames.skip(1))
    }
}

/// Draining a buffer cuts it in two: the bytes of the frames that are handed
/// out, each of which takes at least one byte, and the bytes that stay. No
/// byte belongs to two frames, and none is lost.
pub proof fn lemma_drain_accounts(s: Seq<u8>)
    ensures
        0 <= total_size(drain(s).0) <= s.len(),
        drain(s).1 == s.skip(total_size(drain(s).0)),
        forall|i: int| 0 <= i < drain(s).0.len() ==> (#[trigger] drain(s).0[i]).1 > 0,
    decreases s.len(),
{
    match decode(s, false) {
        Ok((frame, used)) => {
            if 0 < used <= s.len() {
                lemma_drain_accounts(s.skip(used));
                assert(drain(s).0.skip(1) =~= drain(s.skip(used)).0);
            }
        },
        Err(_) => {},
    }
}

/// What `drain` leaves behind holds no complete frame at its front.
pub proof fn lemma_drain_settles(s: Seq<u8>)
    ensures
        drain(drain(s).1) == (Seq::<(FrameView, int)>::empty(), drain(s).1),
    decreases s.len(),
{
    match decode(s, false) {
        Ok((frame, used)) => {
            if 0 < used <= s.len() {
                lemma_drain_settles(s.skip(used));
            }
        },
        Err(_) => {},
    }
}

/// Draining a buffer in two steps, before and after more bytes arrive, hands
/// out the frames that draining it at once does, and leaves the same bytes.
pub proof fn lemma_drain_extend(a: Seq<u8>, b: Seq<u8>)
    ensures
        drain(a + b).0 == drain(a).0 + drain(drain(a).1 + b).0,
        drain(a + b).1 == drain(drain(a).1 + b).1,
    decreases a.len(),
{
    match decode(a, false) {
        Ok((frame, used)) => {
            if 0 < used <= a.len() {
                lemma_decode_extend(a, b, 0, false);
                lemma_drain_extend(a.skip(used), b);
                assert((a + b).skip(used) =~= a.skip(used) + b);
            }
        },
        Err(_) => {},
    }
}

/// However the bytes are cut into chunks, a connection hands out the frames
/// that it would hand out if they arrived at once.
pub proof fn lemma_feed_is_drain(pending: Seq<u8>, chunks: Seq<Seq<u8>>)
    requires
        drain(pending) == (Seq::<(FrameView, int)>::empty(), pending),
    ensures
        feed(pending, chunks) == drain(pending + concat(chunks)),
    decreases chunks.len(),
{
    if chunks.len() > 0 {
        let first = chunks[0];
        let rest = drain(pending + first).1;
        lemma_drain_settles(pending + first);
        lemma_feed_is_drain(rest, chunks.skip(1));
        lemma_drain_extend(pending + first, concat(chunks.skip(1)));
        assert((pending + first) + concat(chunks.skip(1)) =~= pending + concat(chunks));
    }
}

/// Frames that were written one after another are drained in order, each
/// with its size, and nothing is left.
pub proof fn lemma_drain_encoded(frames: Seq<FrameView>)
    requires
        forall|i: int| 0 <= i < frames.len() ==> well_formed(#[trigger] frames[i]),
        frames.len() > 0 ==> !ends_open(frames[frames.len() - 1]),
    ensures
        drain(encode_all(frames)) == (sized(frames), Seq::<u8>::empty()),
    decreases frames.len(),
{
    let s = encode_all(frames);
    if frames.len() > 0 {
        let first = frames[0];
        let rest = frames.skip(1);
        let used = encode(first).len() as int;
        assert(s.subrange(0, used) =~= encode(first));
        if rest.len() > 0 {
            lemma_encode_starts(rest[0]);
            assert(s[used] == encode_all(rest)[0]);
        }
        lemma_decode_encoded(s, 0, first, false);
        assert(s.skip(used) =~= encode_all(rest));
        lemma_drain_encoded(rest);
    }
}

/// Frames written one after another and cut into chunks at any places come
/// out of a connection as the same frames in the same order, each with the
/// number of bytes it was written as, and no byte is left over. The last
/// frame must not end in a snapshot blob: what closes a blob is the byte
/// after it.
pub proof fn lemma_incremental(frames: Seq<FrameView>, chunks: Seq<Seq<u8>>)
    requires
        forall|i: int| 0 <= i < frames.len() ==> well_formed(#[trigger] frames[i]),
        frames.len() > 0 ==> !ends_open(frames[frames.len() - 1]),
        concat(chunks) == encode_all(frames),
    ensures
        feed(Seq::empty(), chunks) == (sized(frames), Seq::<u8>::empty()),
{
    lemma_feed_is_drain(Seq::empty(), chunks);
    lemma_drain_encoded(frames);
}

} // verus!
