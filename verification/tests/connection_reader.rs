use redis_lite::connection::Connection;
use redis_lite::error::FrameError;
use redis_lite::frame::Frame;

fn bulk(text: &str) -> Frame {
    Frame::BulkString(text.as_bytes().to_vec())
}

fn command(words: &[&str]) -> Frame {
    Frame::Array(words.iter().map(|w| bulk(w)).collect())
}

/// Feeds the chunks one by one and collects what comes out.
fn feed(chunks: &[&[u8]]) -> (Vec<(Frame, usize)>, usize) {
    let mut conn = Connection::new();
    let mut out = Vec::new();
    for chunk in chunks {
        if let Some(frames) = conn.read_frames(chunk).unwrap() {
            out.extend(frames);
        }
    }
    (out, conn.pending())
}

#[test]
fn new_connection_holds_nothing() {
    assert_eq!(Connection::new().pending(), 0);
}

#[test]
fn end_of_stream_gives_none() {
    let mut conn = Connection::new();
    assert_eq!(conn.read_frames(b""), Ok(None));
    assert_eq!(conn.pending(), 0);
}

#[test]
fn end_of_stream_keeps_what_is_pending() {
    let mut conn = Connection::new();
    assert_eq!(conn.read_frames(b"+PO"), Ok(Some(vec![])));
    assert_eq!(conn.read_frames(b""), Ok(None));
    assert_eq!(conn.pending(), 3);
}

#[test]
fn one_frame_in_one_read() {
    let mut conn = Connection::new();
    assert_eq!(
        conn.read_frames(b"*1\r\n$4\r\nPING\r\n"),
        Ok(Some(vec![(command(&["PING"]), 14)]))
    );
    assert_eq!(conn.pending(), 0);
}

#[test]
fn two_frames_in_one_read() {
    let mut conn = Connection::new();
    let bytes = b"*3\r\n$3\r\nSET\r\n$3\r\nfoo\r\n$3\r\nbar\r\n*2\r\n$3\r\nGET\r\n$3\r\nfoo\r\n";
    assert_eq!(
        conn.read_frames(bytes),
        Ok(Some(vec![
            (command(&["SET", "foo", "bar"]), 31),
            (command(&["GET", "foo"]), 22),
        ]))
    );
    assert_eq!(conn.pending(), 0);
}

#[test]
fn partial_frame_is_retained() {
    let mut conn = Connection::new();
    assert_eq!(conn.read_frames(b"*2\r\n$3\r\nGET\r\n$3\r\nfo"), Ok(Some(vec![])));
    assert_eq!(conn.pending(), 19);
    assert_eq!(
        conn.read_frames(b"o\r\n"),
        Ok(Some(vec![(command(&["GET", "foo"]), 22)]))
    );
    assert_eq!(conn.pending(), 0);
}

#[test]
fn complete_frame_and_partial_tail() {
    let mut conn = Connection::new();
    assert_eq!(
        conn.read_frames(b"+OK\r\n$3\r\nba"),
        Ok(Some(vec![(Frame::SimpleString(b"OK".to_vec()), 5)]))
    );
    assert_eq!(conn.pending(), 6);
    assert_eq!(conn.read_frames(b"r\r\n"), Ok(Some(vec![(bulk("bar"), 9)])));
    assert_eq!(conn.pending(), 0);
}

#[test]
fn bulk_string_split_before_its_crlf_is_not_taken_for_a_blob() {
    let (frames, pending) = feed(&[b"$3\r\nabc", b"\r\n"]);
    assert_eq!(frames, vec![(bulk("abc"), 9)]);
    assert_eq!(pending, 0);
    let (frames, pending) = feed(&[b"$3\r\nabc\r", b"\n"]);
    assert_eq!(frames, vec![(bulk("abc"), 9)]);
    assert_eq!(pending, 0);
}

#[test]
fn every_cut_in_two_gives_the_same_frames() {
    let frames = vec![
        command(&["SET", "a\r\nb", "1"]),
        Frame::SimpleString(b"OK".to_vec()),
        Frame::NullBulkString,
        Frame::Array(vec![Frame::Array(vec![]), bulk("")]),
        Frame::SnapshotBlob(b"\r\nblob".to_vec()),
        command(&["PING"]),
    ];
    let mut stream = Vec::new();
    let mut expected = Vec::new();
    for frame in &frames {
        let bytes = frame.clone().serialize();
        expected.push((frame.clone(), bytes.len()));
        stream.extend(bytes);
    }
    for cut in 0..=stream.len() {
        let (out, pending) = feed(&[&stream[..cut], &stream[cut..]]);
        assert_eq!(out, expected);
        assert_eq!(pending, 0);
    }
}

#[test]
fn byte_by_byte_gives_the_same_frames() {
    let frames = vec![
        command(&["SET", "key", "value", "px", "100"]),
        command(&["GET", "key"]),
        Frame::Array(vec![Frame::SnapshotBlob(b"xyz".to_vec()), bulk("after")]),
    ];
    let mut stream = Vec::new();
    let mut expected = Vec::new();
    for frame in &frames {
        let bytes = frame.clone().serialize();
        expected.push((frame.clone(), bytes.len()));
        stream.extend(bytes);
    }
    let chunks: Vec<&[u8]> = stream.chunks(1).collect();
    let (out, pending) = feed(&chunks);
    assert_eq!(out, expected);
    assert_eq!(pending, 0);
    let total: usize = out.iter().map(|(_, used)| used).sum();
    assert_eq!(total, stream.len());
}

#[test]
fn snapshot_blob_at_the_end_waits_for_the_next_byte() {
    let mut conn = Connection::new();
    assert_eq!(
        conn.read_frames(b"+FULLRESYNC abc 0\r\n$3\r\nxyz"),
        Ok(Some(vec![(
            Frame::SimpleString(b"FULLRESYNC abc 0".to_vec()),
            19
        )]))
    );
    assert_eq!(conn.pending(), 7);
    assert_eq!(
        conn.read_frames(b"*1\r\n$4\r\nPING\r\n"),
        Ok(Some(vec![
            (Frame::SnapshotBlob(b"xyz".to_vec()), 7),
            (command(&["PING"]), 14),
        ]))
    );
    assert_eq!(conn.pending(), 0);
}

#[test]
fn malformed_bytes_are_an_error() {
    let mut conn = Connection::new();
    assert_eq!(
        conn.read_frames(b"hello\r\n"),
        Err(FrameError::MalformedFrame)
    );
    assert_eq!(conn.pending(), 7);
}

#[test]
fn frames_in_front_of_malformed_bytes_come_out_first() {
    let mut conn = Connection::new();
    assert_eq!(
        conn.read_frames(b"+OK\r\n?what"),
        Ok(Some(vec![(Frame::SimpleString(b"OK".to_vec()), 5)]))
    );
    assert_eq!(conn.pending(), 5);
    assert_eq!(conn.read_frames(b"\r\n"), Err(FrameError::MalformedFrame));
}

#[test]
fn malformed_stays_malformed() {
    let mut conn = Connection::new();
    assert_eq!(conn.read_frames(b"$x\r\n"), Err(FrameError::MalformedFrame));
    assert_eq!(conn.read_frames(b"+OK\r\n"), Err(FrameError::MalformedFrame));
}
