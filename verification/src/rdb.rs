//! The snapshot reader: the entries of the database sections of a snapshot
//! file, as far as they are strings.

use crate::ascii::copy_range;
use crate::db::{loaded, pair_views, Db, DbItem, DbItemView, DbView};
use crate::error::SnapshotError;
use vstd::prelude::*;

verus! {

/// The byte after which the sizes and the entries of a section follow.
pub const SECTION: u8 = 0xfb;

/// The byte that ends the snapshot.
pub const END: u8 = 0xff;

/// The byte before an expiry in milliseconds, eight bytes long.
pub const EXPIRY_MS: u8 = 0xfc;

/// The byte before an expiry in seconds, four bytes long.
pub const EXPIRY_S: u8 = 0xfd;

/// One entry of a snapshot.
#[derive(Debug, PartialEq, Eq)]
pub struct SnapshotEntry {
    /// The key.
    pub key: Vec<u8>,
    /// The value.
    pub value: Vec<u8>,
    /// The expiry in milliseconds; zero for an entry without one.
    pub expires_ms: u64,
}

/// Mathematical model of an entry of a snapshot.
pub struct EntryView {
    pub key: Seq<u8>,
    pub value: Seq<u8>,
    pub expires_ms: nat,
}

impl View for SnapshotEntry {
    type V = EntryView;

    open spec fn view(&self) -> EntryView {
        EntryView { key: self.key@, value: self.value@, expires_ms: self.expires_ms as nat }
    }
}

/// The models of a list of entries, in order.
pub open spec fn entry_views(entries: Seq<SnapshotEntry>) -> Seq<EntryView> {
    Seq::new(entries.len(), |i: int| entries[i]@)
}

/// The number that four bytes from `pos` on spell, most significant first.
pub open spec fn be32(s: Seq<u8>, pos: int) -> nat {
    (((s[pos] * 256 + s[pos + 1]) * 256 + s[pos + 2]) * 256 + s[pos + 3]) as nat
}

/// The number that four bytes from `pos` on spell, least significant first.
pub open spec fn le32(s: Seq<u8>, pos: int) -> nat {
    (((s[pos + 3] * 256 + s[pos + 2]) * 256 + s[pos + 1]) * 256 + s[pos]) as nat
}

/// The number that eight bytes from `pos` on spell, least significant first.
pub open spec fn le64(s: Seq<u8>, pos: int) -> nat {
    le32(s, pos) + le32(s, pos + 4) * 0x1_0000_0000
}

/// The size that is encoded at `pos`, with the index after it. The top two
/// bits of the first byte say how: the other six bits are the size; or they
/// and the next byte are; or the next four bytes are; or the size is of a
/// kind that is not supported.
pub open spec fn size_at(s: Seq<u8>, pos: int) -> Result<(nat, int), SnapshotError> {
    if pos < 0 || pos >= s.len() {
        Err(SnapshotError::MalformedSnapshot)
    } else if s[pos] / 64 == 0 {
        Ok(((s[pos] % 64) as nat, pos + 1))
    } else if s[pos] / 64 == 1 {
        if pos + 1 >= s.len() {
            Err(SnapshotError::MalformedSnapshot)
        } else {
            Ok((((s[pos] % 64) * 256 + s[pos + 1]) as nat, pos + 2))
        }
    } else if s[pos] / 64 == 2 {
        if pos + 4 >= s.len() {
            Err(SnapshotError::MalformedSnapshot)
        } else {
            Ok((be32(s, pos + 1), pos + 5))
        }
    } else {
        Err(SnapshotError::UnsupportedEncoding)
    }
}

/// The string that is encoded at `pos`, its size first, with the index
/// after it.
pub open spec fn string_at(s: Seq<u8>, pos: int) -> Result<(Seq<u8>, int), SnapshotError> {
    match size_at(s, pos) {
        Err(e) => Err(e),
        Ok((n, start)) => {
            if start + n > s.len() {
                Err(SnapshotError::MalformedSnapshot)
            } else {
                Ok((s.subrange(start, start + n), start + n))
            }
        },
    }
}

/// The entry at `pos`: the byte of the value's type, which must say string,
/// then the key and the value. The expiry is given.
pub open spec fn entry_at(s: Seq<u8>, pos: int, expires_ms: nat) -> Result<
    (EntryView, int),
    SnapshotError,
> {
    if pos < 0 || pos >= s.len() {
        Err(SnapshotError::MalformedSnapshot)
    } else if s[pos] != 0 {
        Err(SnapshotError::UnsupportedEncoding)
    } else {
        match string_at(s, pos + 1) {
            Err(e) => Err(e),
            Ok((key, after_key)) => match string_at(s, after_key) {
                Err(e) => Err(e),
                Ok((value, end)) => Ok((EntryView { key, value, expires_ms }, end)),
            },
        }
    }
}

/// The entry with expiry at `pos`: the marker and the expiry, in
/// milliseconds or in seconds, then the entry.
pub open spec fn timed_entry_at(s: Seq<u8>, pos: int) -> Result<(EntryView, int), SnapshotError> {
    if pos < 0 || pos >= s.len() {
        Err(SnapshotError::MalformedSnapshot)
    } else if s[pos] == EXPIRY_MS {
        if pos + 8 >= s.len() {
            Err(SnapshotError::MalformedSnapshot)
        } else {
            entry_at(s, pos + 9, le64(s, pos + 1))
        }
    } else if s[pos] == EXPIRY_S {
        if pos + 4 >= s.len() {
            Err(SnapshotError::MalformedSnapshot)
        } else {
            entry_at(s, pos + 5, le32(s, pos + 1) * 1000)
        }
    } else {
        Err(SnapshotError::MalformedSnapshot)
    }
}

/// The `count` entries that stand one after another from `pos` on, with the
/// index after the last. `timed` says whether each has an expiry in front.
pub open spec fn entries_at(s: Seq<u8>, pos: int, count: nat, timed: bool) -> Result<
    (Seq<EntryView>, int),
    SnapshotError,
>
    decreases count,
{
    if count == 0 {
        Ok((Seq::empty(), pos))
    } else {
        let first = if timed {
            timed_entry_at(s, pos)
        } else {
            entry_at(s, pos, 0)
        };
        match first {
            Err(e) => Err(e),
            Ok((entry, next)) => match entries_at(s, next, (count - 1) as nat, timed) {
                Err(e) => Err(e),
                Ok((rest, end)) => Ok((seq![entry] + rest, end)),
            },
        }
    }
}

/// The index of the first byte at or after `pos` that begins a section's
/// entries or ends the snapshot.
pub open spec fn marker_at(s: Seq<u8>, pos: int) -> Option<int>
    decreases s.len() - pos,
{
    if pos < 0 || pos >= s.len() {
        None
    } else if s[pos] == SECTION || s[pos] == END {
        Some(pos)
    } else {
        marker_at(s, pos + 1)
    }
}

/// The entries of the section whose marker stands at `at`, with the index
/// after them: the number of entries and the number of those with expiry,
/// then the entries without expiry, then those with.
pub open spec fn section_at(s: Seq<u8>, at: int) -> Result<(Seq<EntryView>, int), SnapshotError> {
    match size_at(s, at + 1) {
        Err(e) => Err(e),
        Ok((total, after_total)) => match size_at(s, after_total) {
            Err(e) => Err(e),
            Ok((timed, start)) => {
                if timed > total {
                    Err(SnapshotError::MalformedSnapshot)
                } else {
                    match entries_at(s, start, (total - timed) as nat, false) {
                        Err(e) => Err(e),
                        Ok((plain, middle)) => match entries_at(s, middle, timed, true) {
                            Err(e) => Err(e),
                            Ok((with_expiry, end)) => Ok((plain + with_expiry, end)),
                        },
                    }
                }
            },
        }
    }
}

/// The entries of the sections of `s` from `pos` on, in order, up to the
/// byte that ends the snapshot. What stands before a section's marker, and
/// after the end, is passed over.
pub open spec fn sections_from(s: Seq<u8>, pos: int) -> Result<Seq<EntryView>, SnapshotError>
    decreases s.len() - pos,
{
    match marker_at(s, pos) {
        None => Err(SnapshotError::MalformedSnapshot),
        Some(at) => {
            if s[at] == END {
                Ok(Seq::empty())
            } else {
                match section_at(s, at) {
                    Err(e) => Err(e),
                    Ok((entries, end)) => {
                        if end <= pos || end > s.len() {
                            Err(SnapshotError::MalformedSnapshot)
                        } else {
                            match sections_from(s, end) {
                                Err(e) => Err(e),
                                Ok(rest) => Ok(entries + rest),
                            }
                        }
                    },
                }
            }
        },
    }
}

/// The entries that the snapshot `s` holds.
pub open spec fn snapshot(s: Seq<u8>) -> Result<Seq<EntryView>, SnapshotError> {
    sections_from(s, 0)
}

/// The keys and values to load for the given entries, each written at
/// `now`.
pub open spec fn as_pairs(entries: Seq<EntryView>, now: nat) -> Seq<(Seq<u8>, DbItemView)> {
    Seq::new(
        entries.len(),
        |i: int|
            (
                entries[i].key,
                DbItemView {
                    value: entries[i].value,
                    created: now,
                    expires: entries[i].expires_ms,
                },
            ),
    )
}

/// The keyspace that a snapshot file gives at the time `now`: without a
/// file, the keyspace without keys; with one, the keyspace that holds its
/// entries, each written at `now`.
pub open spec fn restored(contents: Option<Seq<u8>>, now: nat) -> Result<DbView, SnapshotError> {
    match contents {
        None => Ok(Map::empty()),
        Some(s) => match snapshot(s) {
            Ok(entries) => Ok(loaded(as_pairs(entries, now))),
            Err(e) => Err(e),
        },
    }
}

/// The bytes of a file that may be absent.
pub open spec fn contents_view(contents: Option<&[u8]>) -> Option<Seq<u8>> {
    match contents {
        Some(bytes) => Some(bytes@),
        None => None,
    }
}




/// Reads the size that is encoded at `pos`.
fn read_size(bytes: &[u8], pos: usize) -> (r: Result<(u64, usize), SnapshotError>)
    ensures
        match size_at(bytes@, pos as int) {
            Ok((n, next)) => r matches Ok((v, p)) && v == n && p == next && pos < next
                <= bytes.len() && n <= u32::MAX,
            Err(e) => r matches Err(x) && x == e,
        },
{
    if pos >= bytes.len() {
        return Err(SnapshotError::MalformedSnapshot);
    }
    let first: u8 = bytes[pos];
    let kind: u8 = first / 64;
    let low: u64 = (first % 64) as u64;
    if kind == 0 {
        Ok((low, pos + 1))
    } else if kind == 1 {
        if bytes.len() - pos < 2 {
            return Err(SnapshotError::MalformedSnapshot);
        }
        Ok((low * 256 + bytes[pos + 1] as u64, pos + 2))
    } else if kind == 2 {
        if bytes.len() - pos < 5 {
            return Err(SnapshotError::MalformedSnapshot);
        }
        let n: u64 = ((bytes[pos + 1] as u64 * 256 + bytes[pos + 2] as u64) * 256 + bytes[pos
            + 3] as u64) * 256 + bytes[pos + 4] as u64;
        Ok((n, pos + 5))
    } else {
        Err(SnapshotError::UnsupportedEncoding)
    }
}

/// Reads the string that is encoded at `pos`.
fn read_string(bytes: &[u8], pos: usize) -> (r: Result<(Vec<u8>, usize), SnapshotError>)
    ensures
        match string_at(bytes@, pos as int) {
            Ok((text, end)) => r matches Ok((v, p)) && v@ == text && p == end && pos < end
                <= bytes.len(),
            Err(e) => r matches Err(x) && x == e,
        },
{
    let (n, start) = match read_size(bytes, pos) {
        Ok(pair) => pair,
        Err(e) => {
            return Err(e);
        },
    };
    if n > (bytes.len() - start) as u64 {
        return Err(SnapshotError::MalformedSnapshot);
    }
    let end: usize = start + n as usize;
    Ok((copy_range(bytes, start, end), end))
}

/// Reads the entry at `pos`, whose expiry is given.
fn read_entry(bytes: &[u8], pos: usize, expires_ms: u64) -> (r: Result<
    (SnapshotEntry, usize),
    SnapshotError,
>)
    ensures
        match entry_at(bytes@, pos as int, expires_ms as nat) {
            Ok((entry, end)) => r matches Ok((v, p)) && v@ == entry && p == end && pos < end
                <= bytes.len(),
            Err(e) => r matches Err(x) && x == e,
        },
{
    if pos >= bytes.len() {
        return Err(SnapshotError::MalformedSnapshot);
    }
    if bytes[pos] != 0 {
        return Err(SnapshotError::UnsupportedEncoding);
    }
    let (key, after_key) = match read_string(bytes, pos + 1) {
        Ok(pair) => pair,
        Err(e) => {
            return Err(e);
        },
    };
    let (value, end) = match read_string(bytes, after_key) {
        Ok(pair) => pair,
        Err(e) => {
            return Err(e);
        },
    };
    Ok((SnapshotEntry { key, value, expires_ms }, end))
}

/// Reads four bytes from `pos` on as a number, least significant first.
fn read_le32(bytes: &[u8], pos: usize) -> (n: u64)
    requires
        pos + 4 <= bytes.len(),
    ensures
        n == le32(bytes@, pos as int),
        n <= u32::MAX,
{
    ((bytes[pos + 3] as u64 * 256 + bytes[pos + 2] as u64) * 256 + bytes[pos + 1] as u64) * 256
        + bytes[pos] as u64
}

/// Reads the entry with expiry at `pos`.
fn read_timed_entry(bytes: &[u8], pos: usize) -> (r: Result<(SnapshotEntry, usize), SnapshotError>)
    ensures
        match timed_entry_at(bytes@, pos as int) {
            Ok((entry, end)) => r matches Ok((v, p)) && v@ == entry && p == end && pos < end
                <= bytes.len(),
            Err(e) => r matches Err(x) && x == e,
        },
{
    if pos >= bytes.len() {
        return Err(SnapshotError::MalformedSnapshot);
    }
    let marker: u8 = bytes[pos];
    if marker == EXPIRY_MS {
        if bytes.len() - pos < 9 {
            return Err(SnapshotError::MalformedSnapshot);
        }
        let low: u64 = read_le32(bytes, pos + 1);
        let high: u64 = read_le32(bytes, pos + 5);
        read_entry(bytes, pos + 9, low + high * 0x1_0000_0000)
    } else if marker == EXPIRY_S {
        if bytes.len() - pos < 5 {
            return Err(SnapshotError::MalformedSnapshot);
        }
        let seconds: u64 = read_le32(bytes, pos + 1);
        read_entry(bytes, pos + 5, seconds * 1000)
    } else {
        Err(SnapshotError::MalformedSnapshot)
    }
}

/// Appending an entry appends its model.
proof fn lemma_entry_views_push(entries: Seq<SnapshotEntry>, last: SnapshotEntry)
    ensures
        entry_views(entries.push(last)) == entry_views(entries).push(last@),
{
    assert(entry_views(entries.push(last)) =~= entry_views(entries).push(last@));
}

/// Reads `count` entries from `pos` on and appends them to `out`.
fn read_entries(
    bytes: &[u8],
    pos: usize,
    count: u64,
    timed: bool,
    out: &mut Vec<SnapshotEntry>,
) -> (r: Result<usize, SnapshotError>)
    requires
        pos <= bytes.len(),
    ensures
        match entries_at(bytes@, pos as int, count as nat, timed) {
            Ok((entries, end)) => r matches Ok(p) && p == end && pos <= end <= bytes.len()
                && entry_views(final(out)@) == entry_views(old(out)@) + entries,
            Err(e) => r matches Err(x) && x == e,
        },
{
    let ghost s = bytes@;
    let ghost before = entry_views(out@);
    let mut at: usize = pos;
    let mut left: u64 = count;
    proof {
        assert(before + Seq::<EntryView>::empty() =~= before);
    }
    while left > 0
        invariant
            s == bytes@,
            pos <= at <= bytes.len(),
            left <= count,
            match entries_at(s, at as int, left as nat, timed) {
                Ok((rest, end)) => entries_at(s, pos as int, count as nat, timed) matches Ok(
                    (all, e),
                ) && e == end && before + all == entry_views(out@) + rest,
                Err(x) => entries_at(s, pos as int, count as nat, timed) == Err::<
                    (Seq<EntryView>, int),
                    SnapshotError,
                >(x),
            },
        decreases left,
    {
        let one = if timed {
            read_timed_entry(bytes, at)
        } else {
            read_entry(bytes, at, 0)
        };
        match one {
            Err(e) => {
                return Err(e);
            },
            Ok((entry, next)) => {
                proof {
                    lemma_entry_views_push(out@, entry);
                    match entries_at(s, next as int, (left - 1) as nat, timed) {
                        Ok((rest, end)) => {
                            assert(entry_views(out@) + (seq![entry@] + rest) =~= entry_views(
                                out@,
                            ).push(entry@) + rest);
                        },
                        Err(x) => {},
                    }
                }
                out.push(entry);
                at = next;
                left = left - 1;
            },
        }
    }
    proof {
        assert(entry_views(out@) + Seq::<EntryView>::empty() =~= entry_views(out@));
    }
    Ok(at)
}

/// Finds the first byte at or after `pos` that begins a section's entries
/// or ends the snapshot.
fn find_marker(bytes: &[u8], pos: usize) -> (r: Option<usize>)
    ensures
        match marker_at(bytes@, pos as int) {
            Some(at) => r == Some(at as usize) && pos <= at < bytes.len(),
            None => r is None,
        },
{
    let mut i: usize = pos;
    while i < bytes.len()
        invariant
            pos <= i,
            marker_at(bytes@, pos as int) == marker_at(bytes@, i as int),
        decreases bytes.len() - i,
    {
        if bytes[i] == SECTION || bytes[i] == END {
            return Some(i);
        }
        i = i + 1;
    }
    None
}

/// Reads the entries of the section whose marker stands at `at` and appends
/// them to `out`.
fn read_section(bytes: &[u8], at: usize, out: &mut Vec<SnapshotEntry>) -> (r: Result<
    usize,
    SnapshotError,
>)
    requires
        at < bytes.len(),
    ensures
        match section_at(bytes@, at as int) {
            Ok((entries, end)) => r matches Ok(p) && p == end && at < end <= bytes.len()
                && entry_views(final(out)@) == entry_views(old(out)@) + entries,
            Err(e) => r matches Err(x) && x == e,
        },
{
    let (total, after_total) = match read_size(bytes, at + 1) {
        Ok(pair) => pair,
        Err(e) => {
            return Err(e);
        },
    };
    let (timed, start) = match read_size(bytes, after_total) {
        Ok(pair) => pair,
        Err(e) => {
            return Err(e);
        },
    };
    if timed > total {
        return Err(SnapshotError::MalformedSnapshot);
    }
    let middle = match read_entries(bytes, start, total - timed, false, out) {
        Ok(p) => p,
        Err(e) => {
            return Err(e);
        },
    };
    let ghost plain = entries_at(bytes@, start as int, (total - timed) as nat, false)->Ok_0.0;
    let end = match read_entries(bytes, middle, timed, true, out) {
        Ok(p) => p,
        Err(e) => {
            return Err(e);
        },
    };
    proof {
        let with_expiry = entries_at(bytes@, middle as int, timed as nat, true)->Ok_0.0;
        assert((entry_views(old(out)@) + plain) + with_expiry =~= entry_views(old(out)@) + (plain
            + with_expiry));
    }
    Ok(end)
}

/// Reads the entries of a snapshot, in the order in which they stand.
pub fn parse_rdb(bytes: &[u8]) -> (r: Result<Vec<SnapshotEntry>, SnapshotError>)
    ensures
        match snapshot(bytes@) {
            Ok(entries) => r matches Ok(v) && entry_views(v@) == entries,
            Err(e) => r matches Err(x) && x == e,
        },
{
    let ghost s = bytes@;
    let mut out: Vec<SnapshotEntry> = Vec::new();
    let mut pos: usize = 0;
    proof {
        assert(entry_views(out@) =~= Seq::<EntryView>::empty());
        match sections_from(s, 0) {
            Ok(rest) => {
                assert(entry_views(out@) + rest =~= rest);
            },
            Err(e) => {},
        }
    }
    loop
        invariant
            s == bytes@,
            pos <= bytes.len(),
            match sections_from(s, pos as int) {
                Ok(rest) => snapshot(s) == Ok::<Seq<EntryView>, SnapshotError>(
                    entry_views(out@) + rest,
                ),
                Err(e) => snapshot(s) == Err::<Seq<EntryView>, SnapshotError>(e),
            },
        decreases bytes.len() - pos,
    {
        let at = match find_marker(bytes, pos) {
            Some(at) => at,
            None => {
                return Err(SnapshotError::MalformedSnapshot);
            },
        };
        if bytes[at] == END {
            proof {
                assert(entry_views(out@) + Seq::<EntryView>::empty() =~= entry_views(out@));
            }
            return Ok(out);
        }
        let ghost before = entry_views(out@);
        let end = match read_section(bytes, at, &mut out) {
            Ok(p) => p,
            Err(e) => {
                return Err(e);
            },
        };
        proof {
            let entries = section_at(s, at as int)->Ok_0.0;
            match sections_from(s, end as int) {
                Ok(rest) => {
                    assert(before + (entries + rest) =~= (before + entries) + rest);
                },
                Err(e) => {},
            }
        }
        pos = end;
    }
}

/// Reads the snapshot file whose contents are given, at the time `now`, and
/// gives the keyspace to start with. A file that does not exist gives the
/// keyspace without keys.
pub fn parse_rdb_file(contents: Option<&[u8]>, now: u64) -> (r: Result<Db, SnapshotError>)
    ensures
        match restored(contents_view(contents), now as nat) {
            Ok(model) => r matches Ok(db) && db.wf() && db@ == model,
            Err(e) => r matches Err(x) && x == e,
        },
{
    let mut db = Db::new();
    let bytes = match contents {
        Some(bytes) => bytes,
        None => {
            return Ok(db);
        },
    };
    let entries = match parse_rdb(bytes) {
        Ok(entries) => entries,
        Err(e) => {
            return Err(e);
        },
    };
    let ghost models = as_pairs(entry_views(entries@), now as nat);
    let mut pairs: Vec<(Vec<u8>, DbItem)> = Vec::new();
    let mut i: usize = 0;
    while i < entries.len()
        invariant
            i <= entries.len(),
            models == as_pairs(entry_views(entries@), now as nat),
            pair_views(pairs@) == models.take(i as int),
        decreases entries.len() - i,
    {
        let entry = &entries[i];
        let item = DbItem::new(entry.value.clone(), now, entry.expires_ms);
        let key = entry.key.clone();
        proof {
            assert(pair_views(pairs@.push((key, item))) =~= pair_views(pairs@).push(
                (key@, item@),
            ));
            assert(models.take(i as int).push(models[i as int]) =~= models.take(i + 1));
        }
        pairs.push((key, item));
        i = i + 1;
    }
    proof {
        assert(models.take(i as int) =~= models);
    }
    db.bulk_load(pairs);
    Ok(db)
}

} // verus!
