//! Cache dumps on disk: settings, version directories, file names and the
//! record format of a shard file.

use crate::config::Dump;
use crate::map::token_is_cancelled;
use crate::text::{chars_of, decimal, is_unsigned_text, parse_u64_from, push_decimal, push_str, string_from_chars, unsigned_value};
use tokio_util::sync::CancellationToken;
use vstd::prelude::*;

verus! {

/// Why a dump was refused.
pub struct DumpNotEnabledError;

impl DumpNotEnabledError {
    /// The message that the error is reported with.
    pub fn message(&self) -> (r: &'static str)
        ensures
            r@ == "persistence mode is not enabled"@,
    {
        "persistence mode is not enabled"
    }
}

/// Directory of the dumps where none is configured.
pub const DEFAULT_DUMP_DIR: &'static str = "public/dump";

/// File name prefix of the dumps where none is configured.
pub const DEFAULT_DUMP_NAME: &'static str = "cache.dump";

/// Number of dump versions kept where none is configured.
pub const DEFAULT_MAX_VERSIONS: usize = 3;

/// The configured dump directory, or the default.
pub fn dump_dir(dump: Option<&Dump>) -> (r: String)
    ensures
        r@ == match dump {
            Some(d) => match d.dir {
                Some(s) => s@,
                None => DEFAULT_DUMP_DIR@,
            },
            None => DEFAULT_DUMP_DIR@,
        },
{
    match dump {
        Some(d) => match &d.dir {
            Some(s) => s.clone(),
            None => String::from_str(DEFAULT_DUMP_DIR),
        },
        None => String::from_str(DEFAULT_DUMP_DIR),
    }
}

/// The configured dump file prefix, or the default.
pub fn dump_name(dump: Option<&Dump>) -> (r: String)
    ensures
        r@ == match dump {
            Some(d) => match d.name {
                Some(s) => s@,
                None => DEFAULT_DUMP_NAME@,
            },
            None => DEFAULT_DUMP_NAME@,
        },
{
    match dump {
        Some(d) => match &d.name {
            Some(s) => s.clone(),
            None => String::from_str(DEFAULT_DUMP_NAME),
        },
        None => String::from_str(DEFAULT_DUMP_NAME),
    }
}

/// The configured number of versions to keep, or the default.
pub fn max_versions(dump: Option<&Dump>) -> (r: usize)
    ensures
        r == match dump {
            Some(d) => match d.max_versions {
                Some(n) => n,
                None => DEFAULT_MAX_VERSIONS,
            },
            None => DEFAULT_MAX_VERSIONS,
        },
{
    match dump {
        Some(d) => match d.max_versions {
            Some(n) => n,
            None => DEFAULT_MAX_VERSIONS,
        },
        None => DEFAULT_MAX_VERSIONS,
    }
}

/// Whether dump files are gzip-compressed (off by default).
pub fn gzip_enabled(dump: Option<&Dump>) -> (r: bool)
    ensures
        r == match dump {
            Some(d) => d.gzip,
            None => false,
        },
{
    match dump {
        Some(d) => d.gzip,
        None => false,
    }
}

/// Whether records carry a CRC32 checksum (on by default).
pub fn crc32_enabled(dump: Option<&Dump>) -> (r: bool)
    ensures
        r == match dump {
            Some(d) => d.crc32_control,
            None => true,
        },
{
    match dump {
        Some(d) => d.crc32_control,
        None => true,
    }
}

/// A dump may be written only with a dump section that is enabled, while
/// the cache is enabled.
pub fn check_dump_enabled(cache_enabled: bool, dump: Option<&Dump>) -> (r: Result<(), DumpNotEnabledError>)
    ensures
        r is Ok <==> (cache_enabled && (dump matches Some(d) && d.enabled)),
{
    match dump {
        Some(d) => {
            if cache_enabled && d.enabled {
                Ok(())
            } else {
                Err(DumpNotEnabledError)
            }
        },
        None => Err(DumpNotEnabledError),
    }
}

/// The number of a version directory name `v<N>`, where `N` reads as a
/// `u32` the way `str::parse` reads one.
pub open spec fn version_number(name: Seq<char>) -> Option<u32> {
    if name.len() > 0 && name[0] == 'v' && is_unsigned_text(name.drop_first())
        && unsigned_value(name.drop_first()) <= u32::MAX {
        Some(unsigned_value(name.drop_first()) as u32)
    } else {
        None
    }
}

/// Reads the number of a version directory name.
pub fn version_of(name: &str) -> (r: Option<u32>)
    ensures
        r == version_number(name@),
{
    let cs = chars_of(name);
    if cs.len() == 0 || cs[0] != 'v' {
        return None;
    }
    assert(cs@.skip(1) =~= name@.drop_first());
    match parse_u64_from(&cs, 1) {
        Some(v) => {
            if v <= u32::MAX as u64 {
                Some(v as u32)
            } else {
                None
            }
        },
        None => None,
    }
}

/// The largest version number among the names (zero for none).
pub open spec fn max_version(names: Seq<Seq<char>>) -> u32
    decreases names.len(),
{
    if names.len() == 0 {
        0
    } else {
        let rest = max_version(names.drop_last());
        match version_number(names.last()) {
            Some(v) => if v > rest { v } else { rest },
            None => rest,
        }
    }
}

/// The names as character sequences.
pub open spec fn names_view(names: Seq<String>) -> Seq<Seq<char>> {
    names.map_values(|s: String| s@)
}

/// The number of the next version directory: one past the largest among
/// the names, none where that would not fit in a `u32`.
pub fn next_version_dir(names: &Vec<String>) -> (r: Option<u32>)
    ensures
        r == if max_version(names_view(names@)) < u32::MAX {
            Some((max_version(names_view(names@)) + 1) as u32)
        } else {
            None::<u32>
        },
{
    let ghost all = names_view(names@);
    let mut max_v: u32 = 0;
    let mut i: usize = 0;
    while i < names.len()
        invariant
            i <= names@.len(),
            all == names_view(names@),
            max_v == max_version(all.take(i as int)),
        decreases names@.len() - i,
    {
        let v = version_of(names[i].as_str());
        proof {
            let t = all.take(i + 1);
            assert(t.drop_last() =~= all.take(i as int));
            assert(t.last() == names@[i as int]@);
        }
        match v {
            Some(n) => {
                if n > max_v {
                    max_v = n;
                }
            },
            None => {},
        }
        i = i + 1;
    }
    assert(all.take(i as int) =~= all);
    if max_v < u32::MAX {
        Some(max_v + 1)
    } else {
        None
    }
}

/// The place of entry `i` when the entries are sorted newest first by
/// modification time, ties kept in their order: the entries counted among
/// the first `n` that are newer, or as new and earlier.
pub open spec fn rank_among(mtimes: Seq<u128>, i: int, n: int) -> nat
    decreases n,
{
    if n <= 0 {
        0
    } else {
        let j = n - 1;
        rank_among(mtimes, i, j) + if mtimes[j] > mtimes[i] || (j < i && mtimes[j] == mtimes[i]) {
            1nat
        } else {
            0nat
        }
    }
}

/// The place of entry `i` in the newest-first order.
pub open spec fn newest_rank(mtimes: Seq<u128>, i: int) -> nat {
    rank_among(mtimes, i, mtimes.len() as int)
}

fn rank_of(mtimes: &Vec<u128>, i: usize) -> (r: usize)
    requires
        i < mtimes@.len(),
    ensures
        r == newest_rank(mtimes@, i as int),
{
    let mut count: usize = 0;
    let mut j: usize = 0;
    while j < mtimes.len()
        invariant
            j <= mtimes@.len(),
            i < mtimes@.len(),
            count == rank_among(mtimes@, i as int, j as int),
            count <= j,
        decreases mtimes@.len() - j,
    {
        if mtimes[j] > mtimes[i] || (j < i && mtimes[j] == mtimes[i]) {
            count = count + 1;
        }
        j = j + 1;
    }
    count
}

/// The entries to delete when only the `max` newest are kept: those whose
/// place in the newest-first order is `max` or later, in their order.
pub open spec fn beyond_newest(mtimes: Seq<u128>, max: nat, n: int) -> Seq<usize>
    decreases n,
{
    if n <= 0 {
        Seq::empty()
    } else {
        let rest = beyond_newest(mtimes, max, n - 1);
        if newest_rank(mtimes, n - 1) >= max {
            rest.push((n - 1) as usize)
        } else {
            rest
        }
    }
}

/// The version directories (by index, given their modification times) that
/// are deleted so that only the `max` newest remain.
pub fn dirs_to_remove(mtimes: &Vec<u128>, max: usize) -> (r: Vec<usize>)
    ensures
        r@ == beyond_newest(mtimes@, max as nat, mtimes@.len() as int),
{
    let mut out: Vec<usize> = Vec::new();
    let mut i: usize = 0;
    while i < mtimes.len()
        invariant
            i <= mtimes@.len(),
            out@ == beyond_newest(mtimes@, max as nat, i as int),
        decreases mtimes@.len() - i,
    {
        if rank_of(mtimes, i) >= max {
            out.push(i);
        }
        i = i + 1;
    }
    out
}

/// The newest version directory (by index, given their modification
/// times): the first of those with the latest time; none without any.
pub fn latest_version_index(mtimes: &Vec<u128>) -> (r: Option<usize>)
    ensures
        r is None <==> mtimes@.len() == 0,
        r matches Some(i) ==> i < mtimes@.len() && newest_rank(mtimes@, i as int) == 0,
{
    if mtimes.len() == 0 {
        return None;
    }
    let mut best: usize = 0;
    let mut i: usize = 1;
    while i < mtimes.len()
        invariant
            1 <= i <= mtimes@.len(),
            best < i,
            forall|j: int| 0 <= j < i ==> mtimes@[j] <= mtimes@[best as int],
            forall|j: int| 0 <= j < best ==> mtimes@[j] < mtimes@[best as int],
        decreases mtimes@.len() - i,
    {
        if mtimes[i] > mtimes[best] {
            best = i;
        }
        i = i + 1;
    }
    proof {
        lemma_rank_zero(mtimes@, best as int, mtimes@.len() as int);
    }
    Some(best)
}

proof fn lemma_rank_zero(mtimes: Seq<u128>, b: int, n: int)
    requires
        0 <= b < mtimes.len(),
        0 <= n <= mtimes.len(),
        forall|j: int| 0 <= j < mtimes.len() ==> mtimes[j] <= mtimes[b],
        forall|j: int| 0 <= j < b ==> mtimes[j] < mtimes[b],
    ensures
        rank_among(mtimes, b, n) == 0,
    decreases n,
{
    if n > 0 {
        lemma_rank_zero(mtimes, b, n - 1);
    }
}

/// One bit step of the reflected CRC-32 (IEEE 802.3, polynomial
/// 0xEDB88320).
pub open spec fn crc_bit(c: u32) -> u32 {
    if c & 1 == 1 {
        (c >> 1) ^ 0xEDB8_8320u32
    } else {
        c >> 1
    }
}

/// `k` bit steps.
pub open spec fn crc_bits(c: u32, k: nat) -> u32
    decreases k,
{
    if k == 0 {
        c
    } else {
        crc_bit(crc_bits(c, (k - 1) as nat))
    }
}

/// The CRC register after the bytes.
pub open spec fn crc_update(c: u32, data: Seq<u8>) -> u32
    decreases data.len(),
{
    if data.len() == 0 {
        c
    } else {
        crc_update(crc_bits(c ^ (data[0] as u32), 8), data.drop_first())
    }
}

/// The CRC-32 (IEEE) checksum of the bytes.
pub open spec fn crc32_ieee(data: Seq<u8>) -> u32 {
    crc_update(0xFFFF_FFFFu32, data) ^ 0xFFFF_FFFFu32
}

/// Calls `crc32fast::hash`, which computes the CRC-32 (IEEE) checksum.
#[verifier::external_body]
fn crc32_hash(data: &[u8]) -> (r: u32)
    ensures
        r == crc32_ieee(data@),
{
    crc32fast::hash(data)
}

/// The little-endian bytes of a `u32`.
pub open spec fn u32_le(v: u32) -> Seq<u8> {
    seq![(v % 256) as u8, ((v / 256) % 256) as u8, ((v / 65536) % 256) as u8, ((v / 16777216) % 256) as u8]
}

/// The `u32` stored little-endian at `at`.
pub open spec fn le_u32_at(data: Seq<u8>, at: int) -> u32 {
    (data[at] + 256 * data[at + 1] + 65536 * data[at + 2] + 16777216 * data[at + 3]) as u32
}

/// The checksum stored with an entry: its CRC-32 where checksums are on,
/// else zero.
pub open spec fn record_checksum(entry: Seq<u8>, crc32_control: bool) -> u32 {
    if crc32_control {
        crc32_ieee(entry)
    } else {
        0
    }
}

/// A record of a shard file: the entry's length (taken modulo 2^32) and
/// checksum, each as four little-endian bytes, then the entry.
pub open spec fn record_bytes(entry: Seq<u8>, crc32_control: bool) -> Seq<u8> {
    u32_le(entry.len() as u32) + u32_le(record_checksum(entry, crc32_control)) + entry
}

pub(crate) fn push_u32_le(out: &mut Vec<u8>, v: u32)
    ensures
        final(out)@ == old(out)@ + u32_le(v),
{
    out.push((v % 256) as u8);
    out.push(((v / 256) % 256) as u8);
    out.push(((v / 65536) % 256) as u8);
    out.push(((v / 16777216) % 256) as u8);
    assert(out@ =~= old(out)@ + u32_le(v));
}

/// Appends the record of an entry.
pub fn encode_record(out: &mut Vec<u8>, entry: &[u8], crc32_control: bool)
    ensures
        final(out)@ == old(out)@ + record_bytes(entry@, crc32_control),
{
    let crc: u32 = if crc32_control {
        crc32_hash(entry)
    } else {
        0
    };
    let len: u32 = entry.len() as u32;
    push_u32_le(out, len);
    push_u32_le(out, crc);
    let ghost mid = out@;
    let mut i: usize = 0;
    while i < entry.len()
        invariant
            i <= entry@.len(),
            out@ == mid + entry@.take(i as int),
        decreases entry@.len() - i,
    {
        out.push(entry[i]);
        assert(entry@.take(i + 1) =~= entry@.take(i as int).push(entry@[i as int]));
        i = i + 1;
    }
    assert(entry@.take(i as int) =~= entry@);
    assert(out@ =~= old(out)@ + record_bytes(entry@, crc32_control));
}

/// The records of the first `n` entries, one after another.
pub open spec fn records_of(entries: Seq<Vec<u8>>, crc32_control: bool, n: int) -> Seq<u8>
    decreases n,
{
    if n <= 0 {
        Seq::empty()
    } else {
        records_of(entries, crc32_control, n - 1) + record_bytes(entries[n - 1]@, crc32_control)
    }
}

/// The contents of a shard file: the records of the entries, in order,
/// until shutdown is requested. Returns the bytes and how many entries
/// they hold.
pub fn encode_shard(entries: &Vec<Vec<u8>>, crc32_control: bool, token: &CancellationToken) -> (r: (Vec<u8>, usize))
    ensures
        r.1 <= entries@.len(),
        r.0@ == records_of(entries@, crc32_control, r.1 as int),
{
    let mut out: Vec<u8> = Vec::new();
    let mut i: usize = 0;
    while i < entries.len()
        invariant
            i <= entries@.len(),
            out@ == records_of(entries@, crc32_control, i as int),
        decreases entries@.len() - i,
    {
        if token_is_cancelled(token) {
            break;
        }
        encode_record(&mut out, entries[i].as_slice(), crc32_control);
        i = i + 1;
    }
    (out, i)
}

/// What reading a shard file finds, given at most `steps` records more:
/// where each entry starts and how long it is, and how many records
/// failed. Fewer than eight bytes left end the file; an entry cut short is
/// a failure that ends it; a checksum that does not match (where checksums
/// are on) is a failure that skips the entry.
pub open spec fn scan_from(data: Seq<u8>, pos: int, crc32_control: bool, steps: nat) -> (Seq<(int, int)>, int)
    decreases steps,
{
    if steps == 0 || data.len() - pos < 8 {
        (Seq::empty(), 0)
    } else {
        let size = le_u32_at(data, pos) as int;
        let start = pos + 8;
        if data.len() - start < size {
            (Seq::empty(), 1)
        } else {
            let rest = scan_from(data, start + size, crc32_control, (steps - 1) as nat);
            if crc32_control && crc32_ieee(data.subrange(start, start + size)) != le_u32_at(data, pos + 4) {
                (rest.0, rest.1 + 1)
            } else {
                (seq![(start, size)] + rest.0, rest.1)
            }
        }
    }
}

/// The entry ranges as integers.
pub open spec fn ranges_view(found: Seq<(usize, usize)>) -> Seq<(int, int)> {
    found.map_values(|p: (usize, usize)| (p.0 as int, p.1 as int))
}

/// The ranges and failure count are what reading `steps` records finds.
pub open spec fn scan_matches(found: Seq<(usize, usize)>, failures: u64, data: Seq<u8>, crc32_control: bool, steps: nat) -> bool {
    let s = scan_from(data, 0, crc32_control, steps);
    &&& ranges_view(found) == s.0
    &&& failures as int == s.1
}

/// Where the entries of a shard file are, and how many records failed,
/// read until the end or until shutdown is requested (after some number of
/// records). Each found entry is a range of `data`.
pub fn scan_records(data: &[u8], crc32_control: bool, token: &CancellationToken) -> (r: (Vec<(usize, usize)>, u64))
    ensures
        exists|steps: nat| #[trigger] scan_matches(r.0@, r.1, data@, crc32_control, steps),
{
    let ghost full = data@;
    let mut found: Vec<(usize, usize)> = Vec::new();
    let mut failures: u64 = 0;
    let mut pos: usize = 0;
    let ghost mut done: nat = 0;
    assert forall|steps: nat| #[trigger] scan_from(full, 0, crc32_control, steps + done)
        == (ranges_view(found@) + scan_from(full, pos as int, crc32_control, steps).0,
            failures + scan_from(full, pos as int, crc32_control, steps).1) by {
        assert(ranges_view(found@) + scan_from(full, pos as int, crc32_control, steps).0
            =~= scan_from(full, pos as int, crc32_control, steps).0);
    }
    loop
        invariant
            pos <= data@.len(),
            full == data@,
            failures <= done,
            done <= pos,
            forall|steps: nat| #[trigger] scan_from(full, 0, crc32_control, steps + done)
                == (ranges_view(found@) + scan_from(full, pos as int, crc32_control, steps).0,
                    failures + scan_from(full, pos as int, crc32_control, steps).1),
        decreases data@.len() - pos,
    {
        if token_is_cancelled(token) {
            proof {
                assert(scan_from(full, 0, crc32_control, 0 + done) == (ranges_view(found@) + scan_from(full, pos as int, crc32_control, 0).0,
                    failures + scan_from(full, pos as int, crc32_control, 0).1));
                assert(ranges_view(found@) + Seq::<(int, int)>::empty() =~= ranges_view(found@));
                assert(scan_matches(found@, failures, data@, crc32_control, done));
            }
            let r = (found, failures);
            assert(scan_matches(r.0@, r.1, data@, crc32_control, done));
            return r;
        }
        if data.len() - pos < 8 {
            proof {
                assert(scan_from(full, 0, crc32_control, 0 + done) == (ranges_view(found@) + scan_from(full, pos as int, crc32_control, 0).0,
                    failures + scan_from(full, pos as int, crc32_control, 0).1));
                assert(ranges_view(found@) + Seq::<(int, int)>::empty() =~= ranges_view(found@));
                assert(scan_matches(found@, failures, data@, crc32_control, done));
            }
            let r = (found, failures);
            assert(scan_matches(r.0@, r.1, data@, crc32_control, done));
            return r;
        }
        let size: usize = (data[pos] as usize) + 256 * (data[pos + 1] as usize) + 65536 * (data[pos + 2] as usize)
            + 16777216 * (data[pos + 3] as usize);
        let stored: u32 = (data[pos + 4] as u32) + 256 * (data[pos + 5] as u32) + 65536 * (data[pos + 6] as u32)
            + 16777216 * (data[pos + 7] as u32);
        assert(size == le_u32_at(full, pos as int) as int);
        assert(stored == le_u32_at(full, pos + 4));
        let start = pos + 8;
        if data.len() - start < size {
            proof {
                assert(scan_from(full, 0, crc32_control, 1 + done) == (ranges_view(found@) + scan_from(full, pos as int, crc32_control, 1).0,
                    failures + scan_from(full, pos as int, crc32_control, 1).1));
                assert(ranges_view(found@) + Seq::<(int, int)>::empty() =~= ranges_view(found@));
            }
            failures = failures + 1;
            proof {
                assert(scan_matches(found@, failures, data@, crc32_control, done + 1));
            }
            let r = (found, failures);
            assert(scan_matches(r.0@, r.1, data@, crc32_control, done + 1));
            return r;
        }
        let end = start + size;
        let mut ok = true;
        if crc32_control {
            let part = vstd::slice::slice_subrange(data, start, end);
            let calc = crc32_hash(part);
            ok = calc == stored;
        }
        let ghost prev_found = found@;
        let ghost prev_failures = failures;
        let ghost prev_pos = pos;
        if ok {
            found.push((start, size));
        } else {
            failures = failures + 1;
        }
        pos = end;
        proof {
            assert forall|steps: nat| #[trigger] scan_from(full, 0, crc32_control, steps + (done + 1))
                == (ranges_view(found@) + scan_from(full, pos as int, crc32_control, steps).0,
                    failures + scan_from(full, pos as int, crc32_control, steps).1) by {
                assert(scan_from(full, 0, crc32_control, (steps + 1) + done) == (ranges_view(prev_found) + scan_from(full, prev_pos as int, crc32_control, steps + 1).0,
                    prev_failures + scan_from(full, prev_pos as int, crc32_control, steps + 1).1));
                assert((steps + 1) + done == steps + (done + 1));
                if ok {
                    assert(ranges_view(found@) =~= ranges_view(prev_found).push((start as int, size as int)));
                    assert(ranges_view(prev_found) + (seq![(start as int, size as int)] + scan_from(full, pos as int, crc32_control, steps).0)
                        =~= ranges_view(found@) + scan_from(full, pos as int, crc32_control, steps).0);
                }
            }
            done = done + 1;
        }
    }
}

/// The text starts with the prefix.
pub open spec fn starts_with(s: Seq<char>, p: Seq<char>) -> bool {
    p.len() <= s.len() && s.take(p.len() as int) == p
}

/// The text ends with the suffix.
pub open spec fn ends_with(s: Seq<char>, p: Seq<char>) -> bool {
    p.len() <= s.len() && s.skip(s.len() - p.len()) == p
}

/// The text with every trailing copy of a (non-empty) suffix removed.
pub open spec fn trim_end_all(s: Seq<char>, p: Seq<char>) -> Seq<char>
    decreases s.len(),
{
    if p.len() > 0 && ends_with(s, p) {
        trim_end_all(s.take(s.len() - p.len()), p)
    } else {
        s
    }
}

/// The text after its last `-` (all of it without one).
pub open spec fn last_segment(s: Seq<char>) -> Seq<char>
    decreases s.len(),
{
    if s.len() == 0 {
        s
    } else if s.last() == '-' {
        Seq::empty()
    } else {
        last_segment(s.drop_last()).push(s.last())
    }
}

/// The timestamp part of a dump file name: its last `-` part with trailing
/// `.dump`s and then trailing `.gz`s removed.
pub open spec fn file_timestamp(name: Seq<char>) -> Seq<char> {
    trim_end_all(trim_end_all(last_segment(name), ".dump"@), ".gz"@)
}

/// The text holds the other one as a contiguous part.
pub open spec fn contains_text(s: Seq<char>, t: Seq<char>) -> bool {
    exists|i: int| 0 <= i <= s.len() - t.len() && #[trigger] s.subrange(i, i + t.len()) == t
}

/// Strict lexicographic order of texts, by character.
pub open spec fn text_lt(a: Seq<char>, b: Seq<char>) -> bool
    decreases a.len(),
{
    if a.len() == 0 {
        b.len() > 0
    } else if b.len() == 0 {
        false
    } else if a[0] != b[0] {
        a[0] < b[0]
    } else {
        text_lt(a.drop_first(), b.drop_first())
    }
}

/// The greatest timestamp among the (non-empty) names.
pub open spec fn latest_timestamp(names: Seq<Seq<char>>) -> Seq<char>
    decreases names.len(),
{
    if names.len() <= 1 {
        file_timestamp(names[0])
    } else {
        let m = latest_timestamp(names.drop_last());
        let t = file_timestamp(names.last());
        if text_lt(t, m) {
            m
        } else {
            t
        }
    }
}

/// Name of the file that holds one shard of a dump.
pub open spec fn dump_file_text(dump_name: Seq<char>, shard_key: u64, timestamp: Seq<char>, gzip: bool) -> Seq<char> {
    dump_name + "-shard-"@ + decimal(shard_key as nat) + "-"@ + timestamp + if gzip { ".dump.gz"@ } else { ".dump"@ }
}

/// The name of the file that holds one shard of a dump.
pub fn dump_file_name(dump_name: &str, shard_key: u64, timestamp: &str, gzip: bool) -> (r: String)
    ensures
        r@ == dump_file_text(dump_name@, shard_key, timestamp@, gzip),
{
    let mut out: Vec<char> = Vec::new();
    push_str(&mut out, dump_name);
    push_str(&mut out, "-shard-");
    push_decimal(&mut out, shard_key);
    push_str(&mut out, "-");
    push_str(&mut out, timestamp);
    if gzip {
        push_str(&mut out, ".dump.gz");
    } else {
        push_str(&mut out, ".dump");
    }
    string_from_chars(out)
}

/// The name a shard file is written under before it is renamed.
pub fn temp_file_name(name: &str) -> (r: String)
    ensures
        r@ == name@ + ".tmp"@,
{
    let mut out: Vec<char> = Vec::new();
    push_str(&mut out, name);
    push_str(&mut out, ".tmp");
    string_from_chars(out)
}

fn has_prefix(s: &Vec<char>, p: &Vec<char>) -> (r: bool)
    ensures
        r == starts_with(s@, p@),
{
    if p.len() > s.len() {
        return false;
    }
    let mut i: usize = 0;
    while i < p.len()
        invariant
            i <= p@.len() <= s@.len(),
            forall|k: int| 0 <= k < i ==> s@[k] == p@[k],
        decreases p@.len() - i,
    {
        if s[i] != p[i] {
            assert(s@.take(p@.len() as int)[i as int] != p@[i as int]);
            return false;
        }
        i = i + 1;
    }
    assert(s@.take(p@.len() as int) =~= p@);
    true
}

fn has_suffix_at(s: &Vec<char>, end: usize, p: &Vec<char>) -> (r: bool)
    requires
        end <= s@.len(),
    ensures
        r == ends_with(s@.take(end as int), p@),
{
    let ghost t = s@.take(end as int);
    if p.len() > end {
        return false;
    }
    let base = end - p.len();
    let mut i: usize = 0;
    while i < p.len()
        invariant
            i <= p@.len(),
            base + p@.len() == end,
            end <= s@.len(),
            t == s@.take(end as int),
            forall|k: int| 0 <= k < i ==> s@[base + k] == p@[k],
        decreases p@.len() - i,
    {
        if s[base + i] != p[i] {
            assert(t.skip(t.len() - p@.len())[i as int] != p@[i as int]);
            return false;
        }
        i = i + 1;
    }
    assert(t.skip(t.len() - p@.len()) =~= p@);
    true
}

/// Whether a file in a version directory is a shard file of the dump:
/// `<dump name>-shard-...` ending in `.dump` or `.dump.gz`.
pub fn is_dump_file(file_name: &str, dump_name: &str) -> (r: bool)
    ensures
        r == (starts_with(file_name@, dump_name@ + "-shard-"@) && (ends_with(file_name@, ".dump"@) || ends_with(
            file_name@,
            ".dump.gz"@,
        ))),
{
    let name = chars_of(file_name);
    let mut prefix: Vec<char> = Vec::new();
    push_str(&mut prefix, dump_name);
    push_str(&mut prefix, "-shard-");
    let dump_ext = chars_of(".dump");
    let gz_ext = chars_of(".dump.gz");
    assert(name@.take(name@.len() as int) =~= name@);
    has_prefix(&name, &prefix) && (has_suffix_at(&name, name.len(), &dump_ext) || has_suffix_at(&name, name.len(), &gz_ext))
}

fn trim_end_at(s: &Vec<char>, end: usize, p: &Vec<char>) -> (r: usize)
    requires
        end <= s@.len(),
        p@.len() > 0,
    ensures
        r <= end,
        s@.take(r as int) == trim_end_all(s@.take(end as int), p@),
{
    let mut e = end;
    while has_suffix_at(s, e, p)
        invariant
            e <= end <= s@.len(),
            p@.len() > 0,
            trim_end_all(s@.take(end as int), p@) == trim_end_all(s@.take(e as int), p@),
        decreases e,
    {
        let ghost t = s@.take(e as int);
        assert(t.take(t.len() - p@.len()) =~= s@.take(e - p@.len()));
        e = e - p.len();
    }
    e
}

proof fn lemma_last_segment(s: Seq<char>, k: int)
    requires
        0 <= k <= s.len(),
        forall|j: int| k <= j < s.len() ==> s[j] != '-',
        k == 0 || s[k - 1] == '-',
    ensures
        last_segment(s) == s.skip(k),
    decreases s.len(),
{
    if s.len() == k {
        if s.len() > 0 {
            assert(s.last() == '-');
        }
        assert(s.skip(k) =~= Seq::<char>::empty());
    } else {
        lemma_last_segment(s.drop_last(), k);
        assert(s.skip(k) =~= s.drop_last().skip(k).push(s.last()));
    }
}

/// The timestamp part of a dump file name.
pub fn timestamp_of(file_name: &str) -> (r: Vec<char>)
    ensures
        r@ == file_timestamp(file_name@),
{
    let name = chars_of(file_name);
    let mut start: usize = name.len();
    while start > 0 && name[start - 1] != '-'
        invariant
            start <= name@.len(),
            forall|j: int| start <= j < name@.len() ==> name@[j] != '-',
        decreases start,
    {
        start = start - 1;
    }
    proof {
        lemma_last_segment(name@, start as int);
    }
    let mut seg: Vec<char> = Vec::new();
    let mut i: usize = start;
    while i < name.len()
        invariant
            start <= i <= name@.len(),
            seg@ == name@.subrange(start as int, i as int),
        decreases name@.len() - i,
    {
        seg.push(name[i]);
        assert(name@.subrange(start as int, i + 1) =~= name@.subrange(start as int, i as int).push(name@[i as int]));
        i = i + 1;
    }
    assert(seg@ =~= name@.skip(start as int));
    let dump_ext = chars_of(".dump");
    let gz_ext = chars_of(".gz");
    proof {
        reveal_strlit(".dump");
        reveal_strlit(".gz");
    }
    assert(seg@.take(seg@.len() as int) =~= seg@);
    let e1 = trim_end_at(&seg, seg.len(), &dump_ext);
    let e2 = trim_end_at(&seg, e1, &gz_ext);
    proof {
        assert(seg@.take(e1 as int).take(e2 as int) =~= seg@.take(e2 as int));
    }
    let mut out: Vec<char> = Vec::new();
    let mut j: usize = 0;
    while j < e2
        invariant
            j <= e2 <= seg@.len(),
            out@ == seg@.take(j as int),
        decreases e2 - j,
    {
        out.push(seg[j]);
        assert(seg@.take(j + 1) =~= seg@.take(j as int).push(seg@[j as int]));
        j = j + 1;
    }
    out
}

fn less_text(a: &Vec<char>, b: &Vec<char>) -> (r: bool)
    ensures
        r == text_lt(a@, b@),
{
    let mut i: usize = 0;
    assert(a@.skip(0) =~= a@);
    assert(b@.skip(0) =~= b@);
    while i < a.len() && i < b.len()
        invariant
            i <= a@.len(),
            i <= b@.len(),
            forall|k: int| 0 <= k < i ==> a@[k] == b@[k],
            text_lt(a@, b@) == text_lt(a@.skip(i as int), b@.skip(i as int)),
        decreases a@.len() - i,
    {
        if a[i] != b[i] {
            assert(a@.skip(i as int)[0] == a@[i as int]);
            assert(b@.skip(i as int)[0] == b@[i as int]);
            return a[i] < b[i];
        }
        proof {
            assert(a@.skip(i as int).drop_first() =~= a@.skip(i + 1));
            assert(b@.skip(i as int).drop_first() =~= b@.skip(i + 1));
        }
        i = i + 1;
    }
    i == a.len() && i < b.len()
}

fn holds_text(s: &Vec<char>, t: &Vec<char>) -> (r: bool)
    ensures
        r == contains_text(s@, t@),
{
    if t.len() > s.len() {
        return false;
    }
    let slen = s.len();
    let mut i: usize = 0;
    while i <= s.len() - t.len()
        invariant
            slen == s@.len(),
            t@.len() <= s@.len(),
            i <= s@.len() - t@.len() + 1,
            forall|k: int| 0 <= k < i ==> #[trigger] s@.subrange(k, k + t@.len()) != t@,
        decreases s@.len() - t@.len() + 1 - i,
    {
        let mut j: usize = 0;
        let mut same = true;
        while j < t.len()
            invariant
                j <= t@.len(),
                slen == s@.len(),
                t@.len() <= s@.len(),
                i <= s@.len() - t@.len(),
                same == (forall|k: int| 0 <= k < j ==> s@[i + k] == t@[k]),
            decreases t@.len() - j,
        {
            assert(i + j < slen);
            let idx: usize = i + j;
            if s[idx] != t[j] {
                same = false;
            }
            j = j + 1;
        }
        if same {
            assert(s@.subrange(i as int, i + t@.len()) =~= t@);
            return true;
        }
        proof {
            let k = choose|k: int| 0 <= k < t@.len() && s@[i + k] != t@[k];
            assert(s@.subrange(i as int, i + t@.len())[k] != t@[k]);
        }
        i = i + 1;
    }
    false
}

/// The indices below `n` of the names that hold the text, in order.
pub open spec fn names_holding(names: Seq<Seq<char>>, t: Seq<char>, n: int) -> Seq<usize>
    decreases n,
{
    if n <= 0 {
        Seq::empty()
    } else {
        let rest = names_holding(names, t, n - 1);
        if contains_text(names[n - 1], t) {
            rest.push((n - 1) as usize)
        } else {
            rest
        }
    }
}

/// The shard files (by index) of the latest dump among the names: those
/// whose name holds the greatest timestamp part, in order; none without
/// names.
pub fn select_latest_files(names: &Vec<String>) -> (r: Vec<usize>)
    ensures
        names@.len() == 0 ==> r@.len() == 0,
        names@.len() > 0 ==> r@ == names_holding(
            names_view(names@),
            latest_timestamp(names_view(names@)),
            names@.len() as int,
        ),
{
    let mut out: Vec<usize> = Vec::new();
    if names.len() == 0 {
        return out;
    }
    let ghost all = names_view(names@);
    let mut latest = timestamp_of(names[0].as_str());
    assert(all.take(1).len() == 1);
    let mut i: usize = 1;
    while i < names.len()
        invariant
            1 <= i <= names@.len(),
            all == names_view(names@),
            latest@ == latest_timestamp(all.take(i as int)),
        decreases names@.len() - i,
    {
        let t = timestamp_of(names[i].as_str());
        proof {
            let s = all.take(i + 1);
            assert(s.drop_last() =~= all.take(i as int));
            assert(s.last() == names@[i as int]@);
        }
        if !less_text(&t, &latest) {
            latest = t;
        }
        i = i + 1;
    }
    assert(all.take(i as int) =~= all);
    let mut k: usize = 0;
    while k < names.len()
        invariant
            k <= names@.len(),
            all == names_view(names@),
            latest@ == latest_timestamp(all),
            out@ == names_holding(all, latest@, k as int),
        decreases names@.len() - k,
    {
        let name = chars_of(names[k].as_str());
        assert(all[k as int] == names@[k as int]@);
        if holds_text(&name, &latest) {
            out.push(k);
        }
        k = k + 1;
    }
    out
}

/// Where the `n` first records put their entries: start and length of each.
pub open spec fn record_ranges(entries: Seq<Vec<u8>>, crc32_control: bool, n: int) -> Seq<(int, int)>
    decreases n,
{
    if n <= 0 {
        Seq::empty()
    } else {
        record_ranges(entries, crc32_control, n - 1).push(
            (records_of(entries, crc32_control, n - 1).len() + 8int, entries[n - 1]@.len() as int),
        )
    }
}

pub(crate) proof fn lemma_u32_le_roundtrip(v: u32)
    ensures
        le_u32_at(u32_le(v), 0) == v,
{
    assert(v == (v % 256) + 256 * ((v / 256) % 256) + 65536 * ((v / 65536) % 256) + 16777216 * ((v / 16777216) % 256))
        by (bit_vector);
}

proof fn lemma_records_prefix(entries: Seq<Vec<u8>>, crc32_control: bool, m: int, n: int)
    requires
        0 <= m <= n <= entries.len(),
    ensures
        records_of(entries, crc32_control, n).len() >= records_of(entries, crc32_control, m).len(),
        records_of(entries, crc32_control, n).take(records_of(entries, crc32_control, m).len() as int)
            == records_of(entries, crc32_control, m),
    decreases n - m,
{
    if m < n {
        lemma_records_prefix(entries, crc32_control, m, n - 1);
        let a = records_of(entries, crc32_control, n - 1);
        let b = records_of(entries, crc32_control, n);
        let lm = records_of(entries, crc32_control, m).len() as int;
        assert(b == a + record_bytes(entries[n - 1]@, crc32_control));
        assert(b.take(lm) =~= a.take(lm));
    } else {
        let r = records_of(entries, crc32_control, n);
        assert(r.take(r.len() as int) =~= r);
    }
}

proof fn lemma_record_at(entries: Seq<Vec<u8>>, crc32_control: bool, n: int, k: int)
    requires
        0 <= k < n <= entries.len(),
        (entries[k]@).len() <= u32::MAX,
    ensures
        ({
            let data = records_of(entries, crc32_control, n);
            let pos = records_of(entries, crc32_control, k).len() as int;
            let e = entries[k]@;
            &&& data.len() - pos >= 8 + e.len()
            &&& le_u32_at(data, pos) == e.len()
            &&& le_u32_at(data, pos + 4) == record_checksum(e, crc32_control)
            &&& data.subrange(pos + 8, pos + 8 + e.len()) == e
            &&& records_of(entries, crc32_control, k + 1).len() == pos + 8 + e.len()
        }),
{
    let data = records_of(entries, crc32_control, n);
    let pos = records_of(entries, crc32_control, k).len() as int;
    lemma_records_prefix(entries, crc32_control, k + 1, n);
    let e = entries[k]@;
    let rec = record_bytes(e, crc32_control);
    let next = records_of(entries, crc32_control, k + 1);
    assert(next == records_of(entries, crc32_control, k) + rec);
    assert(data.take(next.len() as int) == next);
    assert forall|i: int| 0 <= i < rec.len() implies data[pos + i] == #[trigger] rec[i] by {
        assert(data[pos + i] == data.take(next.len() as int)[pos + i]);
        assert(next[pos + i] == rec[i]);
    }
    let len_bytes = u32_le(e.len() as u32);
    let crc_bytes = u32_le(record_checksum(e, crc32_control));
    lemma_u32_le_roundtrip(e.len() as u32);
    lemma_u32_le_roundtrip(record_checksum(e, crc32_control));
    assert(rec[0] == len_bytes[0] && rec[1] == len_bytes[1] && rec[2] == len_bytes[2] && rec[3] == len_bytes[3]);
    assert(rec[4] == crc_bytes[0] && rec[5] == crc_bytes[1] && rec[6] == crc_bytes[2] && rec[7] == crc_bytes[3]);
    assert(le_u32_at(data, pos) == le_u32_at(len_bytes, 0));
    assert(le_u32_at(data, pos + 4) == le_u32_at(crc_bytes, 0));
    assert forall|i: int| 0 <= i < e.len() implies data.subrange(pos + 8, pos + 8 + e.len())[i] == e[i] by {
        assert(rec[8 + i] == e[i]);
    }
    assert(data.subrange(pos + 8, pos + 8 + e.len()) =~= e);
}

proof fn lemma_scan_tail(entries: Seq<Vec<u8>>, crc32_control: bool, n: int, k: int, steps: nat)
    requires
        0 <= k <= n <= entries.len(),
        forall|j: int| 0 <= j < n ==> (#[trigger] entries[j]@).len() <= u32::MAX,
        steps >= n - k,
    ensures
        scan_from(records_of(entries, crc32_control, n), records_of(entries, crc32_control, k).len() as int, crc32_control, steps)
            == (record_ranges(entries, crc32_control, n).skip(k), 0int),
    decreases n - k,
{
    let data = records_of(entries, crc32_control, n);
    let pos = records_of(entries, crc32_control, k).len() as int;
    lemma_ranges_len(entries, crc32_control, n);
    if k == n {
        assert(record_ranges(entries, crc32_control, n).skip(k) =~= Seq::<(int, int)>::empty());
    } else {
        let e = entries[k]@;
        assert(e.len() <= u32::MAX);
        lemma_record_at(entries, crc32_control, n, k);
        lemma_scan_tail(entries, crc32_control, n, k + 1, (steps - 1) as nat);
        let ranges = record_ranges(entries, crc32_control, n);
        lemma_range_at(entries, crc32_control, n, k);
        assert(ranges.skip(k) =~= seq![(pos + 8, e.len() as int)] + ranges.skip(k + 1));
    }
}

proof fn lemma_ranges_len(entries: Seq<Vec<u8>>, crc32_control: bool, n: int)
    requires
        0 <= n,
    ensures
        record_ranges(entries, crc32_control, n).len() == n,
    decreases n,
{
    if n > 0 {
        lemma_ranges_len(entries, crc32_control, n - 1);
    }
}

proof fn lemma_range_at(entries: Seq<Vec<u8>>, crc32_control: bool, n: int, k: int)
    requires
        0 <= k < n,
    ensures
        record_ranges(entries, crc32_control, n)[k] == (
            records_of(entries, crc32_control, k).len() + 8int,
            entries[k]@.len() as int,
        ),
    decreases n,
{
    lemma_ranges_len(entries, crc32_control, n - 1);
    if k < n - 1 {
        lemma_range_at(entries, crc32_control, n - 1, k);
    }
}

/// What a dump writes, a load reads back: scanning the records of entries
/// (each shorter than 4 GiB) finds every entry, in order, at the place it
/// was written, with no failure, whether checksums are on or off.
pub proof fn law_records_roundtrip(entries: Seq<Vec<u8>>, crc32_control: bool, n: int, steps: nat)
    requires
        0 <= n <= entries.len(),
        forall|j: int| 0 <= j < n ==> (#[trigger] entries[j]@).len() <= u32::MAX,
        steps >= n,
    ensures
        scan_from(records_of(entries, crc32_control, n), 0, crc32_control, steps)
            == (record_ranges(entries, crc32_control, n), 0int),
        forall|k: int| 0 <= k < n ==> {
            let r = #[trigger] record_ranges(entries, crc32_control, n)[k];
            records_of(entries, crc32_control, n).subrange(r.0, r.0 + r.1) == entries[k]@
        },
{
    lemma_scan_tail(entries, crc32_control, n, 0, steps);
    assert(record_ranges(entries, crc32_control, n).skip(0) =~= record_ranges(entries, crc32_control, n));
    assert forall|k: int| 0 <= k < n implies {
        let r = #[trigger] record_ranges(entries, crc32_control, n)[k];
        records_of(entries, crc32_control, n).subrange(r.0, r.0 + r.1) == entries[k]@
    } by {
        lemma_range_at(entries, crc32_control, n, k);
        assert((entries[k]@).len() <= u32::MAX);
        lemma_record_at(entries, crc32_control, n, k);
    }
}

} // verus!
