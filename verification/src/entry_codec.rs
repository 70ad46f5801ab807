//! The byte form of a cached entry inside a dump record: the key as eight
//! little-endian bytes, then the path, the query pairs (after their count)
//! and the payload, each field after a four-byte little-endian length.

use crate::dumper::{le_u32_at, lemma_u32_le_roundtrip, push_u32_le, u32_le};
use vstd::prelude::*;

verus! {

/// The fields of a cached entry that a dump keeps.
pub struct EntryRecord {
    pub key: u64,
    pub path: Vec<u8>,
    pub queries: Vec<(Vec<u8>, Vec<u8>)>,
    pub payload: Vec<u8>,
}

/// A byte pair as sequences.
pub type BytePair = (Seq<u8>, Seq<u8>);

/// The query pairs as sequences.
pub open spec fn pair_views(q: Seq<(Vec<u8>, Vec<u8>)>) -> Seq<BytePair> {
    q.map_values(|p: (Vec<u8>, Vec<u8>)| (p.0@, p.1@))
}

/// A `u64` as eight little-endian bytes.
pub open spec fn u64_le(v: u64) -> Seq<u8> {
    u32_le((v % 0x1_0000_0000) as u32) + u32_le((v / 0x1_0000_0000) as u32)
}

/// The `u64` stored little-endian at `at`.
pub open spec fn le_u64_at(data: Seq<u8>, at: int) -> u64 {
    (le_u32_at(data, at) + 0x1_0000_0000 * le_u32_at(data, at + 4)) as u64
}

/// A field: its length (modulo 2^32) in four bytes, then its bytes.
pub open spec fn field_bytes(b: Seq<u8>) -> Seq<u8> {
    u32_le(b.len() as u32) + b
}

/// The query pairs, name and value of each as a field, in order.
pub open spec fn pairs_bytes(q: Seq<BytePair>) -> Seq<u8>
    decreases q.len(),
{
    if q.len() == 0 {
        Seq::empty()
    } else {
        pairs_bytes(q.drop_last()) + field_bytes(q.last().0) + field_bytes(q.last().1)
    }
}

/// The byte form of an entry (the pair count taken modulo 2^32).
pub open spec fn entry_bytes(key: u64, path: Seq<u8>, queries: Seq<BytePair>, payload: Seq<u8>) -> Seq<u8> {
    u64_le(key) + field_bytes(path) + u32_le(queries.len() as u32) + pairs_bytes(queries) + field_bytes(
        payload,
    )
}

/// The field at `pos` and where the next one starts; none where the bytes
/// end before the length or before the field.
#[verifier::opaque]
pub open spec fn read_field(data: Seq<u8>, pos: int) -> Option<(Seq<u8>, int)> {
    if 0 <= pos && pos + 4 <= data.len() && pos + 4 + le_u32_at(data, pos) <= data.len() {
        let end = pos + 4 + le_u32_at(data, pos);
        Some((data.subrange(pos + 4, end), end))
    } else {
        None
    }
}

/// The first `count` query pairs from `pos` and where they end; none where
/// a field is cut short.
#[verifier::opaque]
pub open spec fn read_pairs(data: Seq<u8>, pos: int, count: nat) -> Option<(Seq<BytePair>, int)>
    decreases count,
{
    if count == 0 {
        Some((Seq::empty(), pos))
    } else {
        match read_pairs(data, pos, (count - 1) as nat) {
            None => None,
            Some((ps, p)) => match read_field(data, p) {
                None => None,
                Some((k, p2)) => match read_field(data, p2) {
                    None => None,
                    Some((v, p3)) => Some((ps.push((k, v)), p3)),
                },
            },
        }
    }
}

/// What reading an entry finds: key, path, query pairs and payload; none
/// where the bytes end early. Bytes after the payload are not read.
#[verifier::opaque]
pub open spec fn read_entry(data: Seq<u8>) -> Option<(u64, Seq<u8>, Seq<BytePair>, Seq<u8>)> {
    if data.len() < 8 {
        None
    } else {
        match read_field(data, 8) {
            None => None,
            Some((path, p1)) => if p1 + 4 > data.len() {
                None
            } else {
                match read_pairs(data, p1 + 4, le_u32_at(data, p1) as nat) {
                    None => None,
                    Some((qs, p2)) => match read_field(data, p2) {
                        None => None,
                        Some((payload, _)) => Some((le_u64_at(data, 0), path, qs, payload)),
                    },
                }
            },
        }
    }
}

fn push_bytes(out: &mut Vec<u8>, b: &[u8])
    ensures
        final(out)@ == old(out)@ + b@,
{
    let ghost start = out@;
    let mut i: usize = 0;
    while i < b.len()
        invariant
            i <= b@.len(),
            out@ == start + b@.take(i as int),
        decreases b@.len() - i,
    {
        out.push(b[i]);
        assert(b@.take(i + 1) =~= b@.take(i as int).push(b@[i as int]));
        i = i + 1;
    }
    assert(b@.take(i as int) =~= b@);
}

fn push_field(out: &mut Vec<u8>, b: &[u8])
    ensures
        final(out)@ == old(out)@ + field_bytes(b@),
{
    push_u32_le(out, b.len() as u32);
    push_bytes(out, b);
    assert(out@ =~= old(out)@ + field_bytes(b@));
}

/// The byte form of an entry.
pub fn encode_entry(e: &EntryRecord) -> (r: Vec<u8>)
    ensures
        r@ == entry_bytes(e.key, e.path@, pair_views(e.queries@), e.payload@),
{
    let mut out: Vec<u8> = Vec::new();
    push_u32_le(&mut out, (e.key % 0x1_0000_0000) as u32);
    push_u32_le(&mut out, (e.key / 0x1_0000_0000) as u32);
    push_field(&mut out, e.path.as_slice());
    push_u32_le(&mut out, e.queries.len() as u32);
    let ghost head = out@;
    let ghost q = pair_views(e.queries@);
    let mut i: usize = 0;
    while i < e.queries.len()
        invariant
            i <= e.queries@.len(),
            q == pair_views(e.queries@),
            out@ == head + pairs_bytes(q.take(i as int)),
        decreases e.queries@.len() - i,
    {
        let ghost before = out@;
        push_field(&mut out, e.queries[i].0.as_slice());
        push_field(&mut out, e.queries[i].1.as_slice());
        proof {
            assert(q.take(i + 1).drop_last() =~= q.take(i as int));
            assert(q.take(i + 1).last() == q[i as int]);
            assert(out@ =~= head + pairs_bytes(q.take(i + 1)));
        }
        i = i + 1;
    }
    proof {
        assert(q.take(i as int) =~= q);
    }
    push_field(&mut out, e.payload.as_slice());
    proof {
        assert(u64_le(e.key) =~= u32_le((e.key % 0x1_0000_0000) as u32) + u32_le((e.key / 0x1_0000_0000) as u32));
        assert(q.len() == e.queries@.len());
        assert(out@ =~= entry_bytes(e.key, e.path@, q, e.payload@));
    }
    out
}

fn read_u32(data: &[u8], pos: usize) -> (r: u32)
    requires
        pos + 4 <= data@.len(),
    ensures
        r == le_u32_at(data@, pos as int),
{
    (data[pos] as u32) + 256 * (data[pos + 1] as u32) + 65536 * (data[pos + 2] as u32) + 16777216 * (
    data[pos + 3] as u32)
}

fn copy_range(data: &[u8], a: usize, b: usize) -> (r: Vec<u8>)
    requires
        a <= b <= data@.len(),
    ensures
        r@ == data@.subrange(a as int, b as int),
{
    let mut out: Vec<u8> = Vec::new();
    let mut i: usize = a;
    while i < b
        invariant
            a <= i <= b,
            b <= data@.len(),
            out@ == data@.subrange(a as int, i as int),
        decreases b - i,
    {
        out.push(data[i]);
        assert(data@.subrange(a as int, i + 1) =~= data@.subrange(a as int, i as int).push(data@[i as int]));
        i = i + 1;
    }
    out
}

fn read_field_at(data: &[u8], pos: usize) -> (r: Option<(Vec<u8>, usize)>)
    ensures
        match read_field(data@, pos as int) {
            None => r is None,
            Some((f, p)) => r matches Some((v, q)) && v@ == f && q == p,
        },
{
    proof {
        reveal(read_field);
    }
    if data.len() < 4 || pos > data.len() - 4 {
        return None;
    }
    let size = read_u32(data, pos) as usize;
    let start = pos + 4;
    if data.len() - start < size {
        return None;
    }
    Some((copy_range(data, start, start + size), start + size))
}

/// Once pairs run out, reading more of them runs out too.
proof fn lemma_read_pairs_none(data: Seq<u8>, pos: int, n: nat, m: nat)
    requires
        n <= m,
        read_pairs(data, pos, n) is None,
    ensures
        read_pairs(data, pos, m) is None,
    decreases m,
{
    reveal(read_pairs);
    if n < m {
        lemma_read_pairs_none(data, pos, n, (m - 1) as nat);
    }
}

/// Reads an entry back from its byte form; none where the bytes end early.
pub fn decode_entry(data: &[u8]) -> (r: Option<EntryRecord>)
    ensures
        match read_entry(data@) {
            None => r is None,
            Some((k, p, q, pl)) => r matches Some(e) && e.key == k && e.path@ == p && pair_views(
                e.queries@,
            ) == q && e.payload@ == pl,
        },
{
    proof {
        reveal(read_entry);
    }
    if data.len() < 8 {
        return None;
    }
    let lo = read_u32(data, 0);
    let hi = read_u32(data, 4);
    let key: u64 = (lo as u64) + 0x1_0000_0000u64 * (hi as u64);
    let (path, p1) = match read_field_at(data, 8) {
        None => return None,
        Some(f) => f,
    };
    if p1 > data.len() || data.len() - p1 < 4 {
        return None;
    }
    let count = read_u32(data, p1);
    let mut queries: Vec<(Vec<u8>, Vec<u8>)> = Vec::new();
    let mut pos: usize = p1 + 4;
    let mut i: u32 = 0;
    proof {
        reveal(read_pairs);
    }
    while i < count
        invariant
            i <= count,
            count == le_u32_at(data@, p1 as int),
            data@.len() >= 8,
            p1 + 4 <= data@.len(),
            read_field(data@, 8) == Some((path@, p1 as int)),
            read_pairs(data@, p1 + 4, i as nat) == Some((pair_views(queries@), pos as int)),
        decreases count - i,
    {
        let ghost before = queries@;
        let (k, p2) = match read_field_at(data, pos) {
            None => {
                proof {
                    reveal(read_entry);
                    reveal(read_pairs);
                    assert(read_pairs(data@, p1 + 4, (i + 1) as nat) is None);
                    lemma_read_pairs_none(data@, p1 + 4, (i + 1) as nat, count as nat);
                }
                return None;
            },
            Some(f) => f,
        };
        let (v, p3) = match read_field_at(data, p2) {
            None => {
                proof {
                    reveal(read_entry);
                    reveal(read_pairs);
                    assert(read_pairs(data@, p1 + 4, (i + 1) as nat) is None);
                    lemma_read_pairs_none(data@, p1 + 4, (i + 1) as nat, count as nat);
                }
                return None;
            },
            Some(f) => f,
        };
        queries.push((k, v));
        pos = p3;
        proof {
            reveal(read_pairs);
            assert(pair_views(queries@) =~= pair_views(before).push((k@, v@)));
        }
        i = i + 1;
    }
    let (payload, _) = match read_field_at(data, pos) {
        None => return None,
        Some(f) => f,
    };
    Some(EntryRecord { key, path, queries, payload })
}

/// Every field of the pairs fits a four-byte length.
pub open spec fn pairs_fit(q: Seq<BytePair>) -> bool {
    forall|i: int| 0 <= i < q.len() ==> (#[trigger] q[i]).0.len() <= u32::MAX && q[i].1.len() <= u32::MAX
}

proof fn lemma_read_field_in(data: Seq<u8>, pos: int, b: Seq<u8>)
    requires
        0 <= pos,
        pos + 4 + b.len() <= data.len(),
        data.subrange(pos, pos + 4 + b.len()) == field_bytes(b),
        b.len() <= u32::MAX,
    ensures
        read_field(data, pos) == Some((b, pos + 4 + b.len())),
{
    reveal(read_field);
    let v = b.len() as u32;
    lemma_u32_le_roundtrip(v);
    let f = field_bytes(b);
    assert(data[pos] == f[0]);
    assert(data[pos + 1] == f[1]);
    assert(data[pos + 2] == f[2]);
    assert(data[pos + 3] == f[3]);
    assert(le_u32_at(data, pos) == le_u32_at(u32_le(v), 0));
    assert(data.subrange(pos + 4, pos + 4 + b.len()) =~= b) by {
        assert forall|j: int| 0 <= j < b.len() implies data.subrange(pos + 4, pos + 4 + b.len())[j] == b[j] by {
            assert(data[pos + 4 + j] == f[4 + j]);
        }
    }
}

proof fn lemma_read_pairs_in(data: Seq<u8>, pos: int, q: Seq<BytePair>)
    requires
        0 <= pos,
        pos + pairs_bytes(q).len() <= data.len(),
        data.subrange(pos, pos + pairs_bytes(q).len()) == pairs_bytes(q),
        pairs_fit(q),
    ensures
        read_pairs(data, pos, q.len()) == Some((q, pos + pairs_bytes(q).len())),
    decreases q.len(),
{
    reveal(read_pairs);
    if q.len() > 0 {
        let init = q.drop_last();
        let (k, v) = q.last();
        let a = pairs_bytes(init);
        let fk = field_bytes(k);
        let fv = field_bytes(v);
        assert(pairs_bytes(q) == a + fk + fv);
        let whole = data.subrange(pos, pos + pairs_bytes(q).len());
        assert forall|i: int| 0 <= i < init.len() implies (#[trigger] init[i]).0.len() <= u32::MAX && init[i].1.len() <= u32::MAX by {
            assert(init[i] == q[i]);
        }
        assert(q[q.len() - 1] == q.last());
        assert(data.subrange(pos, pos + a.len()) =~= a) by {
            assert forall|j: int| 0 <= j < a.len() implies data.subrange(pos, pos + a.len())[j] == a[j] by {
                assert(whole[j] == data[pos + j]);
            }
        }
        lemma_read_pairs_in(data, pos, init);
        let p = pos + a.len();
        assert(data.subrange(p, p + fk.len()) =~= fk) by {
            assert forall|j: int| 0 <= j < fk.len() implies data.subrange(p, p + fk.len())[j] == fk[j] by {
                assert(whole[a.len() + j] == data[p + j]);
            }
        }
        lemma_read_field_in(data, p, k);
        let p2 = p + fk.len();
        assert(data.subrange(p2, p2 + fv.len()) =~= fv) by {
            assert forall|j: int| 0 <= j < fv.len() implies data.subrange(p2, p2 + fv.len())[j] == fv[j] by {
                assert(whole[a.len() + fk.len() + j] == data[p2 + j]);
            }
        }
        lemma_read_field_in(data, p2, v);
        assert(init.push((k, v)) =~= q);
    }
}

/// A concatenation begins with its first part.
proof fn lemma_prefix_of_add(a: Seq<u8>, b: Seq<u8>)
    ensures
        (a + b).subrange(0, a.len() as int) == a,
{
    assert((a + b).subrange(0, a.len() as int) =~= a);
}

/// Reading a field inside a prefix reads the same in the whole.
proof fn lemma_field_prefix(p: Seq<u8>, data: Seq<u8>, pos: int)
    requires
        p.len() <= data.len(),
        data.subrange(0, p.len() as int) == p,
        read_field(p, pos) is Some,
    ensures
        read_field(data, pos) == read_field(p, pos),
{
    reveal(read_field);
    assert(data[pos] == p[pos]);
    assert(data[pos + 1] == p[pos + 1]);
    assert(data[pos + 2] == p[pos + 2]);
    assert(data[pos + 3] == p[pos + 3]);
    let end = pos + 4 + le_u32_at(p, pos);
    assert(data.subrange(pos + 4, end) =~= p.subrange(pos + 4, end)) by {
        assert forall|j: int| 0 <= j < end - (pos + 4) implies #[trigger] data.subrange(pos + 4, end)[j] == p.subrange(pos + 4, end)[j] by {
            assert(data[pos + 4 + j] == p[pos + 4 + j]);
        }
    }
}

/// Reading pairs inside a prefix reads the same in the whole.
proof fn lemma_pairs_prefix(p: Seq<u8>, data: Seq<u8>, pos: int, n: nat)
    requires
        p.len() <= data.len(),
        data.subrange(0, p.len() as int) == p,
        read_pairs(p, pos, n) is Some,
    ensures
        read_pairs(data, pos, n) == read_pairs(p, pos, n),
    decreases n,
{
    reveal(read_pairs);
    if n > 0 {
        lemma_pairs_prefix(p, data, pos, (n - 1) as nat);
        let (ps, q) = read_pairs(p, pos, (n - 1) as nat).unwrap();
        lemma_field_prefix(p, data, q);
        let (k, q2) = read_field(p, q).unwrap();
        lemma_field_prefix(p, data, q2);
    }
}

/// Reading pairs is not changed by bytes appended after them.
proof fn lemma_pairs_extend(p: Seq<u8>, tail: Seq<u8>, pos: int, n: nat)
    requires
        read_pairs(p, pos, n) is Some,
    ensures
        read_pairs(p + tail, pos, n) == read_pairs(p, pos, n),
{
    lemma_prefix_of_add(p, tail);
    lemma_pairs_prefix(p, p + tail, pos, n);
}

/// A field right after `a` reads back.
proof fn lemma_field_after(a: Seq<u8>, b: Seq<u8>)
    requires
        b.len() <= u32::MAX,
    ensures
        read_field(a + field_bytes(b), a.len() as int) == Some((b, (a.len() + 4 + b.len()) as int)),
{
    let d = a + field_bytes(b);
    assert(d.subrange(a.len() as int, (a.len() + 4 + b.len()) as int) =~= field_bytes(b));
    lemma_read_field_in(d, a.len() as int, b);
}

/// The key reads back from its eight bytes at the start.
proof fn lemma_key_at(key: u64, data: Seq<u8>)
    requires
        8 <= data.len(),
        data.subrange(0, 8) == u64_le(key),
    ensures
        le_u64_at(data, 0) == key,
{
    let lo = (key % 0x1_0000_0000) as u32;
    let hi = (key / 0x1_0000_0000) as u32;
    lemma_u32_le_roundtrip(lo);
    lemma_u32_le_roundtrip(hi);
    let kb = u64_le(key);
    assert(data[0] == kb[0] && data[1] == kb[1] && data[2] == kb[2] && data[3] == kb[3]);
    assert(data[4] == kb[4] && data[5] == kb[5] && data[6] == kb[6] && data[7] == kb[7]);
    assert(le_u32_at(data, 0) == le_u32_at(u32_le(lo), 0));
    assert(le_u32_at(data, 4) == le_u32_at(u32_le(hi), 0));
}

/// A count reads back from its four bytes.
proof fn lemma_count_at(n: u32, data: Seq<u8>, at: int)
    requires
        0 <= at,
        at + 4 <= data.len(),
        data.subrange(at, at + 4) == u32_le(n),
    ensures
        le_u32_at(data, at) == n,
{
    lemma_u32_le_roundtrip(n);
    let c = u32_le(n);
    assert(data[at] == c[0] && data[at + 1] == c[1] && data[at + 2] == c[2] && data[at + 3] == c[3]);
    assert(le_u32_at(data, at) == le_u32_at(c, 0));
}

/// Where the parts of an entry's byte form stand.
proof fn lemma_entry_layout(kb: Seq<u8>, fp: Seq<u8>, cb: Seq<u8>, pb: Seq<u8>, fl: Seq<u8>)
    ensures
        ({
            let d1 = kb + fp;
            let d2 = d1 + cb;
            let d3 = d2 + pb;
            let data = d3 + fl;
            &&& data.subrange(0, kb.len() as int) == kb
            &&& data.subrange(0, d1.len() as int) == d1
            &&& data.subrange(d1.len() as int, d2.len() as int) == cb
            &&& data.subrange(0, d3.len() as int) == d3
            &&& d3.subrange(d2.len() as int, d3.len() as int) == pb
        }),
{
    let d1 = kb + fp;
    let d2 = d1 + cb;
    let d3 = d2 + pb;
    let data = d3 + fl;
    assert(data.subrange(0, kb.len() as int) =~= kb);
    assert(data.subrange(0, d1.len() as int) =~= d1);
    assert(data.subrange(d1.len() as int, d2.len() as int) =~= cb);
    assert(data.subrange(0, d3.len() as int) =~= d3);
    assert(d3.subrange(d2.len() as int, d3.len() as int) =~= pb);
}

/// The key, the path and the pair count of an entry's byte form read back.
proof fn lemma_entry_head(key: u64, path: Seq<u8>, n: u32, rest: Seq<u8>)
    requires
        path.len() <= u32::MAX,
    ensures
        ({
            let d1 = u64_le(key) + field_bytes(path);
            let data = d1 + u32_le(n) + rest;
            &&& 8 <= data.len()
            &&& le_u64_at(data, 0) == key
            &&& read_field(data, 8) == Some((path, d1.len() as int))
            &&& d1.len() + 4 <= data.len()
            &&& le_u32_at(data, d1.len() as int) == n
        }),
{
    let kb = u64_le(key);
    let cb = u32_le(n);
    let d1 = kb + field_bytes(path);
    let data = d1 + cb + rest;
    lemma_entry_layout(kb, field_bytes(path), cb, rest, Seq::<u8>::empty());
    assert(data + Seq::<u8>::empty() =~= data);
    lemma_key_at(key, data);
    lemma_field_after(kb, path);
    lemma_field_prefix(d1, data, 8);
    lemma_count_at(n, data, d1.len() as int);
}

/// The pairs and the payload of an entry's byte form read back.
proof fn lemma_entry_tail(head: Seq<u8>, queries: Seq<BytePair>, payload: Seq<u8>)
    requires
        payload.len() <= u32::MAX,
        pairs_fit(queries),
    ensures
        ({
            let d3 = head + pairs_bytes(queries);
            let data = d3 + field_bytes(payload);
            &&& read_pairs(data, head.len() as int, queries.len()) == Some((queries, d3.len() as int))
            &&& read_field(data, d3.len() as int) == Some((payload, data.len() as int))
        }),
{
    let d3 = head + pairs_bytes(queries);
    assert(d3.subrange(head.len() as int, d3.len() as int) =~= pairs_bytes(queries));
    lemma_read_pairs_in(d3, head.len() as int, queries);
    lemma_pairs_extend(d3, field_bytes(payload), head.len() as int, queries.len());
    lemma_field_after(d3, payload);
}

/// What is written is read back: the byte form of an entry gives back its
/// key, path, query pairs and payload, where every field and the number of
/// pairs fit their four-byte lengths.
pub proof fn law_entry_roundtrip(key: u64, path: Seq<u8>, queries: Seq<BytePair>, payload: Seq<u8>)
    requires
        path.len() <= u32::MAX,
        payload.len() <= u32::MAX,
        queries.len() <= u32::MAX,
        pairs_fit(queries),
    ensures
        read_entry(entry_bytes(key, path, queries, payload)) == Some((key, path, queries, payload)),
{
    let d1 = u64_le(key) + field_bytes(path);
    let d2 = d1 + u32_le(queries.len() as u32);
    lemma_entry_head(key, path, queries.len() as u32, pairs_bytes(queries) + field_bytes(payload));
    lemma_entry_tail(d2, queries, payload);
    let data = entry_bytes(key, path, queries, payload);
    assert(d2 + (pairs_bytes(queries) + field_bytes(payload)) =~= data);
    reveal(read_entry);
}
} // verus!
