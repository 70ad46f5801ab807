//! Byte-wise ordering of key/value pairs and an in-place insertion sort.

use vstd::prelude::*;

verus! {

broadcast use vstd::seq_lib::group_to_multiset_ensures;

/// A key/value pair of byte strings, as plain values.
pub type Pair = (Seq<u8>, Seq<u8>);

/// Strict lexicographic order on byte strings (a proper prefix comes first).
pub open spec fn bytes_lt(a: Seq<u8>, b: Seq<u8>) -> bool
    decreases a.len(),
{
    if a.len() == 0 {
        b.len() > 0
    } else if b.len() == 0 {
        false
    } else if a[0] != b[0] {
        a[0] < b[0]
    } else {
        bytes_lt(a.drop_first(), b.drop_first())
    }
}

/// Strict order on pairs: by key, then by value.
pub open spec fn pair_lt(a: Pair, b: Pair) -> bool {
    bytes_lt(a.0, b.0) || (a.0 == b.0 && bytes_lt(a.1, b.1))
}

/// Non-strict order on pairs.
pub open spec fn pair_le(a: Pair, b: Pair) -> bool {
    pair_lt(a, b) || a == b
}

/// The pairs are in ascending order.
pub open spec fn sorted_pairs(s: Seq<Pair>) -> bool {
    forall|i: int, j: int| 0 <= i < j < s.len() ==> pair_le(#[trigger] s[i], #[trigger] s[j])
}

/// The byte strings of a vector of pairs.
pub open spec fn pairs_view(v: Seq<(Vec<u8>, Vec<u8>)>) -> Seq<Pair> {
    v.map_values(|p: (Vec<u8>, Vec<u8>)| (p.0@, p.1@))
}

pub proof fn lemma_bytes_lt_irreflexive(a: Seq<u8>)
    ensures
        !bytes_lt(a, a),
    decreases a.len(),
{
    if a.len() > 0 {
        lemma_bytes_lt_irreflexive(a.drop_first());
    }
}

pub proof fn lemma_bytes_lt_transitive(a: Seq<u8>, b: Seq<u8>, c: Seq<u8>)
    requires
        bytes_lt(a, b),
        bytes_lt(b, c),
    ensures
        bytes_lt(a, c),
    decreases a.len(),
{
    if a.len() > 0 && b.len() > 0 && c.len() > 0 {
        if a[0] == b[0] && b[0] == c[0] {
            lemma_bytes_lt_transitive(a.drop_first(), b.drop_first(), c.drop_first());
        }
    }
}

pub proof fn lemma_bytes_lt_total(a: Seq<u8>, b: Seq<u8>)
    ensures
        bytes_lt(a, b) || a == b || bytes_lt(b, a),
    decreases a.len(),
{
    if a.len() > 0 && b.len() > 0 {
        if a[0] == b[0] {
            lemma_bytes_lt_total(a.drop_first(), b.drop_first());
            if a.drop_first() == b.drop_first() {
                assert(a =~= seq![a[0]] + a.drop_first());
                assert(b =~= seq![b[0]] + b.drop_first());
            }
        }
    } else if a.len() == 0 && b.len() == 0 {
        assert(a =~= b);
    }
}

pub proof fn lemma_pair_lt_transitive(a: Pair, b: Pair, c: Pair)
    requires
        pair_lt(a, b),
        pair_lt(b, c),
    ensures
        pair_lt(a, c),
{
    if bytes_lt(a.0, b.0) && bytes_lt(b.0, c.0) {
        lemma_bytes_lt_transitive(a.0, b.0, c.0);
    } else if bytes_lt(a.1, b.1) && bytes_lt(b.1, c.1) {
        lemma_bytes_lt_transitive(a.1, b.1, c.1);
    }
}

pub proof fn lemma_pair_total(a: Pair, b: Pair)
    ensures
        pair_lt(a, b) || a == b || pair_lt(b, a),
{
    lemma_bytes_lt_total(a.0, b.0);
    lemma_bytes_lt_total(a.1, b.1);
}

pub proof fn lemma_pair_lt_irreflexive(a: Pair)
    ensures
        !pair_lt(a, a),
{
    lemma_bytes_lt_irreflexive(a.0);
    lemma_bytes_lt_irreflexive(a.1);
}

/// Whether `a` comes strictly before `b` byte-wise.
pub fn bytes_less(a: &[u8], b: &[u8]) -> (r: bool)
    ensures
        r == bytes_lt(a@, b@),
{
    let mut i: usize = 0;
    proof {
        assert(a@.skip(0) =~= a@);
        assert(b@.skip(0) =~= b@);
    }
    while i < a.len() && i < b.len() && a[i] == b[i]
        invariant
            i <= a@.len(),
            i <= b@.len(),
            bytes_lt(a@, b@) == bytes_lt(a@.skip(i as int), b@.skip(i as int)),
        decreases a@.len() - i,
    {
        proof {
            let sa = a@.skip(i as int);
            let sb = b@.skip(i as int);
            assert(sa.drop_first() =~= a@.skip(i + 1));
            assert(sb.drop_first() =~= b@.skip(i + 1));
        }
        i = i + 1;
    }
    if i == a.len() {
        i < b.len()
    } else if i == b.len() {
        false
    } else {
        a[i] < b[i]
    }
}

/// Whether pair `a` comes strictly before pair `b`.
fn pair_less(a: &(Vec<u8>, Vec<u8>), b: &(Vec<u8>, Vec<u8>)) -> (r: bool)
    ensures
        r == pair_lt((a.0@, a.1@), (b.0@, b.1@)),
{
    if bytes_less(a.0.as_slice(), b.0.as_slice()) {
        true
    } else if bytes_less(b.0.as_slice(), a.0.as_slice()) {
        false
    } else {
        proof {
            lemma_bytes_lt_total(a.0@, b.0@);
        }
        bytes_less(a.1.as_slice(), b.1.as_slice())
    }
}

proof fn lemma_insert_multiset<A>(s: Seq<A>, p: int, x: A)
    requires
        0 <= p <= s.len(),
    ensures
        s.insert(p, x).to_multiset() =~= s.to_multiset().insert(x),
{
    let t = s.insert(p, x);
    assert(t.remove(p) =~= s);
    assert(t[p] == x);
    assert(t.remove(p).to_multiset() =~= t.to_multiset().remove(x));
    assert(t.contains(x));
    assert(t.to_multiset().count(x) > 0);
}

/// Sorts key/value pairs in place, by key and then by value, byte-wise.
pub fn kv_slice(pairs: &mut Vec<(Vec<u8>, Vec<u8>)>)
    ensures
        sorted_pairs(pairs_view(final(pairs)@)),
        pairs_view(final(pairs)@).to_multiset() == pairs_view(old(pairs)@).to_multiset(),
{
    let mut input: Vec<(Vec<u8>, Vec<u8>)> = Vec::new();
    std::mem::swap(&mut input, pairs);
    let ghost orig = input@;
    let mut out: Vec<(Vec<u8>, Vec<u8>)> = Vec::new();
    let mut rest = input;
    let ghost mut taken: Seq<(Vec<u8>, Vec<u8>)> = Seq::empty();
    proof {
        assert(orig =~= taken + rest@);
    }
    while rest.len() > 0
        invariant
            orig == taken + rest@,
            sorted_pairs(pairs_view(out@)),
            pairs_view(out@).to_multiset() == pairs_view(taken).to_multiset(),
        decreases rest@.len(),
    {
        let x = rest.remove(0);
        let ghost xv = (x.0@, x.1@);
        let ghost before = pairs_view(out@);
        let mut p: usize = 0;
        while p < out.len() && !pair_less(&x, &out[p])
            invariant
                p <= out@.len(),
                xv == (x.0@, x.1@),
                out@.len() == before.len(),
                pairs_view(out@) == before,
                forall|j: int| 0 <= j < p ==> !pair_lt(xv, #[trigger] before[j]),
            decreases out@.len() - p,
        {
            proof {
                assert(before[p as int] == (out@[p as int].0@, out@[p as int].1@));
            }
            p = p + 1;
        }
        out.insert(p, x);
        proof {
            let after = pairs_view(out@);
            assert(after =~= before.insert(p as int, xv));
            assert forall|i: int, j: int| 0 <= i < j < after.len() implies pair_le(
                #[trigger] after[i],
                #[trigger] after[j],
            ) by {
                if i < p && j == p {
                    lemma_pair_total(before[i], xv);
                } else if i == p && j > p {
                    if p < before.len() {
                        assert(pair_lt(xv, before[p as int]));
                        if j - 1 > p {
                            assert(pair_le(before[p as int], before[j - 1]));
                            if pair_lt(before[p as int], before[j - 1]) {
                                lemma_pair_lt_transitive(xv, before[p as int], before[j - 1]);
                            }
                        }
                    }
                } else if i < p && j > p {
                    assert(pair_le(before[i], before[j - 1]));
                } else if i > p {
                    assert(pair_le(before[i - 1], before[j - 1]));
                } else {
                    assert(pair_le(before[i], before[j]));
                }
            }
            lemma_insert_multiset(before, p as int, xv);
            let old_taken = taken;
            taken = taken.push(x);
            assert(pairs_view(taken) =~= pairs_view(old_taken).push(xv));
            assert(orig =~= taken + rest@);
        }
    }
    proof {
        assert(taken =~= orig);
    }
    *pairs = out;
}

} // verus!
