//! Properties of the library that span several operations.

use crate::clear::{clear_with_token, live_token, TokenState};
use crate::dumper::{law_records_roundtrip, record_ranges, records_of, scan_from, version_number};
use crate::entry_codec::{entry_bytes, law_entry_roundtrip, pairs_fit, read_entry, BytePair};
use crate::lru::LRUList;
use crate::map::{sum_len, sum_mem, ShardedMap};
use crate::shard::{weight_modulus, weight_total, Shard, Value};
use crate::kv_sort::{pair_le, pair_lt, sorted_pairs, Pair, lemma_pair_lt_irreflexive, lemma_pair_lt_transitive};
use crate::text::{decimal, digit_char, digits_value, is_digit, is_unsigned_text, unsigned_digits, unsigned_value};
use vstd::prelude::*;

verus! {

broadcast use vstd::seq_lib::group_to_multiset_ensures;

/// Storing an item under a key that was absent and removing it again
/// leaves the map as it was: the same items, and the length and byte
/// counters back where they started (each moved by the item and back, with
/// the wrapping of the atomic counters).
pub proof fn law_set_then_remove_restores<V: Value>(
    m0: ShardedMap<V>,
    m1: ShardedMap<V>,
    m2: ShardedMap<V>,
    key: u64,
    value: V,
    freed: i64,
    hit: bool,
)
    requires
        m0.wf(),
        !m0.view().contains_key(key),
        m1.view() == m0.view().insert(key, value),
        m1.spec_len() == m0.spec_len().wrapping_add(
            if m0.view().contains_key(key) {
                0i64
            } else {
                1i64
            },
        ),
        m1.spec_mem() == m0.spec_mem().wrapping_add(
            if m0.view().contains_key(key) {
                value.spec_weight().wrapping_sub(m0.view()[key].spec_weight())
            } else {
                value.spec_weight()
            },
        ),
        m2.view() == m1.view().remove(key),
        hit == m1.view().contains_key(key),
        hit ==> freed == m1.view()[key].spec_weight(),
        m2.spec_len() == (if hit {
            m1.spec_len().wrapping_sub(1)
        } else {
            m1.spec_len()
        }),
        m2.spec_mem() == (if hit {
            m1.spec_mem().wrapping_sub(freed)
        } else {
            m1.spec_mem()
        }),
    ensures
        hit,
        freed == value.spec_weight(),
        m2.view() == m0.view(),
        m2.spec_len() == m0.spec_len(),
        m2.spec_mem() == m0.spec_mem(),
{
    assert(m2.view() =~= m0.view());
    lemma_wrapping_roundtrip(m0.spec_len(), 1);
    lemma_wrapping_roundtrip(m0.spec_mem(), value.spec_weight());
}

/// Adding and then taking away the same amount gives back the counter.
proof fn lemma_wrapping_roundtrip(a: i64, d: i64)
    ensures
        a.wrapping_add(d).wrapping_sub(d) == a,
{
}

/// The byte counter of the map is the total weight of the items it holds,
/// shard by shard, modulo 2^64: the map's counter agrees with the sum of
/// the shard counters, and each shard counter with its items' weights.
pub proof fn law_memory_is_total_weight<V: Value>(m: ShardedMap<V>)
    requires
        m.wf(),
        m.counts_weight(),
    ensures
        (m.spec_mem() - shards_weight(m.spec_shards())) % weight_modulus() == 0,
{
    m.lemma_mem_congruent();
    lemma_sum_mem_weight(m.spec_shards());
    lemma_congruent_trans(m.spec_mem() as int, sum_mem(m.spec_shards()), shards_weight(m.spec_shards()));
}

/// What a dump writes, a load reads back: the entries' byte forms, framed
/// as the records of a shard file, are all found again, in order and with
/// no failure (checksums on or off), and each found range reads back as
/// the entry it was written from. Every field, the pair count and each
/// entry's byte form must fit a four-byte length.
pub proof fn law_dump_load_roundtrip(
    dumped: Seq<Vec<u8>>,
    fields: Seq<(u64, Seq<u8>, Seq<BytePair>, Seq<u8>)>,
    crc32_control: bool,
    steps: nat,
)
    requires
        dumped.len() == fields.len(),
        steps >= dumped.len(),
        forall|k: int| 0 <= k < dumped.len() ==> (#[trigger] dumped[k])@ == entry_bytes(
            fields[k].0,
            fields[k].1,
            fields[k].2,
            fields[k].3,
        ),
        forall|k: int| 0 <= k < dumped.len() ==> (#[trigger] dumped[k])@.len() <= u32::MAX,
        forall|k: int|
            0 <= k < fields.len() ==> (#[trigger] fields[k]).1.len() <= u32::MAX && fields[k].3.len()
                <= u32::MAX && fields[k].2.len() <= u32::MAX && pairs_fit(fields[k].2),
    ensures
        scan_from(records_of(dumped, crc32_control, dumped.len() as int), 0, crc32_control, steps) == (
            record_ranges(dumped, crc32_control, dumped.len() as int),
            0int,
        ),
        forall|k: int| 0 <= k < dumped.len() ==> {
            let r = #[trigger] record_ranges(dumped, crc32_control, dumped.len() as int)[k];
            read_entry(records_of(dumped, crc32_control, dumped.len() as int).subrange(r.0, r.0 + r.1))
                == Some(fields[k])
        },
{
    let n = dumped.len() as int;
    law_records_roundtrip(dumped, crc32_control, n, steps);
    assert forall|k: int| 0 <= k < dumped.len() implies {
        let r = #[trigger] record_ranges(dumped, crc32_control, n)[k];
        read_entry(records_of(dumped, crc32_control, n).subrange(r.0, r.0 + r.1)) == Some(fields[k])
    } by {
        let r = record_ranges(dumped, crc32_control, n)[k];
        assert(records_of(dumped, crc32_control, n).subrange(r.0, r.0 + r.1) == dumped[k]@);
        assert(fields[k].1.len() <= u32::MAX);
        law_entry_roundtrip(fields[k].0, fields[k].1, fields[k].2, fields[k].3);
    }
}

/// Without duplicates, taking a key's first occurrence out of a sequence
/// takes every occurrence out.
proof fn lemma_remove_value_filter(s: Seq<u64>, k: u64)
    requires
        s.no_duplicates(),
    ensures
        s.remove_value(k) == s.filter(|x: u64| x != k),
    decreases s.len(),
{
    reveal(Seq::filter);
    if s.len() == 0 {
        s.index_of_first_ensures(k);
        assert(s.filter(|x: u64| x != k) =~= s);
    } else {
        let init = s.drop_last();
        assert(init.no_duplicates());
        lemma_remove_value_filter(init, k);
        s.index_of_first_ensures(k);
        init.index_of_first_ensures(k);
        if s.last() == k {
            assert(!init.contains(k)) by {
                if init.contains(k) {
                    let j = choose|j: int| 0 <= j < init.len() && init[j] == k;
                    assert(s[j] == s[s.len() - 1]);
                }
            }
            assert(init.remove_value(k) == init);
            let i = s.index_of_first(k).unwrap();
            assert(i == s.len() - 1);
            assert(s.remove(i) =~= init);
            assert(s.filter(|x: u64| x != k) == init.filter(|x: u64| x != k));
        } else {
            assert(s.filter(|x: u64| x != k) == init.filter(|x: u64| x != k).push(s.last()));
            if init.contains(k) {
                let i = init.index_of_first(k).unwrap();
                assert(s.index_of_first(k) == Some(i));
                assert(s.remove(i) =~= init.remove(i).push(s.last()));
            } else {
                assert(!s.contains(k)) by {
                    if s.contains(k) {
                        let j = choose|j: int| 0 <= j < s.len() && s[j] == k;
                        assert(init[j] == k);
                    }
                }
                assert(s =~= init.push(s.last()));
            }
        }
    }
}

/// Putting a key at the front of the recency list moves it there without
/// listing it twice: the new order is the key, then every other key in
/// its old order; removing a key drops it and keeps the others in order,
/// and leaves the list as it was where the key was not listed.
pub proof fn law_lru_orders(l: LRUList, k: u64)
    requires
        l.wf(),
    ensures
        seq![k] + l.view().remove_value(k) == seq![k] + l.view().filter(|x: u64| x != k),
        l.view().remove_value(k) == l.view().filter(|x: u64| x != k),
        !l.view().contains(k) ==> l.view().remove_value(k) == l.view(),
{
    l.lemma_no_duplicates();
    lemma_remove_value_filter(l.view(), k);
    l.view().index_of_first_ensures(k);
}

/// The length counter of the map is the number of items it holds, shard by
/// shard, modulo 2^64: the map's counter agrees with the sum of the shard
/// counters, and each shard counter is its number of items.
pub proof fn law_len_is_item_count<V: Value>(m: ShardedMap<V>)
    requires
        m.wf(),
        m.counts_items(),
    ensures
        (m.spec_len() - shards_items(m.spec_shards())) % weight_modulus() == 0,
{
    m.lemma_len_congruent();
    lemma_sum_len_items(m.spec_shards());
}

/// The number of items of the shards.
pub open spec fn shards_items<V: Value>(shards: Seq<Shard<V>>) -> int
    decreases shards.len(),
{
    if shards.len() == 0 {
        0
    } else {
        shards_items(shards.drop_last()) + shards.last().view().len()
    }
}

proof fn lemma_sum_len_items<V: Value>(shards: Seq<Shard<V>>)
    requires
        forall|i: int| 0 <= i < shards.len() ==> (#[trigger] shards[i]).counts_items(),
    ensures
        sum_len(shards) == shards_items(shards),
    decreases shards.len(),
{
    if shards.len() > 0 {
        let init = shards.drop_last();
        assert forall|i: int| 0 <= i < init.len() implies (#[trigger] init[i]).counts_items() by {
            assert(init[i] == shards[i]);
        }
        lemma_sum_len_items(init);
        assert(shards[shards.len() - 1].counts_items());
    }
}

/// The total weight of the items of the shards.
pub open spec fn shards_weight<V: Value>(shards: Seq<Shard<V>>) -> int
    decreases shards.len(),
{
    if shards.len() == 0 {
        0
    } else {
        shards_weight(shards.drop_last()) + weight_total(shards.last().view())
    }
}

proof fn lemma_congruent_trans(a: int, b: int, c: int)
    requires
        (a - b) % weight_modulus() == 0,
        (b - c) % weight_modulus() == 0,
    ensures
        (a - c) % weight_modulus() == 0,
{
    let m = weight_modulus();
    assert((a - c) % m == 0) by (nonlinear_arith)
        requires
            (a - b) % m == 0,
            (b - c) % m == 0,
            m == 0x1_0000_0000_0000_0000int,
    {
        let k1 = (a - b) / m;
        let k2 = (b - c) / m;
        assert(a - b == k1 * m);
        assert(b - c == k2 * m);
        assert(a - c == (k1 + k2) * m);
    }
}

proof fn lemma_congruent_add(a: int, b: int, c: int, d: int)
    requires
        (a - b) % weight_modulus() == 0,
        (c - d) % weight_modulus() == 0,
    ensures
        ((a + c) - (b + d)) % weight_modulus() == 0,
{
    let m = weight_modulus();
    assert(((a + c) - (b + d)) % m == 0) by (nonlinear_arith)
        requires
            (a - b) % m == 0,
            (c - d) % m == 0,
            m == 0x1_0000_0000_0000_0000int,
    {
        let k1 = (a - b) / m;
        let k2 = (c - d) / m;
        assert(a - b == k1 * m);
        assert(c - d == k2 * m);
        assert((a + c) - (b + d) == (k1 + k2) * m);
    }
}

proof fn lemma_sum_mem_weight<V: Value>(shards: Seq<Shard<V>>)
    requires
        forall|i: int| 0 <= i < shards.len() ==> (#[trigger] shards[i]).counts_weight(),
    ensures
        (sum_mem(shards) - shards_weight(shards)) % weight_modulus() == 0,
    decreases shards.len(),
{
    if shards.len() > 0 {
        let init = shards.drop_last();
        assert forall|i: int| 0 <= i < init.len() implies (#[trigger] init[i]).counts_weight() by {
            assert(init[i] == shards[i]);
        }
        lemma_sum_mem_weight(init);
        assert(shards[shards.len() - 1].counts_weight());
        lemma_congruent_add(
            sum_mem(init),
            shards_weight(init),
            shards.last().spec_mem() as int,
            weight_total(shards.last().view()),
        );
    }
}

/// Touching a key moves it to the front of the recency order: while other
/// keys are listed, the next eviction (which takes the last key) spares it.
pub proof fn law_touch_protects_from_eviction(order: Seq<u64>, key: u64)
    requires
        order.no_duplicates(),
        order.contains(key),
        order.len() >= 2,
    ensures
        (seq![key] + order.remove_value(key)).len() == order.len(),
        (seq![key] + order.remove_value(key))[0] == key,
        (seq![key] + order.remove_value(key)).last() != key,
{
    let i = order.index_of(key);
    order.index_of_first_ensures(key);
    let rest = order.remove_value(key);
    assert(rest == order.remove(i));
    assert(rest.len() == order.len() - 1);
    let t = seq![key] + rest;
    assert(t.last() == rest.last());
    if rest.last() == key {
        let j = rest.len() - 1;
        if j < i {
            assert(rest[j] == order[j]);
        } else {
            assert(rest[j] == order[j + 1]);
        }
    }
}

proof fn lemma_sorted_first_is_min(s: Seq<Pair>, x: Pair)
    requires
        sorted_pairs(s),
        s.len() > 0,
        s.to_multiset().count(x) > 0,
    ensures
        pair_le(s[0], x),
{
    assert(s.contains(x));
    let k = choose|k: int| 0 <= k < s.len() && s[k] == x;
    if k > 0 {
        assert(pair_le(s[0], s[k]));
    }
}

/// Sorting is determined by the contents: two sorted arrangements of the
/// same pairs are equal. So each filter gives one answer for a request,
/// whatever order its headers or parameters came in.
pub proof fn law_sorted_arrangement_unique(a: Seq<Pair>, b: Seq<Pair>)
    requires
        sorted_pairs(a),
        sorted_pairs(b),
        a.to_multiset() == b.to_multiset(),
    ensures
        a == b,
    decreases a.len(),
{
    assert(a.len() == a.to_multiset().len());
    assert(b.len() == b.to_multiset().len());
    if a.len() == 0 {
        assert(a =~= b);
    } else {
        assert(a.to_multiset().count(a[0]) > 0) by {
            assert(a.contains(a[0]));
        }
        assert(b.to_multiset().count(b[0]) > 0) by {
            assert(b.contains(b[0]));
        }
        lemma_sorted_first_is_min(a, b[0]);
        lemma_sorted_first_is_min(b, a[0]);
        if a[0] != b[0] {
            assert(pair_lt(a[0], b[0]));
            assert(pair_lt(b[0], a[0]));
            lemma_pair_lt_transitive(a[0], b[0], a[0]);
            lemma_pair_lt_irreflexive(a[0]);
        }
        let a1 = a.drop_first();
        let b1 = b.drop_first();
        assert(a =~= seq![a[0]] + a1);
        assert(b =~= seq![b[0]] + b1);
        assert(a.to_multiset() == a1.to_multiset().insert(a[0])) by {
            a1.to_multiset_ensures();
            assert(a =~= a1.insert(0, a[0]));
        }
        assert(b.to_multiset() == b1.to_multiset().insert(b[0])) by {
            b1.to_multiset_ensures();
            assert(b =~= b1.insert(0, b[0]));
        }
        assert(a[0] == b[0]);
        assert forall|y: Pair| a1.to_multiset().count(y) == b1.to_multiset().count(y) by {
            broadcast use vstd::multiset::group_multiset_axioms;
            assert(a.to_multiset().count(y) == b.to_multiset().count(y));
            assert(a1.to_multiset().insert(a[0]).count(y) == a1.to_multiset().count(y) + if y == a[0] { 1nat } else { 0nat });
            assert(b1.to_multiset().insert(b[0]).count(y) == b1.to_multiset().count(y) + if y == b[0] { 1nat } else { 0nat });
        }
        assert(a1.to_multiset() =~= b1.to_multiset());
        assert forall|i: int, j: int| 0 <= i < j < a1.len() implies pair_le(#[trigger] a1[i], #[trigger] a1[j]) by {
            assert(a1[i] == a[i + 1] && a1[j] == a[j + 1]);
        }
        assert forall|i: int, j: int| 0 <= i < j < b1.len() implies pair_le(#[trigger] b1[i], #[trigger] b1[j]) by {
            assert(b1[i] == b[i + 1] && b1[j] == b[j + 1]);
        }
        law_sorted_arrangement_unique(a1, b1);
    }
}

proof fn lemma_decimal_digits(n: nat)
    ensures
        decimal(n).len() > 0,
        forall|i: int| 0 <= i < decimal(n).len() ==> is_digit(#[trigger] decimal(n)[i]),
        decimal(n)[0] != '+',
        digits_value(decimal(n)) == n,
    decreases n,
{
    assert(((48 + (n % 10)) as char) as nat == 48 + (n % 10));
    assert(n == (n / 10) * 10 + n % 10) by (nonlinear_arith);
    if n < 10 {
        assert(n % 10 == n);
        assert(decimal(n).drop_last() =~= Seq::<char>::empty());
        assert(decimal(n).last() as nat == 48 + n);
        assert(digits_value(decimal(n)) == digits_value(decimal(n).drop_last()) * 10 + ((decimal(n).last() as nat) - 48) as nat);
    }
    if n >= 10 {
        lemma_decimal_digits(n / 10);
        let d = decimal(n);
        assert(d.drop_last() =~= decimal(n / 10));
        assert(d.last() == digit_char(n % 10));
        assert(d.last() as nat == 48 + n % 10);
        assert(digits_value(d) == digits_value(d.drop_last()) * 10 + ((d.last() as nat) - 48) as nat);
        assert(d[0] == decimal(n / 10)[0]);
    }
}

/// A number written in decimal reads back as the same number, as the
/// version directories `v<N>` that a dump creates are read back by the
/// next dump and the next load.
pub proof fn law_decimal_roundtrip(n: nat)
    ensures
        is_unsigned_text(decimal(n)),
        unsigned_value(decimal(n)) == n,
        n <= u32::MAX ==> version_number(seq!['v'] + decimal(n)) == Some(n as u32),
{
    lemma_decimal_digits(n);
    assert(unsigned_digits(decimal(n)) == decimal(n));
    let name = seq!['v'] + decimal(n);
    assert(name.drop_first() =~= decimal(n));
}

/// A clear token works at most once: after a request that presents a token,
/// no token is held, so a second request with the same token is refused.
pub proof fn law_clear_token_single_use(
    s0: TokenState,
    s1: TokenState,
    s2: TokenState,
    now1: u64,
    now2: u64,
    token: String,
    cleared1: bool,
    cleared2: bool,
)
    requires
        clear_with_token(s0, s1, now1, token, cleared1),
        clear_with_token(s1, s2, now2, token, cleared2),
    ensures
        !cleared2,
        forall|t: u64| #[trigger] live_token(s2, t) is None,
{
}

} // verus!
