//! Selection of the request headers that a rule keeps in the cache key.

use crate::config::{lowercase, string_bytes, to_lowercase, Rule};
use crate::kv_sort::{kv_slice, pairs_view, sorted_pairs, Pair};
use vstd::prelude::*;
use vstd::utf8::encode_utf8;

verus! {

/// Some entry of the header table has this (lower-cased) name.
pub open spec fn in_table(table: Seq<(String, Vec<u8>)>, name: Seq<char>) -> bool {
    exists|i: int| 0 <= i < table.len() && (#[trigger] table[i]).0@ == name
}

/// The headers, in their order, whose lower-cased name (`lowered`, one per
/// header) is in the table, as byte pairs of the name (as received) and value.
pub open spec fn kept_headers(
    table: Seq<(String, Vec<u8>)>,
    headers: Seq<(String, String)>,
    lowered: Seq<Seq<char>>,
) -> Seq<Pair>
    decreases headers.len(),
{
    if headers.len() == 0 {
        Seq::empty()
    } else {
        let n = headers.len() - 1;
        let rest = kept_headers(table, headers.take(n), lowered);
        if in_table(table, lowered[n]) {
            rest.push((encode_utf8(headers[n].0@), encode_utf8(headers[n].1@)))
        } else {
            rest
        }
    }
}

/// The lower-cased name of each header.
pub open spec fn lowered_names(headers: Seq<(String, String)>) -> Seq<Seq<char>> {
    Seq::new(headers.len(), |i: int| lowercase(headers[i].0@))
}

/// The header table of a rule, empty where the rule or its table is absent.
pub open spec fn rule_header_table(rule: Option<&Rule>) -> Seq<(String, Vec<u8>)> {
    match rule {
        Some(r) => match r.cache_key.headers_map {
            Some(t) => t@,
            None => Seq::empty(),
        },
        None => Seq::empty(),
    }
}

fn table_has(table: &Vec<(String, Vec<u8>)>, name: &String) -> (r: bool)
    ensures
        r == in_table(table@, name@),
{
    let mut j: usize = 0;
    while j < table.len()
        invariant
            j <= table@.len(),
            forall|k: int| 0 <= k < j ==> (#[trigger] table@[k]).0@ != name@,
        decreases table@.len() - j,
    {
        if table[j].0 == *name {
            return true;
        }
        j = j + 1;
    }
    false
}

proof fn lemma_kept_step(
    table: Seq<(String, Vec<u8>)>,
    headers: Seq<(String, String)>,
    lowered: Seq<Seq<char>>,
    i: int,
)
    requires
        0 <= i < headers.len(),
    ensures
        kept_headers(table, headers.take(i + 1), lowered) == if in_table(table, lowered[i]) {
            kept_headers(table, headers.take(i), lowered).push(
                (encode_utf8(headers[i].0@), encode_utf8(headers[i].1@)),
            )
        } else {
            kept_headers(table, headers.take(i), lowered)
        },
{
    assert(headers.take(i + 1).take(i) =~= headers.take(i));
}

/// Keeps the headers whose lower-cased name (`lowered[i]` for `headers[i]`)
/// is in the table, as byte pairs of the name (as received) and value, sorted by
/// name and then by value.
pub fn select_headers(
    table: &Vec<(String, Vec<u8>)>,
    headers: &[(String, String)],
    lowered: &[String],
) -> (r: Vec<(Vec<u8>, Vec<u8>)>)
    requires
        lowered@.len() == headers@.len(),
    ensures
        sorted_pairs(pairs_view(r@)),
        pairs_view(r@).to_multiset() == kept_headers(
            table@,
            headers@,
            lowered@.map_values(|s: String| s@),
        ).to_multiset(),
{
    let ghost low = lowered@.map_values(|s: String| s@);
    let mut out: Vec<(Vec<u8>, Vec<u8>)> = Vec::new();
    let mut i: usize = 0;
    while i < headers.len()
        invariant
            i <= headers@.len(),
            lowered@.len() == headers@.len(),
            low == lowered@.map_values(|s: String| s@),
            pairs_view(out@) == kept_headers(table@, headers@.take(i as int), low),
        decreases headers@.len() - i,
    {
        proof {
            lemma_kept_step(table@, headers@, low, i as int);
        }
        let found = table_has(table, &lowered[i]);
        if found {
            let k = string_bytes(&headers[i].0);
            let v = string_bytes(&headers[i].1);
            let ghost prev = out@;
            out.push((k, v));
            assert(pairs_view(out@) =~= pairs_view(prev).push((k@, v@)));
        }
        i = i + 1;
    }
    assert(headers@.take(headers@.len() as int) =~= headers@);
    kv_slice(&mut out);
    out
}

/// Keeps the request headers that the rule names (matched without regard to
/// case), as byte pairs with the name as received, sorted by name and then by
/// value. Without a rule or a header table nothing is kept.
pub fn filter_and_sort_request(rule: Option<&Rule>, headers: &[(String, String)]) -> (r: Vec<
    (Vec<u8>, Vec<u8>),
>)
    ensures
        sorted_pairs(pairs_view(r@)),
        pairs_view(r@).to_multiset() == kept_headers(
            rule_header_table(rule),
            headers@,
            lowered_names(headers@),
        ).to_multiset(),
{
    let empty: Vec<(String, Vec<u8>)> = Vec::new();
    let table = match rule {
        Some(r) => match &r.cache_key.headers_map {
            Some(t) => t,
            None => &empty,
        },
        None => &empty,
    };
    let mut lowered: Vec<String> = Vec::new();
    let mut i: usize = 0;
    while i < headers.len()
        invariant
            i <= headers@.len(),
            lowered@.len() == i,
            forall|j: int| 0 <= j < i ==> (#[trigger] lowered@[j])@ == lowercase(headers@[j].0@),
        decreases headers@.len() - i,
    {
        lowered.push(to_lowercase(headers[i].0.as_str()));
        i = i + 1;
    }
    assert(lowered@.map_values(|s: String| s@) =~= lowered_names(headers@));
    select_headers(table, headers, lowered.as_slice())
}

} // verus!
