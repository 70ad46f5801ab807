//! What the invalidation endpoint reads from its parameters, and which
//! cached entries it touches.

use crate::config::Rule;
use crate::kv_sort::{pairs_view, sorted_pairs, Pair};
use crate::query_filter::{filter_and_sort_request, form_urlencoded_pairs, kept_pairs, normalized_query, rule_query_names};
use vstd::prelude::*;
use vstd::utf8::encode_utf8;

verus! {

/// Parameter that names the path whose entries are invalidated.
pub const PATH_SPECIAL: &'static str = "_path";

/// Parameter whose presence asks for removal instead of marking.
pub const REMOVE_SPECIAL: &'static str = "_remove";

/// Name/value pairs of strings, as character sequences.
pub open spec fn text_pairs(params: Seq<(String, String)>) -> Seq<(Seq<char>, Seq<char>)> {
    params.map_values(|p: (String, String)| (p.0@, p.1@))
}

/// The `application/x-www-form-urlencoded` text that
/// `form_urlencoded::Serializer` writes for the pairs, in order.
pub uninterp spec fn form_urlencoded_text(pairs: Seq<(Seq<char>, Seq<char>)>) -> Seq<char>;

/// Calls `form_urlencoded::Serializer::extend_pairs` on an empty string and
/// finishes it.
#[verifier::external_body]
fn serialize_form(pairs: &Vec<(String, String)>) -> (r: String)
    ensures
        r@ == form_urlencoded_text(text_pairs(pairs@)),
{
    url::form_urlencoded::Serializer::new(String::new()).extend_pairs(pairs.iter()).finish()
}

/// Some parameter has this name.
pub open spec fn has_param(params: Seq<(Seq<char>, Seq<char>)>, name: Seq<char>) -> bool {
    exists|i: int| 0 <= i < params.len() && (#[trigger] params[i]).0 == name
}

/// The value of the first parameter with this name.
pub open spec fn param_value(params: Seq<(Seq<char>, Seq<char>)>, name: Seq<char>) -> Seq<char>
    decreases params.len(),
{
    if params.len() == 0 {
        Seq::empty()
    } else if params[0].0 == name {
        params[0].1
    } else {
        param_value(params.drop_first(), name)
    }
}

/// The parameters other than the two special ones, in order.
pub open spec fn plain_params(params: Seq<(Seq<char>, Seq<char>)>) -> Seq<(Seq<char>, Seq<char>)>
    decreases params.len(),
{
    if params.len() == 0 {
        Seq::empty()
    } else {
        let rest = plain_params(params.drop_first());
        if params[0].0 == PATH_SPECIAL@ || params[0].0 == REMOVE_SPECIAL@ {
            rest
        } else {
            seq![params[0]] + rest
        }
    }
}

/// An invalidation request: the path, whether to remove, and the other
/// parameters.
pub struct InvalidateRequest {
    pub path: String,
    pub remove: bool,
    pub rest: Vec<(String, String)>,
}

proof fn lemma_param_step(params: Seq<(Seq<char>, Seq<char>)>, i: int, name: Seq<char>)
    requires
        0 <= i < params.len(),
    ensures
        has_param(params.skip(i), name) <==> (params[i].0 == name || has_param(params.skip(i + 1), name)),
        param_value(params.skip(i), name) == if params[i].0 == name {
            params[i].1
        } else {
            param_value(params.skip(i + 1), name)
        },
        plain_params(params.skip(i)) == if params[i].0 == PATH_SPECIAL@ || params[i].0 == REMOVE_SPECIAL@ {
            plain_params(params.skip(i + 1))
        } else {
            seq![params[i]] + plain_params(params.skip(i + 1))
        },
{
    let s = params.skip(i);
    assert(s.drop_first() =~= params.skip(i + 1));
    assert(s[0] == params[i]);
    if has_param(s, name) {
        let k = choose|k: int| 0 <= k < s.len() && (#[trigger] s[k]).0 == name;
        if k > 0 {
            assert(params.skip(i + 1)[k - 1] == s[k]);
        }
    }
    if has_param(params.skip(i + 1), name) {
        let k = choose|k: int| 0 <= k < params.skip(i + 1).len() && (#[trigger] params.skip(i + 1)[k]).0 == name;
        assert(s[k + 1] == params.skip(i + 1)[k]);
    }
}

/// Reads an invalidation request: none without a `_path` parameter; else
/// its value, whether `_remove` is present, and the other parameters.
pub fn read_invalidate_params(params: &Vec<(String, String)>) -> (r: Option<InvalidateRequest>)
    ensures
        r is Some <==> has_param(text_pairs(params@), PATH_SPECIAL@),
        r matches Some(q) ==> {
            &&& q.path@ == param_value(text_pairs(params@), PATH_SPECIAL@)
            &&& q.remove == has_param(text_pairs(params@), REMOVE_SPECIAL@)
            &&& text_pairs(q.rest@) == plain_params(text_pairs(params@))
        },
{
    let ghost all = text_pairs(params@);
    let path_name = String::from_str(PATH_SPECIAL);
    let remove_name = String::from_str(REMOVE_SPECIAL);
    let mut path: Option<String> = None;
    let mut remove = false;
    let mut rest: Vec<(String, String)> = Vec::new();
    let mut i: usize = params.len();
    assert(all.skip(all.len() as int) =~= Seq::<(Seq<char>, Seq<char>)>::empty());
    while i > 0
        invariant
            i <= params@.len(),
            all == text_pairs(params@),
            path_name@ == PATH_SPECIAL@,
            remove_name@ == REMOVE_SPECIAL@,
            path is Some <==> has_param(all.skip(i as int), PATH_SPECIAL@),
            path matches Some(p) ==> p@ == param_value(all.skip(i as int), PATH_SPECIAL@),
            remove == has_param(all.skip(i as int), REMOVE_SPECIAL@),
            text_pairs(rest@) == plain_params(all.skip(i as int)),
        decreases i,
    {
        i = i - 1;
        proof {
            lemma_param_step(all, i as int, PATH_SPECIAL@);
            lemma_param_step(all, i as int, REMOVE_SPECIAL@);
        }
        let is_path = params[i].0 == path_name;
        let is_remove = params[i].0 == remove_name;
        if is_path {
            path = Some(params[i].1.clone());
        }
        if is_remove {
            remove = true;
        }
        if !is_path && !is_remove {
            let ghost prev = rest@;
            rest.insert(0, (params[i].0.clone(), params[i].1.clone()));
            assert(text_pairs(rest@) =~= seq![all[i as int]] + text_pairs(prev));
        }
    }
    assert(all.skip(0) =~= all);
    match path {
        Some(p) => Some(InvalidateRequest { path: p, remove, rest }),
        None => None,
    }
}

/// The query pairs that select the entries to invalidate: the rule's query
/// filter applied to the plain parameters written as a form.
pub fn invalidation_filters(rule: &Rule, rest: &Vec<(String, String)>) -> (r: Vec<(Vec<u8>, Vec<u8>)>)
    ensures
        sorted_pairs(pairs_view(r@)),
        pairs_view(r@).to_multiset() == kept_pairs(
            rule_query_names(Some(rule)),
            form_urlencoded_pairs(
                encode_utf8(normalized_query(encode_utf8(form_urlencoded_text(text_pairs(rest@))))),
            ),
        ).to_multiset(),
{
    let form = serialize_form(rest);
    filter_and_sort_request(Some(rule), form.as_str().as_bytes())
}

/// An entry is selected: its path and its rule's path are those requested,
/// and each filter pair is among its query pairs (every entry of the path
/// where there are no filters).
pub open spec fn entry_selected(
    entry_path: Seq<u8>,
    entry_rule_path: Option<Seq<char>>,
    path: Seq<u8>,
    rule_path: Option<Seq<char>>,
    filters: Seq<Pair>,
    entry_queries: Seq<Pair>,
) -> bool {
    &&& entry_path == path
    &&& entry_rule_path == rule_path
    &&& forall|i: int| 0 <= i < filters.len() ==> entry_queries.contains(#[trigger] filters[i])
}

fn bytes_eq(a: &Vec<u8>, b: &Vec<u8>) -> (r: bool)
    ensures
        r == (a@ == b@),
{
    if a.len() != b.len() {
        return false;
    }
    let mut i: usize = 0;
    while i < a.len()
        invariant
            i <= a@.len(),
            a@.len() == b@.len(),
            forall|k: int| 0 <= k < i ==> a@[k] == b@[k],
        decreases a@.len() - i,
    {
        if a[i] != b[i] {
            return false;
        }
        i = i + 1;
    }
    assert(a@ =~= b@);
    true
}

/// The view of an optional string.
pub open spec fn opt_text(s: Option<String>) -> Option<Seq<char>> {
    match s {
        Some(x) => Some(x@),
        None => None,
    }
}

fn contains_pair(pairs: &Vec<(Vec<u8>, Vec<u8>)>, p: &(Vec<u8>, Vec<u8>)) -> (r: bool)
    ensures
        r == pairs_view(pairs@).contains((p.0@, p.1@)),
{
    let ghost pv = pairs_view(pairs@);
    let mut j: usize = 0;
    while j < pairs.len()
        invariant
            j <= pairs@.len(),
            pv == pairs_view(pairs@),
            forall|k: int| 0 <= k < j ==> pv[k] != (p.0@, p.1@),
        decreases pairs@.len() - j,
    {
        if bytes_eq(&pairs[j].0, &p.0) && bytes_eq(&pairs[j].1, &p.1) {
            assert(pv[j as int] == (p.0@, p.1@));
            return true;
        }
        j = j + 1;
    }
    false
}

/// Whether a cached entry is selected by an invalidation request.
pub fn entry_matches(
    entry_path: &Vec<u8>,
    entry_rule_path: &Option<String>,
    path: &Vec<u8>,
    rule_path: &Option<String>,
    filters: &Vec<(Vec<u8>, Vec<u8>)>,
    entry_queries: &Vec<(Vec<u8>, Vec<u8>)>,
) -> (r: bool)
    ensures
        r == entry_selected(
            entry_path@,
            opt_text(*entry_rule_path),
            path@,
            opt_text(*rule_path),
            pairs_view(filters@),
            pairs_view(entry_queries@),
        ),
        r ==> entry_path@ == path@,
        r ==> forall|i: int| 0 <= i < filters@.len() ==> pairs_view(entry_queries@).contains(
            (#[trigger] filters@[i].0@, filters@[i].1@),
        ),
        forall|i: int| 0 <= i < filters@.len() && !pairs_view(entry_queries@).contains(
            (#[trigger] filters@[i].0@, filters@[i].1@),
        ) ==> !r,
{
    if !bytes_eq(entry_path, path) {
        return false;
    }
    let same_rule = match (entry_rule_path, rule_path) {
        (Some(a), Some(b)) => *a == *b,
        (None, None) => true,
        _ => false,
    };
    if !same_rule {
        return false;
    }
    let ghost fv = pairs_view(filters@);
    let mut i: usize = 0;
    while i < filters.len()
        invariant
            i <= filters@.len(),
            fv == pairs_view(filters@),
            forall|k: int| 0 <= k < i ==> pairs_view(entry_queries@).contains(#[trigger] fv[k]),
        decreases filters@.len() - i,
    {
        if !contains_pair(entry_queries, &filters[i]) {
            assert(fv[i as int] == (filters@[i as int].0@, filters@[i as int].1@));
            return false;
        }
        i = i + 1;
    }
    proof {
        assert forall|k: int| 0 <= k < filters@.len() implies pairs_view(entry_queries@).contains(
            (#[trigger] filters@[k].0@, filters@[k].1@),
        ) by {
            assert(fv[k] == (filters@[k].0@, filters@[k].1@));
        }
    }
    true
}

/// A cached entry as the invalidation walk sees it: its key, its path, the
/// path of its rule, and its query pairs.
pub struct InvalidationCandidate {
    pub key: u64,
    pub path: Vec<u8>,
    pub rule_path: Option<String>,
    pub queries: Vec<(Vec<u8>, Vec<u8>)>,
}

/// The keys of the candidates that an invalidation selects, in order.
pub open spec fn selected_keys(
    cands: Seq<InvalidationCandidate>,
    path: Seq<u8>,
    rule_path: Option<Seq<char>>,
    filters: Seq<Pair>,
) -> Seq<u64>
    decreases cands.len(),
{
    if cands.len() == 0 {
        Seq::empty()
    } else {
        let rest = selected_keys(cands.drop_last(), path, rule_path, filters);
        let c = cands.last();
        if entry_selected(c.path@, opt_text(c.rule_path), path, rule_path, filters, pairs_view(c.queries@)) {
            rest.push(c.key)
        } else {
            rest
        }
    }
}

/// The candidate is selected by the invalidation.
pub open spec fn candidate_selected(
    c: InvalidationCandidate,
    path: Seq<u8>,
    rule_path: Option<Seq<char>>,
    filters: Seq<Pair>,
) -> bool {
    entry_selected(c.path@, opt_text(c.rule_path), path, rule_path, filters, pairs_view(c.queries@))
}

/// Some selected candidate has this key.
pub open spec fn key_selected(
    cands: Seq<InvalidationCandidate>,
    key: u64,
    path: Seq<u8>,
    rule_path: Option<Seq<char>>,
    filters: Seq<Pair>,
) -> bool {
    exists|i: int|
        0 <= i < cands.len() && #[trigger] cands[i].key == key && candidate_selected(
            cands[i],
            path,
            rule_path,
            filters,
        )
}

/// The keys of the entries that an invalidation removes or marks stale:
/// those of the requested path and rule whose query pairs hold every filter
/// pair, in the order the entries are given. Every selected candidate's key
/// is returned, and every returned key is that of a selected candidate.
pub fn select_invalidated(
    cands: &Vec<InvalidationCandidate>,
    path: &Vec<u8>,
    rule_path: &Option<String>,
    filters: &Vec<(Vec<u8>, Vec<u8>)>,
) -> (r: Vec<u64>)
    ensures
        r@ == selected_keys(cands@, path@, opt_text(*rule_path), pairs_view(filters@)),
        forall|i: int|
            0 <= i < cands@.len() && #[trigger] candidate_selected(
                cands@[i],
                path@,
                opt_text(*rule_path),
                pairs_view(filters@),
            ) ==> r@.contains(cands@[i].key),
        forall|j: int|
            0 <= j < r@.len() ==> key_selected(
                cands@,
                #[trigger] r@[j],
                path@,
                opt_text(*rule_path),
                pairs_view(filters@),
            ),
{
    let ghost fv = pairs_view(filters@);
    let ghost rp = opt_text(*rule_path);
    let mut out: Vec<u64> = Vec::new();
    let mut i: usize = 0;
    while i < cands.len()
        invariant
            i <= cands@.len(),
            fv == pairs_view(filters@),
            rp == opt_text(*rule_path),
            out@ == selected_keys(cands@.take(i as int), path@, rp, fv),
            forall|k: int|
                0 <= k < i && #[trigger] candidate_selected(cands@[k], path@, rp, fv) ==> out@.contains(
                    cands@[k].key,
                ),
            forall|j: int| 0 <= j < out@.len() ==> key_selected(cands@, #[trigger] out@[j], path@, rp, fv),
        decreases cands@.len() - i,
    {
        let ghost before = out@;
        proof {
            assert(cands@.take(i + 1).drop_last() =~= cands@.take(i as int));
            assert(cands@.take(i + 1).last() == cands@[i as int]);
        }
        let c = &cands[i];
        if entry_matches(&c.path, &c.rule_path, path, rule_path, filters, &c.queries) {
            out.push(c.key);
            proof {
                assert(candidate_selected(cands@[i as int], path@, rp, fv));
                assert(out@[out@.len() - 1] == cands@[i as int].key);
                assert forall|k: int|
                    0 <= k < i + 1 && #[trigger] candidate_selected(cands@[k], path@, rp, fv)
                        implies out@.contains(cands@[k].key) by {
                    if k < i {
                        let j = choose|j: int| 0 <= j < before.len() && before[j] == cands@[k].key;
                        assert(out@[j] == before[j]);
                    } else {
                        assert(out@[out@.len() - 1] == cands@[k].key);
                    }
                }
                assert forall|j: int| 0 <= j < out@.len() implies key_selected(
                    cands@,
                    #[trigger] out@[j],
                    path@,
                    rp,
                    fv,
                ) by {
                    if j < before.len() {
                        assert(out@[j] == before[j]);
                        assert(key_selected(cands@, before[j], path@, rp, fv));
                    } else {
                        assert(cands@[i as int].key == out@[j]);
                    }
                }
            }
        } else {
            proof {
                assert(!candidate_selected(cands@[i as int], path@, rp, fv));
            }
        }
        i = i + 1;
    }
    proof {
        assert(cands@.take(i as int) =~= cands@);
    }
    out
}

/// An entry is invalidated exactly when it belongs to the requested path
/// and rule and every filter pair, whichever its place among the filters,
/// is among the entry's query pairs; one missing filter pair keeps the
/// entry.
pub proof fn law_every_filter_must_match(
    entry_path: Seq<u8>,
    entry_rule_path: Option<Seq<char>>,
    path: Seq<u8>,
    rule_path: Option<Seq<char>>,
    filters: Seq<Pair>,
    entry_queries: Seq<Pair>,
    missing: int,
)
    ensures
        entry_selected(entry_path, entry_rule_path, path, rule_path, filters, entry_queries) <==> (
        entry_path == path && entry_rule_path == rule_path && forall|i: int|
            0 <= i < filters.len() ==> #[trigger] entry_queries.contains(filters[i])),
        0 <= missing < filters.len() && !entry_queries.contains(filters[missing]) ==> !entry_selected(
            entry_path,
            entry_rule_path,
            path,
            rule_path,
            filters,
            entry_queries,
        ),
{
}

} // verus!
