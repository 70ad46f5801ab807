//! Selection of the query parameters that a rule keeps in the cache key.

use crate::config::Rule;
use crate::kv_sort::{kv_slice, pairs_view, sorted_pairs, Pair};
use crate::text::{chars_of, str_from_utf8, string_from_chars};
use vstd::prelude::*;
use vstd::utf8::{decode_utf8, encode_utf8, valid_utf8};

verus! {

/// ASCII lower case of one character; other characters are kept.
pub open spec fn ascii_lower(c: char) -> char {
    if 'A' <= c <= 'Z' {
        ((c as u32) + 32) as char
    } else {
        c
    }
}

/// The characters with every leading `?` removed.
pub open spec fn trim_question(cs: Seq<char>) -> Seq<char>
    decreases cs.len(),
{
    if cs.len() > 0 && cs[0] == '?' {
        trim_question(cs.drop_first())
    } else {
        cs
    }
}

/// The characters with the two characters after each `%` in ASCII lower
/// case; a `%` followed by fewer than two characters ends the text as it is.
pub open spec fn lower_escapes(cs: Seq<char>) -> Seq<char>
    decreases cs.len(),
{
    if cs.len() == 0 {
        cs
    } else if cs[0] == '%' {
        if cs.len() >= 3 {
            seq!['%', ascii_lower(cs[1]), ascii_lower(cs[2])] + lower_escapes(cs.skip(3))
        } else {
            cs
        }
    } else {
        seq![cs[0]] + lower_escapes(cs.drop_first())
    }
}

/// The characters that the query bytes encode, none if they are not UTF-8.
pub open spec fn query_chars(query: Seq<u8>) -> Seq<char> {
    if valid_utf8(query) {
        decode_utf8(query)
    } else {
        Seq::empty()
    }
}

/// The query as it is handed to the form decoder.
pub open spec fn normalized_query(query: Seq<u8>) -> Seq<char> {
    lower_escapes(trim_question(query_chars(query)))
}

/// What `form_urlencoded::parse` decodes from the given bytes: the
/// percent-decoded name/value pairs, in order, as UTF-8 bytes.
pub uninterp spec fn form_urlencoded_pairs(input: Seq<u8>) -> Seq<Pair>;

/// Calls `form_urlencoded::parse` and owns each decoded name and value as
/// bytes.
#[verifier::external_body]
fn parse_form_pairs(input: &[u8]) -> (r: Vec<(Vec<u8>, Vec<u8>)>)
    ensures
        pairs_view(r@) == form_urlencoded_pairs(input@),
{
    url::form_urlencoded::parse(input).map(|(k, v)| (k.into_owned().into_bytes(), v.into_owned().into_bytes())).collect()
}

fn to_ascii_lower(c: char) -> (r: char)
    ensures
        r == ascii_lower(c),
{
    if 'A' <= c && c <= 'Z' {
        let u: u8 = c as u8;
        (u + 32) as char
    } else {
        c
    }
}

proof fn lemma_trim_step(cs: Seq<char>, i: int)
    requires
        0 <= i < cs.len(),
        cs[i] == '?',
    ensures
        trim_question(cs.skip(i)) == trim_question(cs.skip(i + 1)),
{
    assert(cs.skip(i).drop_first() =~= cs.skip(i + 1));
}

/// Lower-cases the hexadecimal digits of the percent escapes of a query,
/// after dropping its leading `?`s; bytes that are not UTF-8 give an empty
/// query.
pub fn normalize_percent_encoding(query_bytes: &[u8]) -> (r: String)
    ensures
        r@ == normalized_query(query_bytes@),
{
    let cs: Vec<char> = match str_from_utf8(query_bytes) {
        Some(s) => chars_of(s.as_str()),
        None => Vec::new(),
    };
    let ghost all = cs@;
    assert(all == query_chars(query_bytes@));
    let mut start: usize = 0;
    assert(all.skip(0) =~= all);
    while start < cs.len() && cs[start] == '?'
        invariant
            start <= cs@.len(),
            trim_question(all) == trim_question(all.skip(start as int)),
            cs@ == all,
        decreases cs@.len() - start,
    {
        proof {
            lemma_trim_step(all, start as int);
        }
        start = start + 1;
    }
    assert(trim_question(all.skip(start as int)) == all.skip(start as int));
    let mut out: Vec<char> = Vec::new();
    let mut i: usize = start;
    while i < cs.len()
        invariant
            start <= i <= cs@.len(),
            cs@ == all,
            lower_escapes(all.skip(start as int)) == out@ + lower_escapes(all.skip(i as int)),
        decreases cs@.len() - i,
    {
        let ghost rest = all.skip(i as int);
        let ghost prev = out@;
        if cs[i] == '%' {
            if cs.len() - i > 2 {
                let d1 = to_ascii_lower(cs[i + 1]);
                let d2 = to_ascii_lower(cs[i + 2]);
                out.push('%');
                out.push(d1);
                out.push(d2);
                proof {
                    assert(rest.skip(3) =~= all.skip(i + 3));
                    assert(out@ =~= prev + seq!['%', ascii_lower(rest[1]), ascii_lower(rest[2])]);
                }
                i = i + 3;
            } else {
                while i < cs.len()
                    invariant
                        start <= i <= cs@.len(),
                        cs@ == all,
                        out@ + all.skip(i as int) == prev + rest,
                    decreases cs@.len() - i,
                {
                    let ghost before = out@;
                    out.push(cs[i]);
                    proof {
                        assert(all.skip(i as int) =~= seq![all[i as int]] + all.skip(i + 1));
                        assert(out@ =~= before + seq![all[i as int]]);
                    }
                    i = i + 1;
                }
                proof {
                    assert(all.skip(i as int) =~= Seq::<char>::empty());
                    assert(out@ =~= prev + rest);
                }
            }
        } else {
            out.push(cs[i]);
            proof {
                assert(rest.drop_first() =~= all.skip(i + 1));
                assert(out@ =~= prev + seq![rest[0]]);
            }
            i = i + 1;
        }
    }
    assert(all.skip(i as int) =~= Seq::<char>::empty());
    assert(out@ =~= out@ + Seq::<char>::empty());
    string_from_chars(out)
}

/// The pairs, in order, whose name is one of the allowed names.
pub open spec fn kept_pairs(allowed: Seq<Seq<u8>>, pairs: Seq<Pair>) -> Seq<Pair>
    decreases pairs.len(),
{
    if pairs.len() == 0 {
        Seq::empty()
    } else {
        let n = pairs.len() - 1;
        let rest = kept_pairs(allowed, pairs.take(n));
        if allowed.contains(pairs[n].0) {
            rest.push(pairs[n])
        } else {
            rest
        }
    }
}

/// The allowed query names of a rule, none where the rule or its list is
/// absent.
pub open spec fn rule_query_names(rule: Option<&Rule>) -> Seq<Seq<u8>> {
    match rule {
        Some(r) => match r.cache_key.query_bytes {
            Some(q) => q@.map_values(|b: Vec<u8>| b@),
            None => Seq::empty(),
        },
        None => Seq::empty(),
    }
}

proof fn lemma_kept_pairs_step(allowed: Seq<Seq<u8>>, pairs: Seq<Pair>, i: int)
    requires
        0 <= i < pairs.len(),
    ensures
        kept_pairs(allowed, pairs.take(i + 1)) == if allowed.contains(pairs[i].0) {
            kept_pairs(allowed, pairs.take(i)).push(pairs[i])
        } else {
            kept_pairs(allowed, pairs.take(i))
        },
{
    assert(pairs.take(i + 1).take(i) =~= pairs.take(i));
}

proof fn lemma_kept_pairs_none(pairs: Seq<Pair>)
    ensures
        kept_pairs(Seq::empty(), pairs) == Seq::<Pair>::empty(),
    decreases pairs.len(),
{
    if pairs.len() > 0 {
        lemma_kept_pairs_none(pairs.take(pairs.len() - 1));
    }
}

fn bytes_equal(a: &[u8], b: &[u8]) -> (r: bool)
    ensures
        r == (a@ == b@),
{
    if a.len() != b.len() {
        return false;
    }
    let mut i: usize = 0;
    while i < a.len()
        invariant
            i <= a@.len(),
            a@.len() == b@.len(),
            forall|k: int| 0 <= k < i ==> a@[k] == b@[k],
        decreases a@.len() - i,
    {
        if a[i] != b[i] {
            return false;
        }
        i = i + 1;
    }
    assert(a@ =~= b@);
    true
}

fn name_allowed(allowed: &Vec<Vec<u8>>, name: &Vec<u8>) -> (r: bool)
    ensures
        r == allowed@.map_values(|b: Vec<u8>| b@).contains(name@),
{
    let ghost names = allowed@.map_values(|b: Vec<u8>| b@);
    let mut j: usize = 0;
    while j < allowed.len()
        invariant
            j <= allowed@.len(),
            names == allowed@.map_values(|b: Vec<u8>| b@),
            forall|k: int| 0 <= k < j ==> (#[trigger] allowed@[k])@ != name@,
        decreases allowed@.len() - j,
    {
        if bytes_equal(allowed[j].as_slice(), name.as_slice()) {
            assert(names[j as int] == name@);
            return true;
        }
        j = j + 1;
    }
    assert forall|k: int| 0 <= k < names.len() implies names[k] != name@ by {
        assert(names[k] == allowed@[k]@);
    }
    false
}

/// Keeps the decoded pairs whose name is one of the allowed names, sorted
/// by name and then by value.
pub fn select_query_pairs(allowed: &Vec<Vec<u8>>, pairs: Vec<(Vec<u8>, Vec<u8>)>) -> (r: Vec<
    (Vec<u8>, Vec<u8>),
>)
    ensures
        sorted_pairs(pairs_view(r@)),
        pairs_view(r@).to_multiset() == kept_pairs(
            allowed@.map_values(|b: Vec<u8>| b@),
            pairs_view(pairs@),
        ).to_multiset(),
{
    let ghost names = allowed@.map_values(|b: Vec<u8>| b@);
    let ghost all = pairs_view(pairs@);
    let mut rest = pairs;
    let mut out: Vec<(Vec<u8>, Vec<u8>)> = Vec::new();
    let ghost mut i: int = 0;
    while rest.len() > 0
        invariant
            0 <= i <= all.len(),
            pairs_view(rest@) == all.skip(i),
            pairs_view(out@) == kept_pairs(names, all.take(i)),
            names == allowed@.map_values(|b: Vec<u8>| b@),
        decreases rest@.len(),
    {
        let ghost rv = pairs_view(rest@);
        proof {
            assert(rv.len() == rest@.len());
        }
        let p = rest.remove(0);
        proof {
            assert(rv[0] == (p.0@, p.1@));
            assert(all[i] == (p.0@, p.1@));
            lemma_kept_pairs_step(names, all, i);
            assert(all.skip(i).drop_first() =~= all.skip(i + 1));
            assert(pairs_view(rest@) =~= all.skip(i).drop_first());
        }
        if name_allowed(allowed, &p.0) {
            let ghost prev = out@;
            out.push(p);
            assert(pairs_view(out@) =~= pairs_view(prev).push(all[i]));
        }
        proof {
            i = i + 1;
        }
    }
    assert(all.take(i) =~= all);
    kv_slice(&mut out);
    out
}

/// Keeps the query parameters that the rule names (matched exactly, after
/// percent-decoding), as byte pairs sorted by name and then by value.
/// Without a rule or a name list nothing is kept.
pub fn filter_and_sort_request(rule: Option<&Rule>, query_bytes: &[u8]) -> (r: Vec<
    (Vec<u8>, Vec<u8>),
>)
    ensures
        sorted_pairs(pairs_view(r@)),
        pairs_view(r@).to_multiset() == kept_pairs(
            rule_query_names(rule),
            form_urlencoded_pairs(encode_utf8(normalized_query(query_bytes@))),
        ).to_multiset(),
{
    let allowed = match rule {
        Some(r) => match &r.cache_key.query_bytes {
            Some(q) => q,
            None => {
                proof {
                    lemma_kept_pairs_none(
                        form_urlencoded_pairs(encode_utf8(normalized_query(query_bytes@))),
                    );
                }
                let none: Vec<(Vec<u8>, Vec<u8>)> = Vec::new();
                assert(pairs_view(none@) =~= Seq::<Pair>::empty());
                return none;
            },
        },
        None => {
            proof {
                lemma_kept_pairs_none(
                    form_urlencoded_pairs(encode_utf8(normalized_query(query_bytes@))),
                );
            }
            let none: Vec<(Vec<u8>, Vec<u8>)> = Vec::new();
            assert(pairs_view(none@) =~= Seq::<Pair>::empty());
            return none;
        },
    };
    let normalized = normalize_percent_encoding(query_bytes);
    let pairs = parse_form_pairs(normalized.as_str().as_bytes());
    select_query_pairs(allowed, pairs)
}

proof fn lemma_ascii_lower_idempotent(c: char)
    ensures
        ascii_lower(ascii_lower(c)) == ascii_lower(c),
{
    if 'A' <= c <= 'Z' {
        assert((((c as u32) + 32) as char) as u32 == (c as u32) + 32);
    }
}

proof fn lemma_lower_escapes_idempotent(cs: Seq<char>)
    ensures
        lower_escapes(lower_escapes(cs)) == lower_escapes(cs),
    decreases cs.len(),
{
    if cs.len() == 0 {
    } else if cs[0] == '%' {
        if cs.len() >= 3 {
            let rest = cs.skip(3);
            lemma_lower_escapes_idempotent(rest);
            lemma_ascii_lower_idempotent(cs[1]);
            lemma_ascii_lower_idempotent(cs[2]);
            let t = lower_escapes(cs);
            assert(t == seq!['%', ascii_lower(cs[1]), ascii_lower(cs[2])] + lower_escapes(rest));
            assert(t[0] == '%' && t[1] == ascii_lower(cs[1]) && t[2] == ascii_lower(cs[2]));
            assert(t.skip(3) =~= lower_escapes(rest));
        }
    } else {
        let rest = cs.drop_first();
        lemma_lower_escapes_idempotent(rest);
        let t = lower_escapes(cs);
        assert(t == seq![cs[0]] + lower_escapes(rest));
        assert(t[0] == cs[0]);
        assert(t.drop_first() =~= lower_escapes(rest));
    }
}

proof fn lemma_trim_question_head(cs: Seq<char>)
    ensures
        trim_question(cs).len() == 0 || trim_question(cs)[0] != '?',
    decreases cs.len(),
{
    if cs.len() > 0 && cs[0] == '?' {
        lemma_trim_question_head(cs.drop_first());
    }
}

proof fn lemma_lower_escapes_head(cs: Seq<char>)
    requires
        cs.len() > 0,
    ensures
        lower_escapes(cs).len() > 0,
        lower_escapes(cs)[0] == cs[0],
{
}

/// Normalizing a query twice gives what normalizing it once gives: the
/// text handed to the form decoder is already in normal form.
pub proof fn law_normalize_idempotent(query: Seq<u8>)
    ensures
        normalized_query(encode_utf8(normalized_query(query))) == normalized_query(query),
{
    let n = normalized_query(query);
    vstd::utf8::encode_utf8_valid_utf8(n);
    vstd::utf8::encode_utf8_decode_utf8(n);
    assert(query_chars(encode_utf8(n)) == n);
    let t = trim_question(query_chars(query));
    lemma_trim_question_head(query_chars(query));
    if t.len() > 0 {
        lemma_lower_escapes_head(t);
    }
    assert(trim_question(n) == n);
    lemma_lower_escapes_idempotent(t);
}

} // verus!
