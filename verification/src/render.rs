//! The headers of a response written from a cached or upstream answer.

use crate::last_updated_at::{header_secs, set_last_updated_at_value, utc_format, LAST_UPDATED_AT_KEY, RFC1123_PATTERN};
use crate::kv_sort::{pairs_view, Pair};
use crate::text::{decimal, push_decimal, string_from_chars};
use vstd::prelude::*;
use vstd::utf8::encode_utf8;

verus! {

/// Name of the body length header.
pub const CONTENT_LENGTH_KEY: &'static str = "content-length";

/// The headers of a response, in the order they are set: the answer's own,
/// then `Last-Updated-At` where the update time is known (not zero), then
/// the body length.
pub open spec fn response_header_pairs(headers: Seq<Pair>, updated_at: i64, body_len: nat) -> Seq<Pair> {
    headers + (if updated_at != 0 {
        seq![(encode_utf8(LAST_UPDATED_AT_KEY@), encode_utf8(utc_format(header_secs(updated_at), RFC1123_PATTERN@)))]
    } else {
        Seq::empty()
    }) + seq![(encode_utf8(CONTENT_LENGTH_KEY@), encode_utf8(decimal(body_len)))]
}

fn str_bytes(s: &str) -> (r: Vec<u8>)
    ensures
        r@ == encode_utf8(s@),
{
    vstd::slice::slice_to_vec(s.as_bytes())
}

/// The headers to set on a response with the given headers, update time
/// (nanoseconds since the epoch) and body length.
pub fn response_headers(headers: &Vec<(Vec<u8>, Vec<u8>)>, updated_at: i64, body_len: usize) -> (r: Vec<
    (Vec<u8>, Vec<u8>),
>)
    ensures
        pairs_view(r@) == response_header_pairs(pairs_view(headers@), updated_at, body_len as nat),
{
    let mut out: Vec<(Vec<u8>, Vec<u8>)> = Vec::new();
    let mut i: usize = 0;
    while i < headers.len()
        invariant
            i <= headers@.len(),
            pairs_view(out@) == pairs_view(headers@).take(i as int),
        decreases headers@.len() - i,
    {
        let k = vstd::slice::slice_to_vec(headers[i].0.as_slice());
        let v = vstd::slice::slice_to_vec(headers[i].1.as_slice());
        let ghost prev = pairs_view(out@);
        out.push((k, v));
        assert(pairs_view(out@) =~= prev.push((headers@[i as int].0@, headers@[i as int].1@)));
        assert(pairs_view(headers@).take(i + 1) =~= pairs_view(headers@).take(i as int).push(pairs_view(headers@)[i as int]));
        i = i + 1;
    }
    assert(pairs_view(headers@).take(i as int) =~= pairs_view(headers@));
    let ghost own = pairs_view(out@);
    match set_last_updated_at_value(updated_at) {
        Some(date) => {
            let k = str_bytes(LAST_UPDATED_AT_KEY);
            let v = str_bytes(date.as_str());
            out.push((k, v));
        },
        None => {},
    }
    let ghost mid = pairs_view(out@);
    let mut digits: Vec<char> = Vec::new();
    push_decimal(&mut digits, body_len as u64);
    let len_text = string_from_chars(digits);
    let k = str_bytes(CONTENT_LENGTH_KEY);
    let v = str_bytes(len_text.as_str());
    out.push((k, v));
    proof {
        if updated_at != 0 {
            assert(mid =~= own.push((encode_utf8(LAST_UPDATED_AT_KEY@), encode_utf8(utc_format(header_secs(updated_at), RFC1123_PATTERN@)))));
        } else {
            assert(mid =~= own);
        }
        assert(pairs_view(out@) =~= response_header_pairs(pairs_view(headers@), updated_at, body_len as nat));
    }
    out
}

} // verus!
