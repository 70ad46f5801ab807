//! Text helpers: character vectors, decimal digits and string building.

use vstd::prelude::*;
use vstd::std_specs::iter::IteratorSpec;
use vstd::utf8::{decode_utf8, valid_utf8};

verus! {

/// Calls `std::str::from_utf8` and owns the result.
#[verifier::external_body]
pub(crate) fn str_from_utf8(bytes: &[u8]) -> (r: Option<String>)
    ensures
        r is Some <==> valid_utf8(bytes@),
        r matches Some(s) ==> s@ == decode_utf8(bytes@),
{
    match std::str::from_utf8(bytes) {
        Ok(s) => Some(s.to_string()),
        Err(_) => None,
    }
}

/// Calls `String::from_iter` on a vector of characters.
#[verifier::external_body]
pub(crate) fn string_from_chars(chars: Vec<char>) -> (r: String)
    ensures
        r@ == chars@,
{
    String::from_iter(chars)
}

/// The characters of a string, in order.
pub fn chars_of(s: &str) -> (r: Vec<char>)
    ensures
        r@ == s@,
{
    let mut out: Vec<char> = Vec::new();
    for c in it: s.chars()
        invariant
            out@ == it.seq().take(it.index() as int),
    {
        out.push(c);
    }
    out
}

/// The character of a decimal digit.
pub open spec fn digit_char(d: nat) -> char {
    (48 + d) as char
}

/// The decimal digits of a number, without leading zeros ("0" for zero).
pub open spec fn decimal(n: nat) -> Seq<char>
    decreases n,
{
    if n < 10 {
        seq![digit_char(n)]
    } else {
        decimal(n / 10).push(digit_char(n % 10))
    }
}

/// Appends the decimal digits of `n`.
pub fn push_decimal(out: &mut Vec<char>, n: u64)
    ensures
        final(out)@ == old(out)@ + decimal(n as nat),
    decreases n,
{
    if n >= 10 {
        push_decimal(out, n / 10);
    }
    let d: u8 = (n % 10) as u8;
    let ghost mid = out@;
    out.push((48u8 + d) as char);
    proof {
        if n >= 10 {
            assert(mid == old(out)@ + decimal((n / 10) as nat));
        } else {
            assert(mid == old(out)@);
        }
        assert(out@ =~= old(out)@ + decimal(n as nat));
    }
}

/// Appends the characters of `s`.
pub fn push_str(out: &mut Vec<char>, s: &str)
    ensures
        final(out)@ == old(out)@ + s@,
{
    let cs = chars_of(s);
    let mut i: usize = 0;
    while i < cs.len()
        invariant
            i <= cs@.len(),
            cs@ == s@,
            out@ == old(out)@ + cs@.take(i as int),
        decreases cs@.len() - i,
    {
        let ghost prev = out@;
        out.push(cs[i]);
        assert(cs@.take(i + 1) =~= cs@.take(i as int).push(cs@[i as int]));
        i = i + 1;
    }
    assert(cs@.take(i as int) =~= cs@);
}

/// An ASCII decimal digit.
pub open spec fn is_digit(c: char) -> bool {
    '0' <= c <= '9'
}

/// The value of a string of decimal digits (zero for none).
pub open spec fn digits_value(cs: Seq<char>) -> nat
    decreases cs.len(),
{
    if cs.len() == 0 {
        0
    } else {
        digits_value(cs.drop_last()) * 10 + ((cs.last() as nat) - 48) as nat
    }
}

/// The digits of an unsigned number, after an optional leading `+`.
pub open spec fn unsigned_digits(cs: Seq<char>) -> Seq<char> {
    if cs.len() > 0 && cs[0] == '+' {
        cs.drop_first()
    } else {
        cs
    }
}

/// The text is an unsigned decimal number as `str::parse` reads one: an
/// optional `+` and at least one digit, nothing else.
pub open spec fn is_unsigned_text(cs: Seq<char>) -> bool {
    let d = unsigned_digits(cs);
    d.len() > 0 && forall|i: int| 0 <= i < d.len() ==> is_digit(#[trigger] d[i])
}

/// The value of an unsigned decimal text.
pub open spec fn unsigned_value(cs: Seq<char>) -> nat {
    digits_value(unsigned_digits(cs))
}

proof fn lemma_digits_value_grows(cs: Seq<char>, i: int)
    requires
        0 <= i <= cs.len(),
        forall|k: int| 0 <= k < cs.len() ==> is_digit(#[trigger] cs[k]),
    ensures
        digits_value(cs.take(i)) <= digits_value(cs),
    decreases cs.len() - i,
{
    if i < cs.len() {
        lemma_digits_value_grows(cs, i + 1);
        let t = cs.take(i + 1);
        assert(t.drop_last() =~= cs.take(i));
        assert(t.last() == cs[i]);
    } else {
        assert(cs.take(i) =~= cs);
    }
}

/// Reads the unsigned decimal number in `cs[start..]`, as `str::parse::<u64>`
/// does: none unless the text is an optional `+` and digits whose value fits.
pub fn parse_u64_from(cs: &Vec<char>, start: usize) -> (r: Option<u64>)
    requires
        start <= cs@.len(),
    ensures
        r is Some <==> (is_unsigned_text(cs@.skip(start as int)) && unsigned_value(cs@.skip(start as int)) <= u64::MAX),
        r matches Some(v) ==> v == unsigned_value(cs@.skip(start as int)),
{
    let ghost text = cs@.skip(start as int);
    let mut i: usize = start;
    if i < cs.len() && cs[i] == '+' {
        i = i + 1;
    }
    let ghost d = unsigned_digits(text);
    assert(d =~= cs@.skip(i as int));
    if i == cs.len() {
        return None;
    }
    let first = i;
    let mut value: u64 = 0;
    while i < cs.len()
        invariant
            first <= i <= cs@.len(),
            first < cs@.len(),
            d =~= cs@.skip(first as int),
            d == unsigned_digits(text),
            text == cs@.skip(start as int),
            forall|k: int| first <= k < i ==> is_digit(#[trigger] cs@[k]),
            value == digits_value(cs@.subrange(first as int, i as int)),
        decreases cs@.len() - i,
    {
        let c = cs[i];
        if !('0' <= c && c <= '9') {
            assert(d[i - first] == c);
            assert(!is_digit(d[i - first]));
            assert(!is_unsigned_text(text));
            return None;
        }
        let digit: u64 = ((c as u32) - 48) as u64;
        let ghost sub = cs@.subrange(first as int, i + 1);
        assert(sub.drop_last() =~= cs@.subrange(first as int, i as int));
        assert(sub.last() == c);
        assert(digits_value(sub) == value * 10 + digit);
        if value > (u64::MAX - digit) / 10 {
            proof {
                assert(digits_value(sub) > u64::MAX) by (nonlinear_arith)
                    requires
                        digits_value(sub) == value * 10 + digit,
                        value > (u64::MAX - digit) / 10,
                        digit <= 9,
                ;
                if is_unsigned_text(text) {
                    assert(d.take(i + 1 - first) =~= sub);
                    lemma_digits_value_grows(d, i + 1 - first);
                }
            }
            return None;
        }
        proof {
            assert(value * 10 + digit <= u64::MAX) by (nonlinear_arith)
                requires
                    value <= (u64::MAX - digit) / 10,
                    digit <= 9,
            ;
        }
        value = value * 10 + digit;
        i = i + 1;
    }
    assert(cs@.subrange(first as int, i as int) =~= d);
    Some(value)
}

/// Reads an unsigned decimal number as `str::parse::<u64>` does.
pub fn parse_u64(s: &str) -> (r: Option<u64>)
    ensures
        r is Some <==> (is_unsigned_text(s@) && unsigned_value(s@) <= u64::MAX),
        r matches Some(v) ==> v == unsigned_value(s@),
{
    let cs = chars_of(s);
    assert(cs@.skip(0) =~= s@);
    parse_u64_from(&cs, 0)
}

/// Reads an unsigned decimal number as `str::parse::<usize>` does.
pub fn parse_usize(s: &str) -> (r: Option<usize>)
    ensures
        r is Some <==> (is_unsigned_text(s@) && unsigned_value(s@) <= usize::MAX),
        r matches Some(v) ==> v == unsigned_value(s@),
{
    match parse_u64(s) {
        Some(v) => {
            if v <= usize::MAX as u64 {
                Some(v as usize)
            } else {
                None
            }
        },
        None => None,
    }
}

} // verus!
