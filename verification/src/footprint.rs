//! The process memory footprint, read from the texts that Linux exposes
//! under `/proc`: `VmRSS` and `VmSwap` of `/proc/self/status`, the cgroup v2
//! `memory.current` file, and the resident page count of `/proc/self/statm`.

use crate::dumper::{contains_text, starts_with};
use crate::text::{chars_of, is_unsigned_text, parse_u64_from, push_str, string_from_chars, unsigned_value};
use vstd::prelude::*;

verus! {

/// A character that `char::is_whitespace` accepts (Unicode `White_Space`).
pub open spec fn is_space(c: char) -> bool {
    ||| '\t' <= c <= '\r'
    ||| c == ' '
    ||| c == '\u{85}'
    ||| c == '\u{a0}'
    ||| c == '\u{1680}'
    ||| '\u{2000}' <= c <= '\u{200a}'
    ||| c == '\u{2028}'
    ||| c == '\u{2029}'
    ||| c == '\u{202f}'
    ||| c == '\u{205f}'
    ||| c == '\u{3000}'
}

pub(crate) fn space(c: char) -> (r: bool)
    ensures
        r == is_space(c),
{
    ('\t' <= c && c <= '\r') || c == ' ' || c == '\u{85}' || c == '\u{a0}' || c == '\u{1680}' || ('\u{2000}' <= c
        && c <= '\u{200a}') || c == '\u{2028}' || c == '\u{2029}' || c == '\u{202f}' || c == '\u{205f}' || c
        == '\u{3000}'
}

/// The first index from `i` on that is not whitespace (the length where
/// there is none).
pub open spec fn skip_spaces(s: Seq<char>, i: int) -> int
    decreases s.len() - i,
{
    if i >= s.len() {
        s.len() as int
    } else if is_space(s[i]) {
        skip_spaces(s, i + 1)
    } else {
        i
    }
}

/// The first index from `i` on that is whitespace (the length where there
/// is none).
pub open spec fn skip_word(s: Seq<char>, i: int) -> int
    decreases s.len() - i,
{
    if i >= s.len() {
        s.len() as int
    } else if is_space(s[i]) {
        i
    } else {
        skip_word(s, i + 1)
    }
}

/// Where the `n`-th (from zero) whitespace-separated field starts, or the
/// length where there are fewer fields.
pub open spec fn field_start(s: Seq<char>, n: nat) -> int
    decreases n,
{
    if n == 0 {
        skip_spaces(s, 0)
    } else {
        skip_spaces(s, skip_word(s, field_start(s, (n - 1) as nat)))
    }
}

/// The `n`-th (from zero) field of `split_whitespace`, if there is one.
pub open spec fn nth_field(s: Seq<char>, n: nat) -> Option<Seq<char>> {
    let a = field_start(s, n);
    if a >= s.len() {
        None
    } else {
        Some(s.subrange(a, skip_word(s, a)))
    }
}

/// The number in the `n`-th field, where it reads as a `u64`.
pub open spec fn field_number(s: Seq<char>, n: nat) -> Option<u64> {
    match nth_field(s, n) {
        Some(f) => if is_unsigned_text(f) && unsigned_value(f) <= u64::MAX {
            Some(unsigned_value(f) as u64)
        } else {
            None
        },
        None => None,
    }
}

/// The index of the first `\n` from `i` on (the length where there is none).
pub open spec fn line_end(s: Seq<char>, i: int) -> int
    decreases s.len() - i,
{
    if i >= s.len() {
        s.len() as int
    } else if s[i] == '\n' {
        i
    } else {
        line_end(s, i + 1)
    }
}

/// The line from `i` on, as `str::lines` gives it (without a final `\r`).
pub open spec fn line_at(s: Seq<char>, i: int) -> Seq<char> {
    let l = s.subrange(i, line_end(s, i));
    if l.len() > 0 && l.last() == '\r' {
        l.drop_last()
    } else {
        l
    }
}

proof fn lemma_skip_bounds(s: Seq<char>, i: int)
    requires
        0 <= i <= s.len(),
    ensures
        i <= skip_spaces(s, i) <= s.len(),
        i <= skip_word(s, i) <= s.len(),
        i <= line_end(s, i) <= s.len(),
    decreases s.len() - i,
{
    if i < s.len() {
        lemma_skip_bounds(s, i + 1);
    }
}

proof fn lemma_field_start_bounds(s: Seq<char>, n: nat)
    ensures
        0 <= field_start(s, n) <= s.len(),
    decreases n,
{
    lemma_skip_bounds(s, 0);
    if n > 0 {
        lemma_field_start_bounds(s, (n - 1) as nat);
        let p = field_start(s, (n - 1) as nat);
        lemma_skip_bounds(s, p);
        lemma_skip_bounds(s, skip_word(s, p));
    }
}

fn skip_spaces_from(cs: &Vec<char>, i: usize) -> (r: usize)
    requires
        i <= cs@.len(),
    ensures
        r == skip_spaces(cs@, i as int),
{
    let mut j = i;
    while j < cs.len() && space(cs[j])
        invariant
            i <= j <= cs@.len(),
            skip_spaces(cs@, i as int) == skip_spaces(cs@, j as int),
        decreases cs@.len() - j,
    {
        j = j + 1;
    }
    j
}

fn skip_word_from(cs: &Vec<char>, i: usize) -> (r: usize)
    requires
        i <= cs@.len(),
    ensures
        r == skip_word(cs@, i as int),
{
    let mut j = i;
    while j < cs.len() && !space(cs[j])
        invariant
            i <= j <= cs@.len(),
            skip_word(cs@, i as int) == skip_word(cs@, j as int),
        decreases cs@.len() - j,
    {
        j = j + 1;
    }
    j
}

fn line_end_from(cs: &Vec<char>, i: usize) -> (r: usize)
    requires
        i <= cs@.len(),
    ensures
        r == line_end(cs@, i as int),
{
    let mut j = i;
    while j < cs.len() && cs[j] != '\n'
        invariant
            i <= j <= cs@.len(),
            line_end(cs@, i as int) == line_end(cs@, j as int),
        decreases cs@.len() - j,
    {
        j = j + 1;
    }
    j
}

fn copy_range(cs: &Vec<char>, a: usize, b: usize) -> (r: Vec<char>)
    requires
        a <= b <= cs@.len(),
    ensures
        r@ == cs@.subrange(a as int, b as int),
{
    let mut out: Vec<char> = Vec::new();
    let mut k = a;
    while k < b
        invariant
            a <= k <= b <= cs@.len(),
            out@ == cs@.subrange(a as int, k as int),
        decreases b - k,
    {
        out.push(cs[k]);
        assert(cs@.subrange(a as int, k + 1) =~= cs@.subrange(a as int, k as int).push(cs@[k as int]));
        k = k + 1;
    }
    out
}

/// The `n`-th whitespace-separated field of the text.
fn nth_field_of(cs: &Vec<char>, n: usize) -> (r: Option<Vec<char>>)
    ensures
        match nth_field(cs@, n as nat) {
            Some(f) => r matches Some(v) && v@ == f,
            None => r is None,
        },
{
    proof {
        lemma_field_start_bounds(cs@, 0);
    }
    let mut start = skip_spaces_from(cs, 0);
    let mut k: usize = 0;
    while k < n
        invariant
            k <= n,
            start == field_start(cs@, k as nat),
            start <= cs@.len(),
        decreases n - k,
    {
        proof {
            lemma_skip_bounds(cs@, start as int);
            lemma_skip_bounds(cs@, skip_word(cs@, start as int));
        }
        let w = skip_word_from(cs, start);
        start = skip_spaces_from(cs, w);
        k = k + 1;
    }
    if start >= cs.len() {
        return None;
    }
    proof {
        lemma_skip_bounds(cs@, start as int);
    }
    let end = skip_word_from(cs, start);
    Some(copy_range(cs, start, end))
}

fn field_number_of(cs: &Vec<char>, n: usize) -> (r: Option<u64>)
    ensures
        r == field_number(cs@, n as nat),
{
    match nth_field_of(cs, n) {
        Some(f) => {
            assert(f@.skip(0) =~= f@);
            parse_u64_from(&f, 0)
        },
        None => None,
    }
}

fn prefix_at(cs: &Vec<char>, p: &Vec<char>) -> (r: bool)
    ensures
        r == starts_with(cs@, p@),
{
    if p.len() > cs.len() {
        return false;
    }
    let mut i: usize = 0;
    while i < p.len()
        invariant
            i <= p@.len() <= cs@.len(),
            forall|k: int| 0 <= k < i ==> cs@[k] == p@[k],
        decreases p@.len() - i,
    {
        if cs[i] != p[i] {
            assert(cs@.take(p@.len() as int)[i as int] != p@[i as int]);
            return false;
        }
        i = i + 1;
    }
    assert(cs@.take(p@.len() as int) =~= p@);
    true
}

fn line_from(cs: &Vec<char>, i: usize) -> (r: (Vec<char>, usize))
    requires
        i <= cs@.len(),
    ensures
        r.0@ == line_at(cs@, i as int),
        r.1 == line_end(cs@, i as int),
{
    proof {
        lemma_skip_bounds(cs@, i as int);
    }
    let e = line_end_from(cs, i);
    let mut line = copy_range(cs, i, e);
    let n = line.len();
    if n > 0 && line[n - 1] == '\r' {
        line.pop();
    }
    (line, e)
}

/// What a scan of `/proc/self/status` from index `i` finds for `VmRSS` and
/// `VmSwap` (in kB), starting from what was found before: a line that
/// starts with the name and whose second field is a number sets it; the
/// scan stops once both are set.
pub open spec fn status_scan(s: Seq<char>, i: int, rss: Option<u64>, swap: Option<u64>) -> (Option<u64>, Option<u64>)
    decreases s.len() - i,
{
    if i < 0 || i >= s.len() {
        (rss, swap)
    } else {
        let line = line_at(s, i);
        let rss2 = if starts_with(line, "VmRSS:"@) {
            match field_number(line, 1) {
                Some(v) => Some(v),
                None => rss,
            }
        } else {
            rss
        };
        let swap2 = if !starts_with(line, "VmRSS:"@) && starts_with(line, "VmSwap:"@) {
            match field_number(line, 1) {
                Some(v) => Some(v),
                None => swap,
            }
        } else {
            swap
        };
        if rss2 is Some && swap2 is Some {
            (rss2, swap2)
        } else if line_end(s, i) >= s.len() || line_end(s, i) < i {
            (rss2, swap2)
        } else {
            status_scan(s, line_end(s, i) + 1, rss2, swap2)
        }
    }
}

/// The footprint in bytes that `/proc/self/status` gives: `VmRSS` plus
/// `VmSwap`, or `VmRSS` alone, times 1024 (wrapping); none without `VmRSS`.
pub open spec fn status_footprint(s: Seq<char>) -> Option<u64> {
    match status_scan(s, 0, None, None) {
        (Some(rss), Some(swap)) => Some(rss.wrapping_add(swap).wrapping_mul(1024)),
        (Some(rss), None) => Some(rss.wrapping_mul(1024)),
        _ => None,
    }
}

/// Reads the footprint from the text of `/proc/self/status`.
pub fn footprint_from_status(content: &str) -> (r: Option<u64>)
    ensures
        r == status_footprint(content@),
{
    let cs = chars_of(content);
    let rss_name = chars_of("VmRSS:");
    let swap_name = chars_of("VmSwap:");
    let mut rss: Option<u64> = None;
    let mut swap: Option<u64> = None;
    let mut i: usize = 0;
    while i < cs.len()
        invariant_except_break
            status_scan(cs@, 0, None, None) == status_scan(cs@, i as int, rss, swap),
        invariant
            i <= cs@.len(),
            cs@ == content@,
            rss_name@ == "VmRSS:"@,
            swap_name@ == "VmSwap:"@,
        ensures
            status_scan(cs@, 0, None, None) == (rss, swap),
        decreases cs@.len() - i,
    {
        let ghost old_rss = rss;
        let ghost old_swap = swap;
        let (line, e) = line_from(&cs, i);
        proof {
            lemma_skip_bounds(cs@, i as int);
        }
        let is_rss = prefix_at(&line, &rss_name);
        if is_rss {
            match field_number_of(&line, 1) {
                Some(v) => {
                    rss = Some(v);
                },
                None => {},
            }
        } else if prefix_at(&line, &swap_name) {
            match field_number_of(&line, 1) {
                Some(v) => {
                    swap = Some(v);
                },
                None => {},
            }
        }
        proof {
            assert(status_scan(cs@, i as int, old_rss, old_swap) == if rss is Some && swap is Some {
                (rss, swap)
            } else if line_end(cs@, i as int) >= cs@.len() {
                (rss, swap)
            } else {
                status_scan(cs@, line_end(cs@, i as int) + 1, rss, swap)
            });
        }
        if rss.is_some() && swap.is_some() {
            break;
        }
        if e >= cs.len() {
            i = cs.len();
        } else {
            i = e + 1;
        }
    }
    match (rss, swap) {
        (Some(r), Some(w)) => Some(r.wrapping_add(w).wrapping_mul(1024)),
        (Some(r), None) => Some(r.wrapping_mul(1024)),
        _ => None,
    }
}

/// The resident page count of `/proc/self/statm`: its second field.
pub fn statm_resident_pages(content: &str) -> (r: Option<u64>)
    ensures
        r == field_number(content@, 1),
{
    let cs = chars_of(content);
    field_number_of(&cs, 1)
}

/// The footprint that the resident page count gives: pages times the page
/// size, or times 4096 where the page size is not positive (wrapping).
pub fn statm_footprint(pages: u64, page_size: i64) -> (r: u64)
    ensures
        r == if page_size > 0 { pages.wrapping_mul(page_size as u64) } else { pages.wrapping_mul(4096) },
{
    if page_size > 0 {
        pages.wrapping_mul(page_size as u64)
    } else {
        pages.wrapping_mul(4096)
    }
}

/// The text with leading and trailing whitespace removed.
pub open spec fn trimmed(s: Seq<char>) -> Seq<char> {
    let a = skip_spaces(s, 0);
    let b = last_non_space(s, s.len() as int);
    if a < b {
        s.subrange(a, b)
    } else {
        Seq::empty()
    }
}

/// One past the last non-whitespace index before `j` (zero where there is
/// none).
pub open spec fn last_non_space(s: Seq<char>, j: int) -> int
    decreases j,
{
    if j <= 0 {
        0
    } else if is_space(s[j - 1]) {
        last_non_space(s, j - 1)
    } else {
        j
    }
}

/// The value of a cgroup `memory.current` file: its trimmed text as a
/// `u64`.
pub fn parse_memory_current(content: &str) -> (r: Option<u64>)
    ensures
        r == (if is_unsigned_text(trimmed(content@)) && unsigned_value(trimmed(content@)) <= u64::MAX {
            Some(unsigned_value(trimmed(content@)) as u64)
        } else {
            None
        }),
{
    let cs = chars_of(content);
    proof {
        lemma_skip_bounds(cs@, 0);
    }
    let a = skip_spaces_from(&cs, 0);
    let mut b = cs.len();
    while b > 0 && space(cs[b - 1])
        invariant
            b <= cs@.len(),
            last_non_space(cs@, cs@.len() as int) == last_non_space(cs@, b as int),
        decreases b,
    {
        b = b - 1;
    }
    let t = if a < b {
        copy_range(&cs, a, b)
    } else {
        Vec::new()
    };
    assert(t@ =~= trimmed(cs@));
    assert(t@.skip(0) =~= t@);
    parse_u64_from(&t, 0)
}

/// The path of `memory.current` that a cgroup v2 mount and a `0::` line of
/// `/proc/self/cgroup` name.
pub open spec fn memory_current_path(mount_point: Seq<char>, dir: Seq<char>) -> Seq<char> {
    mount_point + dir + "/memory.current"@
}

/// The `memory.current` paths to try, in order: for each line of the mount
/// table from `i` on with a fifth field that holds `cgroup` (on a line that
/// holds `cgroup2`), each non-empty directory of a `0::` line of the cgroup
/// text.
pub open spec fn cgroup_candidates(mounts: Seq<char>, i: int, cgroups: Seq<char>) -> Seq<Seq<char>>
    decreases mounts.len() - i,
{
    if i < 0 || i >= mounts.len() {
        Seq::empty()
    } else {
        let line = line_at(mounts, i);
        let here = match nth_field(line, 4) {
            Some(mp) => if contains_text(mp, "cgroup"@) && contains_text(line, "cgroup2"@) {
                cgroup_dirs(cgroups, 0).map_values(|d: Seq<char>| memory_current_path(mp, d))
            } else {
                Seq::empty()
            },
            None => Seq::empty(),
        };
        if line_end(mounts, i) >= mounts.len() || line_end(mounts, i) < i {
            here
        } else {
            here + cgroup_candidates(mounts, line_end(mounts, i) + 1, cgroups)
        }
    }
}

/// The non-empty directories of the `0::` lines of the cgroup text from
/// index `i` on.
pub open spec fn cgroup_dirs(s: Seq<char>, i: int) -> Seq<Seq<char>>
    decreases s.len() - i,
{
    if i < 0 || i >= s.len() {
        Seq::empty()
    } else {
        let line = line_at(s, i);
        let here = if starts_with(line, "0::"@) && line.len() > 3 {
            seq![line.skip(3)]
        } else {
            Seq::empty()
        };
        if line_end(s, i) >= s.len() || line_end(s, i) < i {
            here
        } else {
            here + cgroup_dirs(s, line_end(s, i) + 1)
        }
    }
}

fn holds(s: &Vec<char>, t: &str) -> (r: bool)
    ensures
        r == contains_text(s@, t@),
{
    let tc = chars_of(t);
    if tc.len() > s.len() {
        return false;
    }
    let slen = s.len();
    let mut i: usize = 0;
    while i <= slen - tc.len()
        invariant
            slen == s@.len(),
            tc@ == t@,
            tc@.len() <= s@.len(),
            i <= s@.len() - tc@.len() + 1,
            forall|k: int| 0 <= k < i ==> #[trigger] s@.subrange(k, k + tc@.len()) != tc@,
        decreases s@.len() - tc@.len() + 1 - i,
    {
        let mut j: usize = 0;
        let mut same = true;
        while j < tc.len()
            invariant
                slen == s@.len(),
                j <= tc@.len(),
                tc@.len() <= s@.len(),
                i <= s@.len() - tc@.len(),
                same == (forall|k: int| 0 <= k < j ==> s@[i + k] == tc@[k]),
            decreases tc@.len() - j,
        {
            let idx: usize = i + j;
            if s[idx] != tc[j] {
                same = false;
            }
            j = j + 1;
        }
        if same {
            assert(s@.subrange(i as int, i + tc@.len()) =~= tc@);
            return true;
        }
        proof {
            let k = choose|k: int| 0 <= k < tc@.len() && s@[i + k] != tc@[k];
            assert(s@.subrange(i as int, i + tc@.len())[k] != tc@[k]);
        }
        i = i + 1;
    }
    false
}

fn cgroup_dirs_of(cs: &Vec<char>) -> (r: Vec<Vec<char>>)
    ensures
        r@.map_values(|v: Vec<char>| v@) == cgroup_dirs(cs@, 0),
{
    let marker = chars_of("0::");
    let mut out: Vec<Vec<char>> = Vec::new();
    let mut i: usize = 0;
    while i < cs.len()
        invariant
            i <= cs@.len(),
            marker@ == "0::"@,
            cgroup_dirs(cs@, 0) == out@.map_values(|v: Vec<char>| v@) + cgroup_dirs(cs@, i as int),
        decreases cs@.len() - i,
    {
        let (line, e) = line_from(cs, i);
        proof {
            lemma_skip_bounds(cs@, i as int);
        }
        let ghost prev = out@.map_values(|v: Vec<char>| v@);
        let ghost rest = cgroup_dirs(cs@, i as int);
        if prefix_at(&line, &marker) && line.len() > 3 {
            let d = copy_range(&line, 3, line.len());
            assert(d@ =~= line@.skip(3));
            out.push(d);
            assert(out@.map_values(|v: Vec<char>| v@) =~= prev + seq![line@.skip(3)]);
        }
        if e >= cs.len() {
            proof {
                assert(cgroup_dirs(cs@, cs@.len() as int) =~= Seq::<Seq<char>>::empty());
            }
            i = cs.len();
        } else {
            i = e + 1;
        }
        proof {
            assert(prev + rest =~= out@.map_values(|v: Vec<char>| v@) + cgroup_dirs(cs@, i as int));
        }
    }
    assert(cgroup_dirs(cs@, i as int) =~= Seq::<Seq<char>>::empty());
    assert(out@.map_values(|v: Vec<char>| v@) + Seq::<Seq<char>>::empty() =~= out@.map_values(|v: Vec<char>| v@));
    out
}

/// The `memory.current` paths to try, in order, given the texts of
/// `/proc/self/mountinfo` and `/proc/self/cgroup`.
pub fn cgroup_memory_paths(mountinfo: &str, cgroup: &str) -> (r: Vec<String>)
    ensures
        r@.map_values(|s: String| s@) == cgroup_candidates(mountinfo@, 0, cgroup@),
{
    let ms = chars_of(mountinfo);
    let cg = chars_of(cgroup);
    let dirs = cgroup_dirs_of(&cg);
    let ghost dv = dirs@.map_values(|v: Vec<char>| v@);
    let mut out: Vec<String> = Vec::new();
    let mut i: usize = 0;
    while i < ms.len()
        invariant
            i <= ms@.len(),
            ms@ == mountinfo@,
            cg@ == cgroup@,
            dv == cgroup_dirs(cgroup@, 0),
            dv == dirs@.map_values(|v: Vec<char>| v@),
            cgroup_candidates(mountinfo@, 0, cgroup@) == out@.map_values(|s: String| s@) + cgroup_candidates(
                mountinfo@,
                i as int,
                cgroup@,
            ),
        decreases ms@.len() - i,
    {
        let (line, e) = line_from(&ms, i);
        proof {
            lemma_skip_bounds(ms@, i as int);
        }
        let ghost prev = out@.map_values(|s: String| s@);
        let ghost rest = cgroup_candidates(mountinfo@, i as int, cgroup@);
        let ghost here: Seq<Seq<char>> = match nth_field(line@, 4) {
            Some(mp) => if contains_text(mp, "cgroup"@) && contains_text(line@, "cgroup2"@) {
                dv.map_values(|d: Seq<char>| memory_current_path(mp, d))
            } else {
                Seq::empty()
            },
            None => Seq::empty(),
        };
        match nth_field_of(&line, 4) {
            Some(mp) => {
                if holds(&mp, "cgroup") && holds(&line, "cgroup2") {
                    let mut k: usize = 0;
                    while k < dirs.len()
                        invariant
                            k <= dirs@.len(),
                            dv == dirs@.map_values(|v: Vec<char>| v@),
                            out@.map_values(|s: String| s@) == prev + dv.take(k as int).map_values(
                                |d: Seq<char>| memory_current_path(mp@, d),
                            ),
                        decreases dirs@.len() - k,
                    {
                        let mut path: Vec<char> = Vec::new();
                        let ghost pre = out@.map_values(|s: String| s@);
                        let mut j: usize = 0;
                        while j < mp.len()
                            invariant
                                j <= mp@.len(),
                                path@ == mp@.take(j as int),
                            decreases mp@.len() - j,
                        {
                            path.push(mp[j]);
                            assert(mp@.take(j + 1) =~= mp@.take(j as int).push(mp@[j as int]));
                            j = j + 1;
                        }
                        let d = &dirs[k];
                        let mut j2: usize = 0;
                        while j2 < d.len()
                            invariant
                                j2 <= d@.len(),
                                path@ == mp@ + d@.take(j2 as int),
                            decreases d@.len() - j2,
                        {
                            path.push(d[j2]);
                            assert(d@.take(j2 + 1) =~= d@.take(j2 as int).push(d@[j2 as int]));
                            j2 = j2 + 1;
                        }
                        push_str(&mut path, "/memory.current");
                        assert(mp@.take(mp@.len() as int) =~= mp@);
                        assert(d@.take(d@.len() as int) =~= d@);
                        assert(path@ =~= memory_current_path(mp@, dv[k as int]));
                        out.push(string_from_chars(path));
                        assert(dv.take(k + 1).map_values(|x: Seq<char>| memory_current_path(mp@, x)) =~= dv.take(
                            k as int,
                        ).map_values(|x: Seq<char>| memory_current_path(mp@, x)).push(memory_current_path(mp@, dv[k as int])));
                        assert(out@.map_values(|s: String| s@) =~= pre.push(memory_current_path(mp@, dv[k as int])));
                        k = k + 1;
                    }
                    assert(dv.take(dirs@.len() as int) =~= dv);
                }
            },
            None => {},
        }
        assert(out@.map_values(|s: String| s@) =~= prev + here);
        if e >= ms.len() {
            i = ms.len();
        } else {
            i = e + 1;
        }
        proof {
            assert(prev + rest =~= out@.map_values(|s: String| s@) + cgroup_candidates(mountinfo@, i as int, cgroup@));
        }
    }
    assert(cgroup_candidates(mountinfo@, i as int, cgroup@) =~= Seq::<Seq<char>>::empty());
    assert(out@.map_values(|s: String| s@) + Seq::<Seq<char>>::empty() =~= out@.map_values(|s: String| s@));
    out
}

} // verus!
