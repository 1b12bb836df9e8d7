//! Verified text primitives for the broker grammars.
//!
//! The grammars work on characters: ASCII whitespace separates tokens,
//! ASCII digits form numbers, and comparisons are exact. Splitting,
//! trimming and number parsing are specified over `Seq<char>` and the
//! executable functions are proved to match those specifications.

use crate::date::{spec_valid_date, Date};
use vstd::prelude::*;

verus! {

pub open spec fn is_space(c: char) -> bool {
    c == ' ' || c == '\t' || c == '\r' || c == '\n'
}

pub open spec fn is_digit(c: char) -> bool {
    '0' <= c <= '9'
}

pub fn is_space_exec(c: char) -> (r: bool)
    ensures
        r == is_space(c),
{
    c == ' ' || c == '\t' || c == '\r' || c == '\n'
}

pub fn is_digit_exec(c: char) -> (r: bool)
    ensures
        r == is_digit(c),
{
    '0' <= c && c <= '9'
}

/// Character at position `i` of `s`.
pub fn char_at(s: &str, i: usize) -> (c: char)
    requires
        i < s@.len(),
    ensures
        c == s@[i as int],
{
    s.get_char(i)
}

/// Whether the views of two strings are equal, character for character.
pub fn str_eq(a: &str, b: &str) -> (r: bool)
    ensures
        r == (a@ == b@),
{
    let an = a.unicode_len();
    let bn = b.unicode_len();
    if an != bn {
        proof {
            assert(a@ != b@);
        }
        return false;
    }
    for i in 0..an
        invariant
            an == a@.len(),
            an == b@.len(),
            forall|j: int| 0 <= j < i ==> a@[j] == b@[j],
    {
        if char_at(a, i) != char_at(b, i) {
            return false;
        }
    }
    proof {
        assert(a@ =~= b@);
    }
    true
}

/// Whether `s` holds the character `c` anywhere.
pub fn contains_char(s: &str, c: char) -> (r: bool)
    ensures
        r == s@.contains(c),
{
    let n = s.unicode_len();
    for i in 0..n
        invariant
            n == s@.len(),
            forall|j: int| 0 <= j < i ==> s@[j] != c,
    {
        if char_at(s, i) == c {
            proof {
                assert(s@[i as int] == c);
            }
            return true;
        }
    }
    false
}

/// `s` without its leading characters satisfying `p`.
pub open spec fn spec_trim_front(s: Seq<char>, p: spec_fn(char) -> bool) -> Seq<char>
    decreases s.len(),
{
    if s.len() > 0 && p(s[0]) {
        spec_trim_front(s.drop_first(), p)
    } else {
        s
    }
}

pub open spec fn spec_trim_back(s: Seq<char>, p: spec_fn(char) -> bool) -> Seq<char>
    decreases s.len(),
{
    if s.len() > 0 && p(s.last()) {
        spec_trim_back(s.drop_last(), p)
    } else {
        s
    }
}

pub open spec fn spec_trim_pred(s: Seq<char>, p: spec_fn(char) -> bool) -> Seq<char> {
    spec_trim_back(spec_trim_front(s, p), p)
}

/// A cell as the row readers take it: double quotes stripped from the
/// ends, then ASCII whitespace stripped from the ends.
pub open spec fn spec_trim_cell(s: Seq<char>) -> Seq<char> {
    spec_trim_pred(spec_trim_pred(s, |c: char| c == '"'), |c: char| is_space(c))
}

proof fn lemma_trim_front_skip(s: Seq<char>, p: spec_fn(char) -> bool, k: int)
    requires
        0 <= k <= s.len(),
        forall|j: int| 0 <= j < k ==> p(s[j]),
    ensures
        spec_trim_front(s, p) == spec_trim_front(s.skip(k), p),
    decreases k,
{
    if k > 0 {
        assert(p(s[0]));
        assert(s.drop_first() =~= s.skip(1));
        lemma_trim_front_skip(s.skip(1), p, k - 1);
        assert(s.skip(1).skip(k - 1) =~= s.skip(k));
    } else {
        assert(s.skip(0) =~= s);
    }
}

proof fn lemma_trim_front_stop(s: Seq<char>, p: spec_fn(char) -> bool)
    requires
        s.len() == 0 || !p(s[0]),
    ensures
        spec_trim_front(s, p) == s,
{
}

proof fn lemma_trim_back_take(s: Seq<char>, p: spec_fn(char) -> bool, k: int)
    requires
        0 <= k <= s.len(),
        forall|j: int| k <= j < s.len() ==> p(s[j]),
    ensures
        spec_trim_back(s, p) == spec_trim_back(s.take(k), p),
    decreases s.len() - k,
{
    if k < s.len() {
        assert(p(s.last()));
        assert(s.drop_last() =~= s.take(s.len() - 1));
        lemma_trim_back_take(s.take(s.len() - 1), p, k);
        assert(s.take(s.len() - 1).take(k) =~= s.take(k));
    } else {
        assert(s.take(k) =~= s);
    }
}

proof fn lemma_trim_back_stop(s: Seq<char>, p: spec_fn(char) -> bool)
    requires
        s.len() == 0 || !p(s.last()),
    ensures
        spec_trim_back(s, p) == s,
{
}

/// Bounds `(lo, hi)` of `s@[lo0..hi0]` with double quotes removed at
/// both ends.
fn trim_bounds_quote(s: &str, lo0: usize, hi0: usize) -> (r: (usize, usize))
    requires
        lo0 <= hi0 <= s@.len(),
    ensures
        lo0 <= r.0 <= r.1 <= hi0,
        s@.subrange(r.0 as int, r.1 as int) == spec_trim_pred(
            s@.subrange(lo0 as int, hi0 as int),
            |c: char| c == '"',
        ),
{
    let ghost p = |c: char| c == '"';
    let ghost sub0 = s@.subrange(lo0 as int, hi0 as int);
    let mut lo = lo0;
    while lo < hi0 && char_at(s, lo) == '"'
        invariant
            lo0 <= lo <= hi0 <= s@.len(),
            forall|j: int| lo0 <= j < lo ==> (s@[j] == '"'),
        decreases hi0 - lo,
    {
        lo = lo + 1;
    }
    proof {
        assert forall|j: int| 0 <= j < lo - lo0 implies p(sub0[j]) by {
            assert(sub0[j] == s@[lo0 + j]);
        }
        lemma_trim_front_skip(sub0, p, lo - lo0);
        assert(sub0.skip(lo - lo0) =~= s@.subrange(lo as int, hi0 as int));
        if lo < hi0 {
            assert(s@.subrange(lo as int, hi0 as int)[0] == s@[lo as int]);
            lemma_trim_front_stop(s@.subrange(lo as int, hi0 as int), p);
        } else {
            assert(s@.subrange(lo as int, hi0 as int).len() == 0);
            lemma_trim_front_stop(s@.subrange(lo as int, hi0 as int), p);
        }
    }
    let ghost sub1 = s@.subrange(lo as int, hi0 as int);
    let mut hi = hi0;
    while hi > lo && char_at(s, hi - 1) == '"'
        invariant
            lo <= hi <= hi0 <= s@.len(),
            forall|j: int| hi <= j < hi0 ==> (s@[j] == '"'),
        decreases hi,
    {
        hi = hi - 1;
    }
    proof {
        assert forall|j: int| hi - lo <= j < sub1.len() implies p(sub1[j]) by {
            assert(sub1[j] == s@[lo + j]);
        }
        lemma_trim_back_take(sub1, p, hi - lo);
        assert(sub1.take(hi - lo) =~= s@.subrange(lo as int, hi as int));
        if hi > lo {
            assert(s@.subrange(lo as int, hi as int).last() == s@[hi - 1]);
        }
        lemma_trim_back_stop(s@.subrange(lo as int, hi as int), p);
    }
    (lo, hi)
}

/// Bounds with ASCII whitespace removed at both ends.
fn trim_bounds_space(s: &str, lo0: usize, hi0: usize) -> (r: (usize, usize))
    requires
        lo0 <= hi0 <= s@.len(),
    ensures
        lo0 <= r.0 <= r.1 <= hi0,
        s@.subrange(r.0 as int, r.1 as int) == spec_trim_pred(
            s@.subrange(lo0 as int, hi0 as int),
            |c: char| is_space(c),
        ),
{
    let ghost p = |c: char| is_space(c);
    let ghost sub0 = s@.subrange(lo0 as int, hi0 as int);
    let mut lo = lo0;
    while lo < hi0 && is_space_exec(char_at(s, lo))
        invariant
            lo0 <= lo <= hi0 <= s@.len(),
            forall|j: int| lo0 <= j < lo ==> is_space(s@[j]),
        decreases hi0 - lo,
    {
        lo = lo + 1;
    }
    proof {
        assert forall|j: int| 0 <= j < lo - lo0 implies p(sub0[j]) by {
            assert(sub0[j] == s@[lo0 + j]);
        }
        lemma_trim_front_skip(sub0, p, lo - lo0);
        assert(sub0.skip(lo - lo0) =~= s@.subrange(lo as int, hi0 as int));
        if lo < hi0 {
            assert(s@.subrange(lo as int, hi0 as int)[0] == s@[lo as int]);
        }
        lemma_trim_front_stop(s@.subrange(lo as int, hi0 as int), p);
    }
    let ghost sub1 = s@.subrange(lo as int, hi0 as int);
    let mut hi = hi0;
    while hi > lo && is_space_exec(char_at(s, hi - 1))
        invariant
            lo <= hi <= hi0 <= s@.len(),
            forall|j: int| hi <= j < hi0 ==> is_space(s@[j]),
        decreases hi,
    {
        hi = hi - 1;
    }
    proof {
        assert forall|j: int| hi - lo <= j < sub1.len() implies p(sub1[j]) by {
            assert(sub1[j] == s@[lo + j]);
        }
        lemma_trim_back_take(sub1, p, hi - lo);
        assert(sub1.take(hi - lo) =~= s@.subrange(lo as int, hi as int));
        if hi > lo {
            assert(s@.subrange(lo as int, hi as int).last() == s@[hi - 1]);
        }
        lemma_trim_back_stop(s@.subrange(lo as int, hi as int), p);
    }
    (lo, hi)
}

/// A cell with double quotes and then whitespace stripped at both ends.
pub fn trim_cell(s: &str) -> (r: String)
    ensures
        r@ == spec_trim_cell(s@),
{
    let n = s.unicode_len();
    proof {
        assert(s@.subrange(0, n as int) =~= s@);
    }
    let (qlo, qhi) = trim_bounds_quote(s, 0, n);
    let (lo, hi) = trim_bounds_space(s, qlo, qhi);
    let out = s.substring_char(lo, hi);
    out.to_owned()
}


/// First position at or after `i` whose character satisfies `stop`, or
/// the end of `s`.
pub open spec fn scan_end(s: Seq<char>, i: int, stop: spec_fn(char) -> bool) -> int
    decreases s.len() - i,
    when 0 <= i
{
    if i >= s.len() || stop(s[i]) {
        i
    } else {
        scan_end(s, i + 1, stop)
    }
}

pub proof fn lemma_scan_end_bounds(s: Seq<char>, i: int, stop: spec_fn(char) -> bool)
    requires
        0 <= i <= s.len(),
    ensures
        i <= scan_end(s, i, stop) <= s.len(),
        forall|j: int| i <= j < scan_end(s, i, stop) ==> !stop(s[j]),
        scan_end(s, i, stop) < s.len() ==> stop(s[scan_end(s, i, stop)]),
    decreases s.len() - i,
{
    if i < s.len() && !stop(s[i]) {
        lemma_scan_end_bounds(s, i + 1, stop);
    }
}

/// The scan stops exactly where the characters stop failing `stop`.
pub proof fn lemma_scan_end_determined(s: Seq<char>, i: int, j: int, stop: spec_fn(char) -> bool)
    requires
        0 <= i <= j <= s.len(),
        forall|m: int| i <= m < j ==> !stop(s[m]),
        j < s.len() ==> stop(s[j]),
    ensures
        scan_end(s, i, stop) == j,
    decreases j - i,
{
    if i < j {
        lemma_scan_end_determined(s, i + 1, j, stop);
    }
}

/// The whitespace-separated tokens of `s` from position `i` on.
pub open spec fn spec_split_ws_from(s: Seq<char>, i: int) -> Seq<Seq<char>>
    decreases s.len() - i,
    when 0 <= i
    via spec_split_ws_from_decreases
{
    if i >= s.len() {
        Seq::empty()
    } else if is_space(s[i]) {
        spec_split_ws_from(s, i + 1)
    } else {
        let e = scan_end(s, i, |c: char| is_space(c));
        seq![s.subrange(i, e)] + spec_split_ws_from(s, e)
    }
}

#[via_fn]
proof fn spec_split_ws_from_decreases(s: Seq<char>, i: int) {
    if 0 <= i < s.len() && !is_space(s[i]) {
        lemma_scan_end_bounds(s, i, |c: char| is_space(c));
        assert(scan_end(s, i, |c: char| is_space(c)) > i) by {
            assert(!(|c: char| is_space(c))(s[i]));
        }
    }
}

/// The maximal runs of non-whitespace characters, in order.
pub open spec fn spec_split_ws(s: Seq<char>) -> Seq<Seq<char>> {
    spec_split_ws_from(s, 0)
}

/// Splits `s` into whitespace-separated tokens.
pub fn split_ws(s: &str) -> (r: Vec<String>)
    ensures
        r.deep_view() == spec_split_ws(s@),
{
    let n = s.unicode_len();
    let mut out: Vec<String> = Vec::new();
    let mut i: usize = 0;
    while i < n
        invariant
            n == s@.len(),
            i <= n,
            out.deep_view() + spec_split_ws_from(s@, i as int) =~= spec_split_ws(s@),
        decreases n - i,
    {
        if is_space_exec(char_at(s, i)) {
            i = i + 1;
        } else {
            let mut j = i + 1;
            while j < n && !is_space_exec(char_at(s, j))
                invariant
                    n == s@.len(),
                    i < j <= n,
                    !is_space(s@[i as int]),
                    forall|m: int| i <= m < j ==> !is_space(s@[m]),
                decreases n - j,
            {
                j = j + 1;
            }
            proof {
                assert forall|m: int| i <= m < j implies !((|c: char| is_space(c))(s@[m])) by {
                    assert(!is_space(s@[m]));
                }
                if j < n {
                    assert((|c: char| is_space(c))(s@[j as int]));
                }
                lemma_scan_end_determined(s@, i as int, j as int, |c: char| is_space(c));
            }
            let tok = s.substring_char(i, j).to_owned();
            let ghost old_out = out.deep_view();
            out.push(tok);
            proof {
                assert(out.deep_view() =~= old_out.push(tok@));
                assert(old_out.push(tok@) + spec_split_ws_from(s@, j as int) =~= old_out + (seq![
                    s@.subrange(i as int, j as int),
                ] + spec_split_ws_from(s@, j as int)));
            }
            i = j;
        }
    }
    proof {
        assert(out.deep_view() + spec_split_ws_from(s@, n as int) =~= out.deep_view());
    }
    out
}

/// First position at or after `i` holding `sep`, or the end of `s`.
pub open spec fn sep_end(s: Seq<char>, i: int, sep: char) -> int
    decreases s.len() - i,
    when 0 <= i
{
    if i >= s.len() || s[i] == sep {
        i
    } else {
        sep_end(s, i + 1, sep)
    }
}

pub proof fn lemma_sep_end_bounds(s: Seq<char>, i: int, sep: char)
    requires
        0 <= i <= s.len(),
    ensures
        i <= sep_end(s, i, sep) <= s.len(),
        forall|j: int| i <= j < sep_end(s, i, sep) ==> s[j] != sep,
        sep_end(s, i, sep) < s.len() ==> s[sep_end(s, i, sep)] == sep,
    decreases s.len() - i,
{
    if i < s.len() && s[i] != sep {
        lemma_sep_end_bounds(s, i + 1, sep);
    }
}

pub proof fn lemma_sep_end_determined(s: Seq<char>, i: int, j: int, sep: char)
    requires
        0 <= i <= j <= s.len(),
        forall|m: int| i <= m < j ==> s[m] != sep,
        j < s.len() ==> s[j] == sep,
    ensures
        sep_end(s, i, sep) == j,
    decreases j - i,
{
    if i < j {
        lemma_sep_end_determined(s, i + 1, j, sep);
    }
}

/// The pieces of `s` from `i` on, split at every `sep`; empty pieces are
/// kept, and even an empty input yields one empty piece.
pub open spec fn spec_split_char_from(s: Seq<char>, i: int, sep: char) -> Seq<Seq<char>>
    decreases s.len() - i,
    when 0 <= i <= s.len()
    via spec_split_char_from_decreases
{
    let e = sep_end(s, i, sep);
    if e >= s.len() {
        seq![s.subrange(i, s.len() as int)]
    } else {
        seq![s.subrange(i, e)] + spec_split_char_from(s, e + 1, sep)
    }
}

#[via_fn]
proof fn spec_split_char_from_decreases(s: Seq<char>, i: int, sep: char) {
    if 0 <= i <= s.len() {
        lemma_sep_end_bounds(s, i, sep);
    }
}

pub open spec fn spec_split_char(s: Seq<char>, sep: char) -> Seq<Seq<char>> {
    spec_split_char_from(s, 0, sep)
}

/// Splits `s` at every occurrence of `sep`, keeping empty pieces.
pub fn split_char(s: &str, sep: char) -> (r: Vec<String>)
    ensures
        r.deep_view() == spec_split_char(s@, sep),
        r.len() >= 1,
{
    let n = s.unicode_len();
    let mut out: Vec<String> = Vec::new();
    let mut start: usize = 0;
    for k in 0..n
        invariant
            n == s@.len(),
            start <= k <= n,
            forall|m: int| start <= m < k ==> s@[m] != sep,
            out.deep_view() + spec_split_char_from(s@, start as int, sep) =~= spec_split_char(
                s@,
                sep,
            ),
    {
        if char_at(s, k) == sep {
            proof {
                lemma_sep_end_determined(s@, start as int, k as int, sep);
            }
            let tok = s.substring_char(start, k).to_owned();
            let ghost old_out = out.deep_view();
            out.push(tok);
            proof {
                assert(spec_split_char_from(s@, start as int, sep) == seq![
                    s@.subrange(start as int, k as int),
                ] + spec_split_char_from(s@, k + 1, sep));
                assert(out.deep_view() =~= old_out.push(tok@));
                assert(old_out.push(tok@) + spec_split_char_from(s@, k + 1, sep) =~= old_out + (
                seq![s@.subrange(start as int, k as int)] + spec_split_char_from(
                    s@,
                    k + 1,
                    sep,
                )));
            }
            start = k + 1;
        }
    }
    proof {
        lemma_sep_end_determined(s@, start as int, n as int, sep);
    }
    let tok = s.substring_char(start, n).to_owned();
    let ghost old_out = out.deep_view();
    out.push(tok);
    proof {
        assert(out.deep_view() =~= old_out.push(tok@));
        assert(old_out.push(tok@) =~= old_out + seq![s@.subrange(start as int, n as int)]);
    }
    out
}


pub open spec fn all_digits(s: Seq<char>) -> bool {
    forall|i: int| 0 <= i < s.len() ==> is_digit(#[trigger] s[i])
}

/// Value of a digit string read in base ten.
pub open spec fn digits_val(s: Seq<char>) -> int
    decreases s.len(),
{
    if s.len() == 0 {
        0
    } else {
        digits_val(s.drop_last()) * 10 + (s.last() as int - 48)
    }
}

pub proof fn lemma_digits_val_nonneg(s: Seq<char>)
    requires
        all_digits(s),
    ensures
        digits_val(s) >= 0,
    decreases s.len(),
{
    if s.len() > 0 {
        assert(all_digits(s.drop_last())) by {
            assert(forall|i: int|
                0 <= i < s.len() - 1 ==> is_digit(#[trigger] s.drop_last()[i]) == is_digit(s[i]));
        }
        lemma_digits_val_nonneg(s.drop_last());
        assert(is_digit(s.last()));
    }
}

/// A longer digit prefix never has a smaller value.
pub proof fn lemma_digits_val_monotone(s: Seq<char>, i: int, j: int)
    requires
        all_digits(s),
        0 <= i <= j <= s.len(),
    ensures
        digits_val(s.take(j)) >= digits_val(s.take(i)) >= 0,
    decreases j - i,
{
    assert(all_digits(s.take(i))) by {
        assert(forall|m: int| 0 <= m < i ==> is_digit(#[trigger] s.take(i)[m]) == is_digit(s[m]));
    }
    lemma_digits_val_nonneg(s.take(i));
    if i < j {
        lemma_digits_val_monotone(s, i + 1, j);
        assert(s.take(i + 1).drop_last() =~= s.take(i));
        assert(is_digit(s.take(i + 1).last()));
        lemma_digits_val_nonneg(s.take(i));
    }
}

/// Largest digit-string value the readers accept before giving up.
pub open spec fn digits_cap() -> int {
    1_000_000_000_000_000
}

/// Value of a digit string, or `None` past the reading cap or on a
/// non-digit; the empty string reads as zero.
pub open spec fn spec_digits_capped(s: Seq<char>) -> Option<int> {
    if all_digits(s) && digits_val(s) <= digits_cap() {
        Some(digits_val(s))
    } else {
        None
    }
}

/// Reads `v[from..to]` as a base-ten number.
pub fn parse_digits_range(v: &Vec<char>, from: usize, to: usize) -> (r: Option<u64>)
    requires
        from <= to <= v.len(),
    ensures
        match r {
            Some(x) => spec_digits_capped(v@.subrange(from as int, to as int)) == Some(x as int)
                && x <= 1_000_000_000_000_000,
            None => spec_digits_capped(v@.subrange(from as int, to as int)) is None,
        },
{
    let ghost sub = v@.subrange(from as int, to as int);
    let mut acc: u64 = 0;
    let mut i = from;
    while i < to
        invariant
            from <= i <= to <= v.len(),
            sub == v@.subrange(from as int, to as int),
            all_digits(sub.take(i - from)),
            acc == digits_val(sub.take(i - from)),
            acc <= 1_000_000_000_000_000,
        decreases to - i,
    {
        let c = v[i];
        proof {
            assert(sub[i - from] == v@[i as int]);
        }
        if !is_digit_exec(c) {
            proof {
                assert(!is_digit(sub[i - from]));
            }
            return None;
        }
        let d: u64 = (c as u32 as u64) - 48;
        proof {
            assert(sub.take(i - from + 1).drop_last() =~= sub.take(i - from));
            assert(sub.take(i - from + 1).last() == sub[i - from]);
            assert(all_digits(sub.take(i - from + 1))) by {
                assert(forall|m: int|
                    0 <= m < i - from + 1 ==> #[trigger] sub.take(i - from + 1)[m] == sub[m]);
            }
        }
        let next: u64 = acc * 10 + d;
        if next > 1_000_000_000_000_000 {
            proof {
                assert(digits_val(sub.take(i - from + 1)) > digits_cap());
                if all_digits(sub) {
                    lemma_digits_val_monotone(sub, i - from + 1, sub.len() as int);
                    assert(sub.take(sub.len() as int) =~= sub);
                }
            }
            return None;
        }
        acc = next;
        i = i + 1;
    }
    proof {
        assert(sub.take(to - from) =~= sub);
    }
    Some(acc)
}

/// Whether every character of `v[from..to]` is a digit.
pub fn is_digits_range(v: &Vec<char>, from: usize, to: usize) -> (r: bool)
    requires
        from <= to <= v.len(),
    ensures
        r == all_digits(v@.subrange(from as int, to as int)),
{
    let ghost sub = v@.subrange(from as int, to as int);
    for i in from..to
        invariant
            from <= i <= to <= v.len(),
            sub == v@.subrange(from as int, to as int),
            forall|m: int| 0 <= m < i - from ==> is_digit(#[trigger] sub[m]),
    {
        proof {
            assert(sub[i - from] == v@[i as int]);
        }
        if !is_digit_exec(v[i]) {
            return false;
        }
    }
    true
}

/// A signed whole number: an optional sign, then digits.
pub open spec fn spec_parse_int(s: Seq<char>) -> Option<int> {
    if s.len() == 0 {
        None
    } else {
        let neg = s[0] == '-';
        let body = if s[0] == '-' || s[0] == '+' {
            s.drop_first()
        } else {
            s
        };
        if body.len() > 0 && all_digits(body) && digits_val(body) <= digits_cap() {
            if neg {
                Some(-digits_val(body))
            } else {
                Some(digits_val(body))
            }
        } else {
            None
        }
    }
}

/// Reads a signed whole number.
pub fn parse_int(v: &Vec<char>) -> (r: Option<i64>)
    ensures
        match r {
            Some(x) => spec_parse_int(v@) == Some(x as int) && -1_000_000_000_000_000 <= x
                <= 1_000_000_000_000_000,
            None => spec_parse_int(v@) is None,
        },
{
    let n = v.len();
    if n == 0 {
        return None;
    }
    let c0 = v[0];
    let start: usize = if c0 == '-' || c0 == '+' {
        1
    } else {
        0
    };
    proof {
        assert(v@.subrange(start as int, n as int) =~= if c0 == '-' || c0 == '+' {
            v@.drop_first()
        } else {
            v@
        });
    }
    if start == n {
        return None;
    }
    match parse_digits_range(v, start, n) {
        Some(x) => {
            if c0 == '-' {
                Some(-(x as i64))
            } else {
                Some(x as i64)
            }
        },
        None => None,
    }
}

/// Characters the amount reader ignores: dollar signs, thousands commas
/// and the parentheses of bracketed negatives.
pub open spec fn is_money_junk(c: char) -> bool {
    c == '$' || c == ',' || c == '(' || c == ')'
}

pub open spec fn spec_strip_money(s: Seq<char>) -> Seq<char>
    decreases s.len(),
{
    if s.len() == 0 {
        Seq::empty()
    } else if is_money_junk(s.last()) {
        spec_strip_money(s.drop_last())
    } else {
        spec_strip_money(s.drop_last()).push(s.last())
    }
}

/// The characters of `s` with money punctuation removed.
pub fn strip_money(s: &str) -> (r: Vec<char>)
    ensures
        r@ == spec_strip_money(s@),
{
    let n = s.unicode_len();
    let mut out: Vec<char> = Vec::new();
    for i in 0..n
        invariant
            n == s@.len(),
            out@ == spec_strip_money(s@.take(i as int)),
    {
        let c = char_at(s, i);
        proof {
            assert(s@.take(i + 1).drop_last() =~= s@.take(i as int));
            assert(s@.take(i + 1).last() == s@[i as int]);
        }
        if !(c == '$' || c == ',' || c == '(' || c == ')') {
            out.push(c);
        }
    }
    proof {
        assert(s@.take(n as int) =~= s@);
    }
    out
}

/// The characters of `s[from..to]` as a vector.
pub fn chars_range(s: &str, from: usize, to: usize) -> (r: Vec<char>)
    requires
        from <= to <= s@.len(),
    ensures
        r@ == s@.subrange(from as int, to as int),
{
    let mut out: Vec<char> = Vec::new();
    let mut i = from;
    while i < to
        invariant
            from <= i <= to <= s@.len(),
            out@ =~= s@.subrange(from as int, i as int),
        decreases to - i,
    {
        let c = char_at(s, i);
        out.push(c);
        proof {
            assert(out@ =~= s@.subrange(from as int, i + 1));
        }
        i = i + 1;
    }
    out
}

/// The characters of `s` as a vector.
pub fn chars_of(s: &str) -> (r: Vec<char>)
    ensures
        r@ == s@,
{
    let n = s.unicode_len();
    let mut out: Vec<char> = Vec::new();
    for i in 0..n
        invariant
            n == s@.len(),
            out@ == s@.take(i as int),
    {
        let c = char_at(s, i);
        proof {
            assert(s@.take(i + 1).drop_last() =~= s@.take(i as int));
            assert(s@.take(i + 1).last() == s@[i as int]);
        }
        out.push(c);
    }
    proof {
        assert(s@.take(n as int) =~= s@);
    }
    out
}

pub open spec fn pow10(k: int) -> int {
    if k <= 0 {
        1
    } else if k == 1 {
        10
    } else if k == 2 {
        100
    } else if k == 3 {
        1000
    } else {
        10000
    }
}

/// The first four fraction digits scaled to 1/10000; shorter fractions
/// are padded, longer ones truncated.
pub open spec fn frac_scaled(fp: Seq<char>) -> int {
    if fp.len() >= 4 {
        digits_val(fp.take(4))
    } else {
        digits_val(fp) * pow10(4 - fp.len())
    }
}

/// A plain decimal money amount in 1/10000 dollar: an optional sign,
/// digits, an optional dot and fraction digits, at least one digit in
/// all, and a magnitude of at most `cap`. Anything else reads as
/// nothing.
pub open spec fn spec_parse_money(s: Seq<char>, cap: int) -> Option<int> {
    if s.len() == 0 {
        None
    } else {
        let neg = s[0] == '-';
        let body = if s[0] == '-' || s[0] == '+' {
            s.drop_first()
        } else {
            s
        };
        let dot = sep_end(body, 0, '.');
        let ip = body.subrange(0, dot);
        let fp = if dot < body.len() {
            body.subrange(dot + 1, body.len() as int)
        } else {
            Seq::empty()
        };
        if ip.len() + fp.len() > 0 && all_digits(ip) && all_digits(fp) {
            let total = digits_val(ip) * 10000 + frac_scaled(fp);
            if total <= cap {
                if neg {
                    Some(-total)
                } else {
                    Some(total)
                }
            } else {
                None
            }
        } else {
            None
        }
    }
}


/// A digit string of at most four characters stays below 10000.
proof fn lemma_digits_val_small(s: Seq<char>)
    requires
        all_digits(s),
        s.len() <= 4,
    ensures
        0 <= digits_val(s) < pow10(s.len() as int),
    decreases s.len(),
{
    if s.len() > 0 {
        assert(all_digits(s.drop_last())) by {
            assert(forall|i: int|
                0 <= i < s.len() - 1 ==> is_digit(#[trigger] s.drop_last()[i]) == is_digit(s[i]));
        }
        lemma_digits_val_small(s.drop_last());
        assert(is_digit(s.last()));
    }
}

/// Reads a money amount from characters, in 1/10000 dollar, refusing
/// magnitudes above `cap`.
#[verifier::rlimit(60)]
pub fn parse_money(v: &Vec<char>, cap: i64) -> (r: Option<i64>)
    requires
        0 <= cap <= 10_000_000_000_000,
    ensures
        match r {
            Some(x) => spec_parse_money(v@, cap as int) == Some(x as int) && -cap <= x <= cap,
            None => spec_parse_money(v@, cap as int) is None,
        },
{
    let n = v.len();
    if n == 0 {
        return None;
    }
    let c0 = v[0];
    let neg = c0 == '-';
    let start: usize = if c0 == '-' || c0 == '+' {
        1
    } else {
        0
    };
    let ghost body = if c0 == '-' || c0 == '+' {
        v@.drop_first()
    } else {
        v@
    };
    proof {
        assert(body =~= v@.subrange(start as int, n as int));
    }
    let mut di: usize = start;
    while di < n && v[di] != '.'
        invariant
            start <= di <= n == v.len(),
            forall|m: int| start <= m < di ==> v@[m] != '.',
        decreases n - di,
    {
        di = di + 1;
    }
    proof {
        assert forall|m: int| 0 <= m < di - start implies body[m] != '.' by {
            assert(body[m] == v@[m + start]);
        }
        if di < n {
            assert(body[di - start] == v@[di as int]);
        }
        lemma_sep_end_determined(body, 0, di - start, '.');
    }
    let ghost dot = di - start;
    let ghost ip = body.subrange(0, dot as int);
    let ghost fp = if dot < body.len() {
        body.subrange(dot as int + 1, body.len() as int)
    } else {
        Seq::<char>::empty()
    };
    proof {
        assert(ip =~= v@.subrange(start as int, di as int));
    }
    let ip_r = parse_digits_range(v, start, di);
    let fstart: usize = if di < n {
        di + 1
    } else {
        n
    };
    let fend: usize = n;
    proof {
        assert(fp =~= v@.subrange(fstart as int, fend as int));
    }
    if !is_digits_range(v, fstart, fend) {
        return None;
    }
    let ip_val: u64 = match ip_r {
        Some(x) => x,
        None => {
            proof {
                if all_digits(ip) {
                    assert(digits_val(ip) > digits_cap());
                    let k: int = if fp.len() >= 4 {
                        4int
                    } else {
                        fp.len() as int
                    };
                    let fpk = fp.take(k);
                    assert(all_digits(fpk)) by {
                        assert(forall|m: int| 0 <= m < k ==> #[trigger] fpk[m] == fp[m]);
                    }
                    lemma_digits_val_nonneg(fpk);
                    if fp.len() < 4 {
                        assert(fpk =~= fp);
                    }
                    assert(frac_scaled(fp) >= 0);
                }
            }
            return None;
        },
    };
    if start >= di && fstart >= fend {
        return None;
    }
    let flen: usize = fend - fstart;
    let f4end: usize = if flen >= 4 {
        fstart + 4
    } else {
        fend
    };
    let ghost f4 = if fp.len() >= 4 {
        fp.take(4)
    } else {
        fp
    };
    proof {
        assert(f4 =~= v@.subrange(fstart as int, f4end as int));
        assert(all_digits(f4)) by {
            assert(forall|m: int| 0 <= m < f4.len() ==> #[trigger] f4[m] == fp[m]);
        }
        lemma_digits_val_small(f4);
    }
    let fv: u64 = match parse_digits_range(v, fstart, f4end) {
        Some(x) => x,
        None => {
            proof {
                assert(false);
            }
            0
        },
    };
    let mult: u64 = if flen >= 4 {
        1
    } else if flen == 3 {
        10
    } else if flen == 2 {
        100
    } else if flen == 1 {
        1000
    } else {
        10000
    };
    proof {
        assert(fv * mult == frac_scaled(fp)) by {
            if fp.len() >= 4 {
                assert(frac_scaled(fp) == digits_val(fp.take(4)));
            } else {
                assert(frac_scaled(fp) == digits_val(fp) * pow10(4 - fp.len()));
            }
        }
        assert(fv <= 9999);
        assert(mult <= 10000);
    }
    proof {
        assert((fv as int) * (mult as int) <= 100_000_000) by (nonlinear_arith)
            requires
                0 <= fv as int <= 9999,
                0 <= mult as int <= 10000,
        ;
    }
    let total: u128 = (ip_val as u128) * 10000 + (fv as u128) * (mult as u128);
    proof {
        lemma_digits_val_nonneg(f4);
        assert(total == digits_val(ip) * 10000 + frac_scaled(fp));
    }
    if total > (cap as u128) {
        return None;
    }
    let t = total as i64;
    if neg {
        Some(-t)
    } else {
        Some(t)
    }
}


/// Word characters as the description grammars know them: ASCII
/// letters, digits and underscore.
pub open spec fn is_word_char(c: char) -> bool {
    ('a' <= c <= 'z') || ('A' <= c <= 'Z') || ('0' <= c <= '9') || c == '_'
}

pub fn is_word_char_exec(c: char) -> (r: bool)
    ensures
        r == is_word_char(c),
{
    ('a' <= c && c <= 'z') || ('A' <= c && c <= 'Z') || ('0' <= c && c <= '9') || c == '_'
}

/// Length of the maximal run of word characters ending `t`.
pub open spec fn word_suffix_len(t: Seq<char>) -> int
    decreases t.len(),
{
    if t.len() == 0 || !is_word_char(t.last()) {
        0
    } else {
        1 + word_suffix_len(t.drop_last())
    }
}

proof fn lemma_word_suffix_len_determined(t: Seq<char>, k: int)
    requires
        0 <= k <= t.len(),
        forall|m: int| t.len() - k <= m < t.len() ==> is_word_char(#[trigger] t[m]),
        k < t.len() ==> !is_word_char(t[t.len() - k - 1]),
    ensures
        word_suffix_len(t) == k,
    decreases t.len(),
{
    if t.len() > 0 && is_word_char(t.last()) {
        assert(k > 0);
        lemma_word_suffix_len_determined(t.drop_last(), k - 1);
    }
}

/// Length of the maximal word-character run ending `s`.
pub fn word_suffix_len_exec(s: &str) -> (r: usize)
    ensures
        r == word_suffix_len(s@),
        r <= s@.len(),
{
    let n = s.unicode_len();
    let mut k: usize = 0;
    while k < n && is_word_char_exec(char_at(s, n - k - 1))
        invariant
            n == s@.len(),
            k <= n,
            forall|m: int| n - k <= m < n ==> is_word_char(#[trigger] s@[m]),
        decreases n - k,
    {
        k = k + 1;
    }
    proof {
        lemma_word_suffix_len_determined(s@, k as int);
    }
    k
}

/// First position at or after `i` that is neither a digit nor a dot,
/// or the end of `s`.
pub open spec fn num_run_end(s: Seq<char>, i: int) -> int
    decreases s.len() - i,
    when 0 <= i
{
    if i >= s.len() || !(is_digit(s[i]) || s[i] == '.') {
        i
    } else {
        num_run_end(s, i + 1)
    }
}

pub proof fn lemma_num_run_end_determined(s: Seq<char>, i: int, j: int)
    requires
        0 <= i <= j <= s.len(),
        forall|m: int| i <= m < j ==> is_digit(#[trigger] s[m]) || s[m] == '.',
        j < s.len() ==> !(is_digit(s[j]) || s[j] == '.'),
    ensures
        num_run_end(s, i) == j,
    decreases j - i,
{
    if i < j {
        lemma_num_run_end_determined(s, i + 1, j);
    }
}

/// A nonempty all-digit piece read as a number, or nothing.
pub open spec fn spec_digits_piece(p: Seq<char>) -> Option<int> {
    if p.len() > 0 && all_digits(p) && digits_val(p) <= digits_cap() {
        Some(digits_val(p))
    } else {
        None
    }
}

/// A date written `month/day/year`: three digit pieces; a year below
/// 100 is taken in the 2000s; a value that names no real calendar day
/// falls back to `today`.
pub open spec fn spec_parse_date_flexible(s: Seq<char>, today: Date) -> Date {
    let parts = spec_split_char(s, '/');
    if parts.len() == 3 {
        match (spec_digits_piece(parts[0]), spec_digits_piece(parts[1]), spec_digits_piece(
            parts[2],
        )) {
            (Some(m), Some(d), Some(y0)) => {
                let y = if y0 < 100 {
                    2000 + y0
                } else {
                    y0
                };
                if spec_valid_date(y, m, d) {
                    Date { year: y as u16, month: m as u8, day: d as u8 }
                } else {
                    today
                }
            },
            _ => today,
        }
    } else {
        today
    }
}

/// Reads one digit piece of a split as a number.
fn parse_piece(p: &String) -> (r: Option<u64>)
    ensures
        match r {
            Some(x) => spec_digits_piece(p@) == Some(x as int) && x <= 1_000_000_000_000_000,
            None => spec_digits_piece(p@) is None,
        },
{
    let v = chars_of(p.as_str());
    let n = v.len();
    if n == 0 {
        return None;
    }
    proof {
        assert(v@.subrange(0, n as int) =~= p@);
    }
    parse_digits_range(&v, 0, n)
}

/// Reads a `month/day/year` date, falling back to `today` when the text
/// does not name a real calendar day.
pub fn parse_date_flexible(s: &str, today: Date) -> (r: Date)
    requires
        today.wf(),
    ensures
        r == spec_parse_date_flexible(s@, today),
        r.wf(),
{
    let parts = split_char(s, '/');
    let ghost sparts = spec_split_char(s@, '/');
    if parts.len() != 3 {
        return today;
    }
    proof {
        assert(parts.deep_view()[0] == parts@[0]@);
        assert(parts.deep_view()[1] == parts@[1]@);
        assert(parts.deep_view()[2] == parts@[2]@);
    }
    let m_r = parse_piece(&parts[0]);
    let d_r = parse_piece(&parts[1]);
    let y_r = parse_piece(&parts[2]);
    match (m_r, d_r, y_r) {
        (Some(m), Some(d), Some(y0)) => {
            let y: u64 = if y0 < 100 {
                2000 + y0
            } else {
                y0
            };
            if 1 <= m && m <= 12 && 1 <= d && d <= 31 && 1 <= y && y <= 9999 {
                match Date::from_ymd(y as u32, m as u32, d as u32) {
                    Some(date) => date,
                    None => today,
                }
            } else {
                today
            }
        },
        _ => today,
    }
}

/// The shape of a time of day: three colon-separated digit pieces. The
/// values are not examined; the time is discarded.
pub open spec fn spec_time_shape(t: Seq<char>) -> bool {
    let ps = spec_split_char(t, ':');
    &&& ps.len() == 3
    &&& forall|k: int| 0 <= k < 3 ==> (#[trigger] ps[k]).len() > 0 && all_digits(ps[k])
}

pub fn time_shape(t: &str) -> (r: bool)
    ensures
        r == spec_time_shape(t@),
{
    let parts = split_char(t, ':');
    let ghost ps = spec_split_char(t@, ':');
    if parts.len() != 3 {
        return false;
    }
    proof {
        assert(parts.deep_view()[0] == parts@[0]@);
        assert(parts.deep_view()[1] == parts@[1]@);
        assert(parts.deep_view()[2] == parts@[2]@);
    }
    let mut ok = true;
    let p0 = chars_of(parts[0].as_str());
    let p1 = chars_of(parts[1].as_str());
    let p2 = chars_of(parts[2].as_str());
    proof {
        assert(p0@.subrange(0, p0@.len() as int) =~= ps[0]);
        assert(p1@.subrange(0, p1@.len() as int) =~= ps[1]);
        assert(p2@.subrange(0, p2@.len() as int) =~= ps[2]);
    }
    let r = p0.len() > 0 && is_digits_range(&p0, 0, p0.len()) && p1.len() > 0 && is_digits_range(
        &p1,
        0,
        p1.len(),
    ) && p2.len() > 0 && is_digits_range(&p2, 0, p2.len());
    proof {
        if r {
            assert forall|k: int| 0 <= k < 3 implies (#[trigger] ps[k]).len() > 0 && all_digits(
                ps[k],
            ) by {
                if k == 0 {
                } else if k == 1 {
                } else {
                }
            }
        }
    }
    r
}

/// An action timestamp: a `month/day/year` date, a time of day and an
/// `AM` or `PM` mark; anything else falls back to `today`.
pub open spec fn spec_parse_action_datetime(s: Seq<char>, today: Date) -> Date {
    let toks = spec_split_ws(s);
    if toks.len() == 3 && spec_time_shape(toks[1]) && (toks[2] == "AM"@ || toks[2] == "PM"@) {
        spec_parse_date_flexible(toks[0], today)
    } else {
        today
    }
}

/// Reads the date out of an action timestamp, falling back to `today`.
pub fn parse_action_datetime(s: &str, today: Date) -> (r: Date)
    requires
        today.wf(),
    ensures
        r == spec_parse_action_datetime(s@, today),
        r.wf(),
{
    let toks = split_ws(s);
    let ghost st = spec_split_ws(s@);
    if toks.len() != 3 {
        return today;
    }
    proof {
        assert(toks.deep_view()[0] == toks@[0]@);
        assert(toks.deep_view()[1] == toks@[1]@);
        assert(toks.deep_view()[2] == toks@[2]@);
    }
    if time_shape(toks[1].as_str()) && (str_eq(toks[2].as_str(), "AM") || str_eq(
        toks[2].as_str(),
        "PM",
    )) {
        parse_date_flexible(toks[0].as_str(), today)
    } else {
        today
    }
}

} // verus!
