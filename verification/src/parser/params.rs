//! Numeric parameters of escape sequences: splitting, trimming, parsing and
//! formatting of decimal numbers.

use vstd::prelude::*;
use vstd::string::StrSliceExecFns;

verus! {

/// An ASCII decimal digit.
pub open spec fn is_digit(c: char) -> bool {
    0x30 <= (c as u32) && (c as u32) <= 0x39
}

pub open spec fn digit_val(c: char) -> int {
    c as u32 - 0x30
}

pub open spec fn all_digits(s: Seq<char>) -> bool {
    forall|j: int| 0 <= j < s.len() ==> is_digit(#[trigger] s[j])
}

/// The value of a digit string, most significant first.
pub open spec fn digits_val(s: Seq<char>) -> int
    decreases s.len(),
{
    if s.len() == 0 {
        0
    } else {
        digits_val(s.drop_last()) * 10 + digit_val(s.last())
    }
}

pub proof fn lemma_digits_val_nonneg(s: Seq<char>)
    requires
        all_digits(s),
    ensures
        digits_val(s) >= 0,
    decreases s.len(),
{
    if s.len() > 0 {
        assert(forall|j: int| 0 <= j < s.len() - 1 ==> s.drop_last()[j] == s[j]);
        lemma_digits_val_nonneg(s.drop_last());
    }
}

/// Appending a digit cannot shrink the value.
pub proof fn lemma_digits_val_monotone(s: Seq<char>, i: int)
    requires
        all_digits(s),
        0 <= i <= s.len(),
    ensures
        digits_val(s.take(i)) <= digits_val(s),
    decreases s.len() - i,
{
    assert(forall|j: int| 0 <= j < s.len() ==> s.take(s.len() as int)[j] == s[j]);
    assert(s.take(s.len() as int) =~= s);
    if i < s.len() {
        lemma_digits_val_monotone(s, i + 1);
        assert(s.take(i + 1).drop_last() =~= s.take(i));
        assert(all_digits(s.take(i + 1)));
        lemma_digits_val_nonneg(s.take(i));
        assert(digits_val(s.take(i + 1)) == digits_val(s.take(i)) * 10 + digit_val(s[i]));
    }
}

/// The digit string a number parses from, without sign: nonempty, all digits.
/// This is how std's unsigned parse reads a string, except that the value
/// bound is the caller's.
pub open spec fn num_body(s: Seq<char>) -> Seq<char> {
    if s.len() > 0 && s[0] == '+' {
        s.skip(1)
    } else {
        s
    }
}

/// Whether the string is a well-formed unsigned decimal (an optional leading
/// plus sign, then at least one digit).
pub open spec fn num_wf(s: Seq<char>) -> bool {
    num_body(s).len() > 0 && all_digits(num_body(s))
}

/// The parse of an unsigned decimal against a maximum: the value, if the
/// string is well formed and the value fits.
pub open spec fn parse_num(s: Seq<char>, max: int) -> Option<int> {
    if num_wf(s) && digits_val(num_body(s)) <= max {
        Some(digits_val(num_body(s)))
    } else {
        None
    }
}

/// Parses the characters of `cs` from `start` up to `end` as an unsigned
/// decimal no greater than `max`.
pub fn parse_range(cs: &Vec<char>, start: usize, end: usize, max: usize) -> (r: Option<usize>)
    requires
        start <= end,
        end <= cs@.len(),
    ensures
        ({
            let s = cs@.subrange(start as int, end as int);
            match parse_num(s, max as int) {
                Some(v) => r matches Some(u) && u as int == v,
                None => r is None,
            }
        }),
{
    let ghost s = cs@.subrange(start as int, end as int);
    let mut i: usize = start;
    if i < end && cs[i] == '+' {
        proof {
            assert(s[0] == cs@[start as int]);
        }
        i = i + 1;
    }
    let ghost body = num_body(s);
    proof {
        assert(body =~= cs@.subrange(i as int, end as int));
    }
    if i == end {
        return None;
    }
    let ghost base = i;
    let mut acc: usize = 0;
    while i < end
        invariant
            base <= i <= end,
            end <= cs@.len(),
            s == cs@.subrange(start as int, end as int),
            body == num_body(s),
            body == cs@.subrange(base as int, end as int),
            all_digits(body.take(i - base)),
            acc as int == digits_val(body.take(i - base)),
            acc <= max,
            max <= usize::MAX,
        decreases end - i,
    {
        let c = cs[i];
        let cu = c as u32;
        proof {
            assert(body[i - base] == cs@[i as int]);
        }
        if !(0x30 <= cu && cu <= 0x39) {
            proof {
                assert(!is_digit(body[i - base]));
                assert(!all_digits(body));
                assert(num_body(s) == body);
                assert(!num_wf(s));
                assert(parse_num(s, max as int) is None);
            }
            return None;
        }
        let d = (cu - 0x30) as usize;
        proof {
            assert(body.take(i - base + 1).drop_last() =~= body.take(i - base));
            assert(body.take(i - base + 1).last() == c);
        }
        if acc > max / 10 || (acc == max / 10 && d > max % 10) {
            // The value exceeds `max` already; it can only grow.
            proof {
                assert(digits_val(body.take(i - base + 1)) > max);
                assert(all_digits(body.take(i - base + 1)));
                if all_digits(body) {
                    lemma_digits_val_monotone(body, i - base + 1);
                    assert(body.take(body.len() as int) =~= body);
                    assert(digits_val(num_body(s)) > max);
                } else {
                    assert(!num_wf(s));
                }
                assert(parse_num(s, max as int) is None);
            }
            return None;
        }
        acc = acc * 10 + d;
        i += 1;
    }
    proof {
        assert(body.take(end - base) =~= body);
        assert(num_wf(s));
    }
    Some(acc)
}

/// The positions splitting a character sequence at semicolons: the pieces, in
/// order.
pub open spec fn split_semi(s: Seq<char>) -> Seq<Seq<char>>
    decreases s.len(),
{
    let stop = first_semi(s);
    if 0 <= stop < s.len() {
        seq![s.take(stop)] + split_semi(s.skip(stop + 1))
    } else {
        seq![s]
    }
}

/// The offset of the first semicolon, or the length if there is none.
pub open spec fn first_semi(s: Seq<char>) -> int
    decreases s.len(),
{
    if s.len() == 0 {
        0
    } else if s[0] == ';' {
        0
    } else {
        1 + first_semi(s.skip(1))
    }
}

pub proof fn lemma_first_semi_char(s: Seq<char>)
    ensures
        0 <= first_semi(s) <= s.len(),
        first_semi(s) < s.len() ==> s[first_semi(s)] == ';',
        forall|j: int| 0 <= j < first_semi(s) ==> s[j] != ';',
    decreases s.len(),
{
    if s.len() > 0 && s[0] != ';' {
        lemma_first_semi_char(s.skip(1));
        assert(forall|j: int| 1 <= j < s.len() ==> s[j] == s.skip(1)[j - 1]);
    }
}

pub proof fn lemma_first_semi_at(s: Seq<char>, i: int)
    requires
        0 <= i <= s.len(),
        i < s.len() ==> s[i] == ';',
        forall|j: int| 0 <= j < i ==> s[j] != ';',
        i == s.len() ==> forall|j: int| 0 <= j < s.len() ==> s[j] != ';',
    ensures
        first_semi(s) == i,
    decreases i,
{
    if i > 0 {
        assert(s[0] != ';');
        assert(forall|j: int| 0 <= j < s.len() - 1 ==> s.skip(1)[j] == s[j + 1]);
        lemma_first_semi_at(s.skip(1), i - 1);
    }
}

/// Splits the characters of `cs` between `start` and `end` at semicolons,
/// returning the pieces as index pairs into `cs`.
pub fn split_semi_ranges(cs: &Vec<char>, start: usize, end: usize) -> (r: Vec<(usize, usize)>)
    requires
        start <= end,
        end <= cs@.len(),
    ensures
        ({
            let pieces = split_semi(cs@.subrange(start as int, end as int));
            &&& r@.len() == pieces.len()
            &&& forall|k: int|
                0 <= k < r@.len() ==> start <= (#[trigger] r@[k]).0 <= r@[k].1 <= end
                    && cs@.subrange(r@[k].0 as int, r@[k].1 as int) == pieces[k]
        }),
{
    let mut r: Vec<(usize, usize)> = Vec::new();
    let mut lo: usize = start;
    let mut i: usize = start;
    let ghost whole = cs@.subrange(start as int, end as int);
    while i < end
        invariant
            start <= lo <= i <= end,
            end <= cs@.len(),
            forall|j: int| lo <= j < i ==> cs@[j] != ';',
            ({
                let pieces = split_semi(cs@.subrange(start as int, end as int));
                let done = r@.len();
                &&& (forall|k: int|
                    0 <= k < done ==> start <= (#[trigger] r@[k]).0 <= r@[k].1 <= end
                        && cs@.subrange(r@[k].0 as int, r@[k].1 as int) == pieces[k])
                &&& split_semi(cs@.subrange(start as int, end as int)) =~= pieces.take(done as int)
                    + split_semi(cs@.subrange(lo as int, end as int))
                &&& done <= pieces.len()
            }),
        decreases end - i,
    {
        let c = cs[i];
        if c == ';' {
            let ghost rest = cs@.subrange(lo as int, end as int);
            proof {
                assert(rest[i - lo] == cs@[i as int]);
                assert(forall|j: int| 0 <= j < i - lo ==> rest[j] == cs@[lo + j]);
                lemma_first_semi_at(rest, i - lo);
                assert(rest.take(i - lo) =~= cs@.subrange(lo as int, i as int));
                assert(rest.skip(i - lo + 1) =~= cs@.subrange(i + 1, end as int));
            }
            r.push((lo, i));
            lo = i + 1;
        }
        i += 1;
    }
    let ghost rest = cs@.subrange(lo as int, end as int);
    proof {
        assert(forall|j: int| 0 <= j < rest.len() ==> rest[j] == cs@[lo + j]);
        lemma_first_semi_at(rest, rest.len() as int);
        assert(rest.take(rest.len() as int) =~= rest);
    }
    r.push((lo, end));
    proof {
        let pieces = split_semi(cs@.subrange(start as int, end as int));
        assert(split_semi(rest) =~= seq![rest]);
        assert(pieces =~= pieces.take(pieces.len() as int));
    }
    r
}

/// ASCII whitespace, as surrounding blanks in a parameter are ignored.
pub open spec fn is_blank(c: char) -> bool {
    c == ' ' || c == '\t' || c == '\n' || c == '\r' || (c as u32) == 0x0b || (c as u32) == 0x0c
}

fn blank_char(c: char) -> (r: bool)
    ensures
        r == is_blank(c),
{
    c == ' ' || c == '\t' || c == '\n' || c == '\r' || c == '\u{b}' || c == '\u{c}'
}

/// Moves `start` and `end` inward past surrounding blanks.
pub fn trim_range(cs: &Vec<char>, start: usize, end: usize) -> (r: (usize, usize))
    requires
        start <= end,
        end <= cs@.len(),
    ensures
        start <= r.0 <= r.1 <= end,
        cs@.subrange(r.0 as int, r.1 as int) == spec_trim(cs@.subrange(start as int, end as int)),
{
    let ghost s = cs@.subrange(start as int, end as int);
    let mut lo = start;
    let mut hi = end;
    while lo < hi && blank_char(cs[lo])
        invariant
            start <= lo <= hi <= end,
            end <= cs@.len(),
            hi == end,
            s == cs@.subrange(start as int, end as int),
            forall|j: int| start <= j < lo ==> is_blank(#[trigger] cs@[j]),
        decreases hi - lo,
    {
        lo += 1;
    }
    while hi > lo && blank_char(cs[hi - 1])
        invariant
            start <= lo <= hi <= end,
            end <= cs@.len(),
            s == cs@.subrange(start as int, end as int),
            forall|j: int| start <= j < lo ==> is_blank(#[trigger] cs@[j]),
            forall|j: int| hi <= j < end ==> is_blank(#[trigger] cs@[j]),
            lo < hi ==> !is_blank(cs@[lo as int]),
        decreases hi - lo,
    {
        hi -= 1;
    }
    proof {
        assert(forall|j: int| 0 <= j < s.len() ==> s[j] == cs@[start + j]);
        if lo < hi {
            lemma_ws_prefix_at(s, lo - start);
            lemma_ws_suffix_at(s, hi - start);
            assert(s.subrange(lo - start, hi - start) =~= cs@.subrange(lo as int, hi as int));
        } else {
            // Everything was blank; the trim of an all-blank string is empty.
            assert(forall|j: int| 0 <= j < s.len() ==> is_blank(s[j]));
            if s.len() > 0 {
                lemma_ws_prefix_at(s, s.len() as int);
                assert(ws_suffix_len(s) >= 0) by {
                    lemma_ws_suffix_nonneg(s);
                }
            }
            assert(cs@.subrange(lo as int, hi as int) =~= spec_trim(s));
        }
    }
    (lo, hi)
}

proof fn lemma_ws_suffix_nonneg(s: Seq<char>)
    ensures
        0 <= ws_suffix_len(s) <= s.len(),
    decreases s.len(),
{
    if s.len() > 0 && is_blank(s.last()) {
        lemma_ws_suffix_nonneg(s.drop_last());
    }
}

/// The decimal digits of a number, most significant first.
pub open spec fn dec_chars(n: int) -> Seq<char>
    decreases n,
{
    if n <= 0 {
        seq!['0']
    } else if n < 10 {
        seq![(0x30 + n) as char]
    } else {
        dec_chars(n / 10) + seq![(0x30 + n % 10) as char]
    }
}

/// The decimal digits of a number, as bytes.
pub open spec fn dec_bytes(n: int) -> Seq<u8> {
    dec_chars(n).map_values(|c: char| c as u8)
}

/// Appends the decimal digits of `n` to `out`.
pub fn push_decimal(out: &mut Vec<u8>, n: usize)
    ensures
        final(out)@ == old(out)@ + dec_bytes(n as int),
    decreases n,
{
    if n < 10 {
        out.push(0x30 + (n as u8));
        proof {
            assert(dec_chars(n as int).len() == 1);
            assert(dec_bytes(n as int) =~= seq![(0x30 + n) as u8]);
            assert(out@ =~= old(out)@ + dec_bytes(n as int));
        }
    } else {
        push_decimal(out, n / 10);
        out.push(0x30 + ((n % 10) as u8));
        proof {
            assert(dec_bytes(n as int) =~= dec_bytes((n as int) / 10) + seq![
                (0x30 + (n as int) % 10) as u8,
            ]);
            assert(out@ =~= old(out)@ + dec_bytes(n as int));
        }
    }
}


/// The number of blanks at the front.
pub open spec fn ws_prefix_len(s: Seq<char>) -> int
    decreases s.len(),
{
    if s.len() == 0 || !is_blank(s[0]) {
        0
    } else {
        1 + ws_prefix_len(s.skip(1))
    }
}

/// The number of blanks at the back.
pub open spec fn ws_suffix_len(s: Seq<char>) -> int
    decreases s.len(),
{
    if s.len() == 0 || !is_blank(s.last()) {
        0
    } else {
        1 + ws_suffix_len(s.drop_last())
    }
}

/// The string with surrounding blanks removed.
pub open spec fn spec_trim(s: Seq<char>) -> Seq<char> {
    let a = ws_prefix_len(s);
    let b = s.len() - ws_suffix_len(s);
    if 0 <= a <= b <= s.len() {
        s.subrange(a, b)
    } else {
        Seq::empty()
    }
}

pub proof fn lemma_ws_prefix_at(s: Seq<char>, a: int)
    requires
        0 <= a <= s.len(),
        forall|j: int| 0 <= j < a ==> is_blank(#[trigger] s[j]),
        a < s.len() ==> !is_blank(s[a]),
    ensures
        ws_prefix_len(s) == a,
    decreases a,
{
    if a > 0 {
        assert(forall|j: int| 0 <= j < s.len() - 1 ==> s.skip(1)[j] == s[j + 1]);
        lemma_ws_prefix_at(s.skip(1), a - 1);
    }
}

pub proof fn lemma_ws_suffix_at(s: Seq<char>, b: int)
    requires
        0 <= b <= s.len(),
        forall|j: int| b <= j < s.len() ==> is_blank(#[trigger] s[j]),
        b > 0 ==> !is_blank(s[b - 1]),
    ensures
        ws_suffix_len(s) == s.len() - b,
    decreases s.len() - b,
{
    if b < s.len() {
        assert(forall|j: int| 0 <= j < s.len() - 1 ==> s.drop_last()[j] == s[j]);
        lemma_ws_suffix_at(s.drop_last(), b);
    }
}

/// The string with every trailing `c` removed.
pub open spec fn strip_trailing(s: Seq<char>, c: char) -> Seq<char>
    decreases s.len(),
{
    if s.len() > 0 && s.last() == c {
        strip_trailing(s.drop_last(), c)
    } else {
        s
    }
}

pub proof fn lemma_strip_trailing_at(s: Seq<char>, c: char, k: int)
    requires
        0 <= k <= s.len(),
        forall|j: int| k <= j < s.len() ==> s[j] == c,
        k > 0 ==> s[k - 1] != c,
    ensures
        strip_trailing(s, c) == s.take(k),
    decreases s.len() - k,
{
    if k < s.len() {
        assert(forall|j: int| 0 <= j < s.len() - 1 ==> s.drop_last()[j] == s[j]);
        lemma_strip_trailing_at(s.drop_last(), c, k);
        assert(s.drop_last().take(k) =~= s.take(k));
    } else {
        assert(s.take(k) =~= s);
    }
}

/// The string with every trailing `c1` or `c2` removed.
pub open spec fn strip_trailing2(s: Seq<char>, c1: char, c2: char) -> Seq<char>
    decreases s.len(),
{
    if s.len() > 0 && (s.last() == c1 || s.last() == c2) {
        strip_trailing2(s.drop_last(), c1, c2)
    } else {
        s
    }
}

pub proof fn lemma_strip_trailing2_at(s: Seq<char>, c1: char, c2: char, k: int)
    requires
        0 <= k <= s.len(),
        forall|j: int| k <= j < s.len() ==> s[j] == c1 || s[j] == c2,
        k > 0 ==> s[k - 1] != c1 && s[k - 1] != c2,
    ensures
        strip_trailing2(s, c1, c2) == s.take(k),
    decreases s.len() - k,
{
    if k < s.len() {
        assert(forall|j: int| 0 <= j < s.len() - 1 ==> s.drop_last()[j] == s[j]);
        lemma_strip_trailing2_at(s.drop_last(), c1, c2, k);
        assert(s.drop_last().take(k) =~= s.take(k));
    } else {
        assert(s.take(k) =~= s);
    }
}

/// The new end after removing every trailing `c` from `cs` between `start`
/// and `end`.
pub fn strip_trailing_range(cs: &Vec<char>, start: usize, end: usize, c: char) -> (r: usize)
    requires
        start <= end,
        end <= cs@.len(),
    ensures
        start <= r <= end,
        cs@.subrange(start as int, r as int) == strip_trailing(
            cs@.subrange(start as int, end as int),
            c,
        ),
{
    let ghost s = cs@.subrange(start as int, end as int);
    let mut hi = end;
    while hi > start && cs[hi - 1] == c
        invariant
            start <= hi <= end,
            end <= cs@.len(),
            s == cs@.subrange(start as int, end as int),
            forall|j: int| hi - start <= j < s.len() ==> s[j] == c,
        decreases hi - start,
    {
        proof {
            assert(s[hi - 1 - start] == cs@[hi - 1]);
        }
        hi -= 1;
    }
    proof {
        if hi > start {
            assert(s[hi - 1 - start] == cs@[hi - 1]);
        }
        lemma_strip_trailing_at(s, c, hi - start);
        assert(s.take(hi - start) =~= cs@.subrange(start as int, hi as int));
    }
    hi
}

/// The new end after removing every trailing `c1` or `c2`.
pub fn strip_trailing2_range(cs: &Vec<char>, start: usize, end: usize, c1: char, c2: char) -> (r:
    usize)
    requires
        start <= end,
        end <= cs@.len(),
    ensures
        start <= r <= end,
        cs@.subrange(start as int, r as int) == strip_trailing2(
            cs@.subrange(start as int, end as int),
            c1,
            c2,
        ),
{
    let ghost s = cs@.subrange(start as int, end as int);
    let mut hi = end;
    while hi > start && (cs[hi - 1] == c1 || cs[hi - 1] == c2)
        invariant
            start <= hi <= end,
            end <= cs@.len(),
            s == cs@.subrange(start as int, end as int),
            forall|j: int| hi - start <= j < s.len() ==> s[j] == c1 || s[j] == c2,
        decreases hi - start,
    {
        proof {
            assert(s[hi - 1 - start] == cs@[hi - 1]);
        }
        hi -= 1;
    }
    proof {
        if hi > start {
            assert(s[hi - 1 - start] == cs@[hi - 1]);
        }
        lemma_strip_trailing2_at(s, c1, c2, hi - start);
        assert(s.take(hi - start) =~= cs@.subrange(start as int, hi as int));
    }
    hi
}

/// A string of the characters of `cs` from `start` up to `end`.
pub fn string_of_chars(cs: &Vec<char>, start: usize, end: usize) -> (r: String)
    requires
        start <= end,
        end <= cs@.len(),
    ensures
        r@ == cs@.subrange(start as int, end as int),
{
    let mut r = String::new();
    let mut i = start;
    while i < end
        invariant
            start <= i <= end,
            end <= cs@.len(),
            r@ == cs@.subrange(start as int, i as int),
        decreases end - i,
    {
        crate::utf8::push_char(&mut r, cs[i]);
        proof {
            assert(cs@.subrange(start as int, i as int).push(cs@[i as int]) =~= cs@.subrange(
                start as int,
                i + 1,
            ));
        }
        i += 1;
    }
    r
}

/// Collects the characters of a string.
pub fn chars_of(s: &str) -> (v: Vec<char>)
    ensures
        v@ == s@,
{
    let n = s.unicode_len();
    let mut v: Vec<char> = Vec::new();
    let mut i: usize = 0;
    while i < n
        invariant
            i <= n,
            n == s@.len(),
            v@.len() == i,
            forall|j: int| 0 <= j < i ==> v@[j] == s@[j],
        decreases n - i,
    {
        v.push(s.get_char(i));
        i += 1;
    }
    proof {
        assert(v@ =~= s@);
    }
    v
}

} // verus!
