//! Character-level text utilities shared by the parsers and formatters.
//!
//! The library works on `Vec<char>` internally so that every scan and every
//! build step has a `Seq<char>` meaning; `String` appears only at the API
//! boundary.

use vstd::prelude::*;

verus! {

// --- conversions between String and Vec<char> ---

/// Collect the characters of a string slice.
pub fn chars_of(s: &str) -> (v: Vec<char>)
    ensures
        v@ == s@,
{
    let mut v: Vec<char> = Vec::new();
    for c in it: s.chars()
        invariant
            v@ == it.seq().take(it.index() as int).map_values(|x: char| x),
            it.seq() == s@,
    {
        v.push(c);
    }
    proof {
        assert(v@ =~= s@);
    }
    v
}

/// Relies on `core::iter::Iterator::collect` to build a `String` from chars.
#[verifier::external_body]
pub fn string_from_chars(v: &Vec<char>) -> (s: String)
    ensures
        s@ == v@,
{
    v.iter().collect()
}

// --- character classes ---

/// The characters with the Unicode `White_Space` property, as
/// `char::is_whitespace` recognizes them.
pub open spec fn spec_is_ws(c: char) -> bool {
    let u = c as u32;
    (0x9 <= u && u <= 0xd) || u == 0x20 || u == 0x85 || u == 0xa0 || u == 0x1680 || (0x2000 <= u
        && u <= 0x200a) || u == 0x2028 || u == 0x2029 || u == 0x202f || u == 0x205f || u == 0x3000
}

/// Unicode whitespace test (the same set as `char::is_whitespace`).
pub fn is_ws(c: char) -> (b: bool)
    ensures
        b == spec_is_ws(c),
{
    let u = c as u32;
    (0x9 <= u && u <= 0xd) || u == 0x20 || u == 0x85 || u == 0xa0 || u == 0x1680 || (0x2000 <= u
        && u <= 0x200a) || u == 0x2028 || u == 0x2029 || u == 0x202f || u == 0x205f || u == 0x3000
}

pub open spec fn spec_is_digit(c: char) -> bool {
    0x30 <= c as u32 && c as u32 <= 0x39
}

/// ASCII decimal digit test.
pub fn is_digit(c: char) -> (b: bool)
    ensures
        b == spec_is_digit(c),
{
    let u = c as u32;
    0x30 <= u && u <= 0x39
}

/// The numeric value of an ASCII digit.
pub open spec fn spec_digit_val(c: char) -> nat {
    (c as u32 - 0x30) as nat
}

// --- decimal values of digit strings ---

/// The number denoted by a digit string, most significant digit first.
pub open spec fn spec_digits_val(s: Seq<char>) -> nat
    decreases s.len(),
{
    if s.len() == 0 {
        0
    } else {
        spec_digits_val(s.drop_last()) * 10 + spec_digit_val(s.last())
    }
}

pub open spec fn spec_all_digits(s: Seq<char>) -> bool {
    forall|i: int| 0 <= i < s.len() ==> spec_is_digit(#[trigger] s[i])
}

// --- formatting unsigned integers ---

/// The character for the decimal digit `d`.
pub open spec fn spec_digit_char(d: nat) -> char {
    ((d + 0x30) as u8) as char
}

/// The decimal representation of `n`, without leading zeros (just "0" for 0).
pub open spec fn spec_format_nat(n: nat) -> Seq<char>
    decreases n,
{
    let last = seq![spec_digit_char(n % 10)];
    if n < 10 {
        last
    } else {
        spec_format_nat(n / 10) + last
    }
}

proof fn lemma_digit_char_val(d: nat)
    requires
        d < 10,
    ensures
        spec_is_digit(spec_digit_char(d)),
        spec_digit_val(spec_digit_char(d)) == d,
{
    assert(spec_digit_char(d) as u32 == d + 0x30);
}

/// `spec_format_nat` produces only digits, and reading it back yields `n`.
pub proof fn lemma_format_nat_val(n: nat)
    ensures
        spec_all_digits(spec_format_nat(n)),
        spec_digits_val(spec_format_nat(n)) == n,
        spec_format_nat(n).len() >= 1,
    decreases n,
{
    let s = spec_format_nat(n);
    lemma_digit_char_val(n % 10);
    if n < 10 {
        assert(s =~= seq![spec_digit_char(n % 10)]);
        assert(s.len() == 1);
        assert(s.last() == spec_digit_char(n % 10));
        assert(s.drop_last() =~= Seq::<char>::empty());
        assert(spec_digits_val(s) == spec_digits_val(s.drop_last()) * 10 + spec_digit_val(s.last()));
        assert(spec_digits_val(s.drop_last()) == 0);
        assert(spec_digits_val(s) == n % 10);
    } else {
        lemma_format_nat_val(n / 10);
        let pre = spec_format_nat(n / 10);
        assert(s =~= pre + seq![spec_digit_char(n % 10)]);
        assert(s.drop_last() =~= pre);
        assert(s.last() == spec_digit_char(n % 10));
        assert(spec_digits_val(s) == spec_digits_val(pre) * 10 + n % 10);
        assert(spec_digits_val(pre) == n / 10);
        assert(n / 10 * 10 + n % 10 == n) by (nonlinear_arith);
        assert forall|i: int| 0 <= i < s.len() implies spec_is_digit(#[trigger] s[i]) by {
            if i < pre.len() {
                assert(s[i] == pre[i]);
            } else {
                assert(s[i] == s.last());
            }
        }
    }
}

/// Append the decimal representation of `n` to `out`.
pub fn push_u64(out: &mut Vec<char>, n: u64)
    ensures
        final(out)@ == old(out)@ + spec_format_nat(n as nat),
{
    let mut rev: Vec<char> = Vec::new();
    let mut m: u64 = n;
    #[verifier::loop_isolation(true)]
    loop
        invariant_except_break
            spec_format_nat(n as nat) == spec_format_nat(m as nat) + rev@.reverse(),
        ensures
            spec_format_nat(n as nat) == rev@.reverse(),
        decreases m,
    {
        let ghost pre_rev = rev@;
        let d: u32 = (m % 10) as u32;
        let c: char = (d + 0x30) as u8 as char;
        proof {
            assert(d == m as nat % 10);
            assert(c == spec_digit_char(m as nat % 10));
        }
        rev.push(c);
        proof {
            assert(rev@.reverse() =~= seq![c] + pre_rev.reverse());
        }
        if m < 10 {
            proof {
                assert(spec_format_nat(m as nat) =~= seq![c]);
                assert(spec_format_nat(m as nat) + pre_rev.reverse() =~= rev@.reverse());
            }
            break ;
        }
        proof {
            assert(spec_format_nat(m as nat) =~= spec_format_nat((m / 10) as nat) + seq![c]);
            assert(spec_format_nat((m / 10) as nat) + rev@.reverse() =~= spec_format_nat(
                m as nat,
            ) + pre_rev.reverse());
        }
        m = m / 10;
    }
    let ghost mid = out@;
    let mut i: usize = rev.len();
    while i > 0
        invariant
            i <= rev.len(),
            spec_format_nat(n as nat) == spec_format_nat(n as nat),
            out@ == mid + rev@.subrange(i as int, rev@.len() as int).reverse(),
        decreases i,
    {
        let ghost pre = out@;
        i = i - 1;
        out.push(rev[i]);
        proof {
            assert(rev@.subrange(i as int, rev@.len() as int).reverse() =~= rev@.subrange(
                i + 1,
                rev@.len() as int,
            ).reverse() + seq![rev@[i as int]]);
        }
    }
    proof {
        assert(rev@.subrange(0, rev@.len() as int) =~= rev@);
        assert(out@ =~= mid + rev@.reverse());
    }
}

/// The decimal representation of `n` as a fresh vector.
pub fn format_u64(n: u64) -> (v: Vec<char>)
    ensures
        v@ == spec_format_nat(n as nat),
{
    let mut v: Vec<char> = Vec::new();
    push_u64(&mut v, n);
    proof {
        assert(v@ =~= spec_format_nat(n as nat));
    }
    v
}

/// The decimal representation of `n` as a `String`.
pub fn format_u64_string(n: u64) -> (s: String)
    ensures
        s@ == spec_format_nat(n as nat),
{
    let v = format_u64(n);
    string_from_chars(&v)
}

// --- parsing unsigned integers ---

/// Parse the digit run `s[from..to]` as a `u64`.
///
/// Returns `Some` exactly when the range is non-empty, all digits, and the
/// value fits in a `u64`.
pub fn parse_u64_range(s: &Vec<char>, from: usize, to: usize) -> (r: Option<u64>)
    requires
        from <= to <= s@.len(),
    ensures
        match r {
            Some(n) => from < to && spec_all_digits(s@.subrange(from as int, to as int)) && n
                == spec_digits_val(s@.subrange(from as int, to as int)),
            None => from == to || !spec_all_digits(s@.subrange(from as int, to as int))
                || spec_digits_val(s@.subrange(from as int, to as int)) > u64::MAX,
        },
{
    if from == to {
        return None;
    }
    let mut acc: u64 = 0;
    let mut i: usize = from;
    while i < to
        invariant
            from <= i <= to <= s@.len(),
            spec_all_digits(s@.subrange(from as int, i as int)),
            acc == spec_digits_val(s@.subrange(from as int, i as int)),
        decreases to - i,
    {
        let c = s[i];
        if !is_digit(c) {
            proof {
                assert(s@.subrange(from as int, to as int)[i - from] == s@[i as int]);
            }
            return None;
        }
        let d: u32 = (c as u32) - 0x30;
        let next = match acc.checked_mul(10) {
            Some(x) => x.checked_add(d as u64),
            None => None,
        };
        proof {
            assert(s@.subrange(from as int, i + 1) =~= s@.subrange(from as int, i as int)
                + seq![s@[i as int]]);
            assert(s@.subrange(from as int, i + 1).drop_last() =~= s@.subrange(
                from as int,
                i as int,
            ));
        }
        match next {
            Some(x) => {
                acc = x;
            },
            None => {
                proof {
                    lemma_digits_val_monotone(s@.subrange(from as int, to as int), i + 1 - from);
                    assert(s@.subrange(from as int, to as int).take(i + 1 - from) =~= s@.subrange(
                        from as int,
                        i + 1,
                    ));
                }
                return None;
            },
        }
        i = i + 1;
    }
    proof {
        assert(s@.subrange(from as int, to as int) =~= s@.subrange(from as int, i as int));
    }
    Some(acc)
}

/// A prefix of a digit string denotes no more than the whole string.
proof fn lemma_digits_val_monotone(s: Seq<char>, k: int)
    requires
        0 <= k <= s.len(),
    ensures
        spec_digits_val(s.take(k)) <= spec_digits_val(s),
    decreases s.len() - k,
{
    if k < s.len() {
        lemma_digits_val_monotone(s, k + 1);
        assert(s.take(k + 1).drop_last() =~= s.take(k));
        assert(spec_digits_val(s.take(k + 1)) == spec_digits_val(s.take(k)) * 10 + spec_digit_val(
            s.take(k + 1).last(),
        ));
        assert(spec_digits_val(s.take(k)) <= spec_digits_val(s.take(k)) * 10) by (nonlinear_arith);
    } else {
        assert(s.take(k) =~= s);
    }
}

// --- substring search ---

/// `needle` occurs in `hay` starting at position `i`.
pub open spec fn spec_match_at(hay: Seq<char>, needle: Seq<char>, i: int) -> bool {
    0 <= i && i + needle.len() <= hay.len() && hay.subrange(i, i + needle.len()) == needle
}

/// `needle` occurs somewhere in `hay`.
pub open spec fn spec_contains_seq(hay: Seq<char>, needle: Seq<char>) -> bool {
    exists|i: int| spec_match_at(hay, needle, i)
}

/// Does `needle` occur at position `i` of `hay`?
pub fn match_at(hay: &Vec<char>, needle: &Vec<char>, i: usize) -> (b: bool)
    requires
        i <= hay@.len(),
    ensures
        b == spec_match_at(hay@, needle@, i as int),
{
    if hay.len() - i < needle.len() {
        return false;
    }
    let mut k: usize = 0;
    while k < needle.len()
        invariant
            0 <= k <= needle@.len(),
            i + needle@.len() <= hay@.len(),
            forall|j: int| 0 <= j < k ==> hay@[i + j] == needle@[j],
        decreases needle@.len() - k,
    {
        if hay[i + k] != needle[k] {
            proof {
                assert(hay@.subrange(i as int, i + needle@.len())[k as int] == hay@[i + k]);
            }
            return false;
        }
        k = k + 1;
    }
    proof {
        assert(hay@.subrange(i as int, i + needle@.len()) =~= needle@);
    }
    true
}

/// The first position at or after `from` where `needle` occurs, if any.
pub fn find_seq(hay: &Vec<char>, needle: &Vec<char>, from: usize) -> (r: Option<usize>)
    requires
        from <= hay@.len(),
    ensures
        match r {
            Some(i) => from <= i && spec_match_at(hay@, needle@, i as int) && forall|j: int|
                from <= j < i ==> !spec_match_at(hay@, needle@, j),
            None => forall|j: int| from <= j ==> !spec_match_at(hay@, needle@, j),
        },
{
    let mut i: usize = from;
    while i < hay.len()
        invariant
            from <= i <= hay@.len(),
            forall|j: int| from <= j < i ==> !spec_match_at(hay@, needle@, j),
        decreases hay@.len() - i,
    {
        if match_at(hay, needle, i) {
            return Some(i);
        }
        i = i + 1;
    }
    if match_at(hay, needle, i) {
        return Some(i);
    }
    assert forall|j: int| from <= j implies !spec_match_at(hay@, needle@, j) by {
        if j > i {
            assert(j + needle@.len() > hay@.len());
        }
    }
    None
}

/// Does `needle` occur anywhere in `hay`?
pub fn contains_seq(hay: &Vec<char>, needle: &Vec<char>) -> (b: bool)
    ensures
        b == spec_contains_seq(hay@, needle@),
{
    match find_seq(hay, needle, 0) {
        Some(_) => true,
        None => false,
    }
}

/// Character-vector equality, decided elementwise.
pub fn eq_chars(a: &Vec<char>, b: &Vec<char>) -> (r: bool)
    ensures
        r == (a@ == b@),
{
    if a.len() != b.len() {
        return false;
    }
    let mut i: usize = 0;
    while i < a.len()
        invariant
            0 <= i <= a@.len(),
            a@.len() == b@.len(),
            forall|j: int| 0 <= j < i ==> a@[j] == b@[j],
        decreases a@.len() - i,
    {
        if a[i] != b[i] {
            return false;
        }
        i = i + 1;
    }
    proof {
        assert(a@ =~= b@);
    }
    true
}

/// `s` begins with `prefix`.
pub open spec fn spec_starts_with(s: Seq<char>, prefix: Seq<char>) -> bool {
    spec_match_at(s, prefix, 0)
}

/// Prefix test.
pub fn starts_with(s: &Vec<char>, prefix: &Vec<char>) -> (b: bool)
    ensures
        b == spec_starts_with(s@, prefix@),
{
    match_at(s, prefix, 0)
}

// --- ASCII case folding (for the router's DONE test) ---

/// Lower-case an ASCII letter; leave everything else unchanged.
pub open spec fn spec_lower_char(c: char) -> char {
    if 0x41 <= c as u32 && c as u32 <= 0x5a {
        ((c as u32 + 0x20) as u8) as char
    } else {
        c
    }
}

/// Case-insensitive ASCII equality, as `str::eq_ignore_ascii_case` decides it.
pub open spec fn spec_eq_ignore_case(a: Seq<char>, b: Seq<char>) -> bool {
    a.map_values(|c: char| spec_lower_char(c)) == b.map_values(|c: char| spec_lower_char(c))
}

/// Case-insensitive ASCII comparison of two character vectors.
pub fn eq_ignore_case(a: &Vec<char>, b: &Vec<char>) -> (r: bool)
    ensures
        r == spec_eq_ignore_case(a@, b@),
{
    let ghost la = a@.map_values(|c: char| spec_lower_char(c));
    let ghost lb = b@.map_values(|c: char| spec_lower_char(c));
    if a.len() != b.len() {
        assert(la.len() != lb.len());
        return false;
    }
    let mut i: usize = 0;
    while i < a.len()
        invariant
            0 <= i <= a@.len(),
            a@.len() == b@.len(),
            la == a@.map_values(|c: char| spec_lower_char(c)),
            lb == b@.map_values(|c: char| spec_lower_char(c)),
            forall|j: int| 0 <= j < i ==> la[j] == lb[j],
        decreases a@.len() - i,
    {
        let ca = a[i] as u32;
        let cb = b[i] as u32;
        let fa: u32 = if 0x41 <= ca && ca <= 0x5a {
            ca + 0x20
        } else {
            ca
        };
        let fb: u32 = if 0x41 <= cb && cb <= 0x5a {
            cb + 0x20
        } else {
            cb
        };
        if fa != fb {
            assert(la[i as int] == spec_lower_char(a@[i as int]));
            assert(lb[i as int] == spec_lower_char(b@[i as int]));
            assert(la[i as int] as u32 == fa && lb[i as int] as u32 == fb);
            return false;
        }
        proof {
            assert(la[i as int] == spec_lower_char(a@[i as int]));
            assert(lb[i as int] == spec_lower_char(b@[i as int]));
            assert(la[i as int] as u32 == fa && lb[i as int] as u32 == fb);
        }
        i = i + 1;
    }
    proof {
        assert(la =~= lb);
    }
    true
}

// --- trimming ---

/// Every character of `s` is whitespace.
pub open spec fn spec_is_blank(s: Seq<char>) -> bool {
    forall|i: int| 0 <= i < s.len() ==> spec_is_ws(#[trigger] s[i])
}

/// The bounds of `s` with leading and trailing whitespace removed:
/// returns `(lo, hi)` such that `s[lo..hi]` is the trimmed text.
pub fn trim_range(s: &Vec<char>) -> (r: (usize, usize))
    ensures
        r.0 <= r.1 <= s@.len(),
        forall|i: int| 0 <= i < r.0 ==> spec_is_ws(#[trigger] s@[i]),
        forall|i: int| r.1 <= i < s@.len() ==> spec_is_ws(#[trigger] s@[i]),
        r.0 < r.1 ==> !spec_is_ws(s@[r.0 as int]) && !spec_is_ws(s@[r.1 - 1]),
        (r.0 == r.1) == spec_is_blank(s@),
{
    let mut lo: usize = 0;
    while lo < s.len() && is_ws(s[lo])
        invariant
            lo <= s@.len(),
            forall|i: int| 0 <= i < lo ==> spec_is_ws(#[trigger] s@[i]),
        decreases s@.len() - lo,
    {
        lo = lo + 1;
    }
    if lo == s.len() {
        return (lo, lo);
    }
    let mut hi: usize = s.len();
    while hi > lo && is_ws(s[hi - 1])
        invariant
            lo <= hi <= s@.len(),
            forall|i: int| hi <= i < s@.len() ==> spec_is_ws(#[trigger] s@[i]),
        decreases hi,
    {
        hi = hi - 1;
    }
    assert(!spec_is_ws(s@[lo as int]));
    assert(lo < hi);
    (lo, hi)
}

/// Copy the range `s[from..to]`.
pub fn slice_range(s: &Vec<char>, from: usize, to: usize) -> (r: Vec<char>)
    requires
        from <= to <= s@.len(),
    ensures
        r@ == s@.subrange(from as int, to as int),
{
    let mut r: Vec<char> = Vec::new();
    let mut i: usize = from;
    while i < to
        invariant
            from <= i <= to <= s@.len(),
            r@ == s@.subrange(from as int, i as int),
        decreases to - i,
    {
        r.push(s[i]);
        proof {
            assert(s@.subrange(from as int, i + 1) =~= s@.subrange(from as int, i as int)
                + seq![s@[i as int]]);
        }
        i = i + 1;
    }
    proof {
        assert(r@ =~= s@.subrange(from as int, to as int));
    }
    r
}

// --- splitting into lines ---

/// Drop a single trailing carriage return, as `str::lines` does.
pub open spec fn spec_strip_cr(l: Seq<char>) -> Seq<char> {
    if l.len() > 0 && l.last() == '\r' {
        l.drop_last()
    } else {
        l
    }
}

/// The lines of `s[i..]` given the pending partial line `cur`, one character
/// per step. Mirrors `str::lines`: lines end at `'\n'`, a `'\r'` directly
/// before the `'\n'` is dropped, and a final unterminated line is kept unless
/// it is empty.
pub open spec fn spec_lines_from(s: Seq<char>, i: int, cur: Seq<char>) -> Seq<Seq<char>>
    decreases s.len() - i,
{
    if i < 0 || i >= s.len() {
        if cur.len() == 0 {
            Seq::empty()
        } else {
            seq![cur]
        }
    } else if s[i] == '\n' {
        seq![spec_strip_cr(cur)] + spec_lines_from(s, i + 1, Seq::empty())
    } else {
        spec_lines_from(s, i + 1, cur.push(s[i]))
    }
}

/// The lines of `s`, as `str::lines` yields them.
pub open spec fn spec_lines(s: Seq<char>) -> Seq<Seq<char>> {
    spec_lines_from(s, 0, Seq::empty())
}

/// Split `s` into lines, following `str::lines`.
pub fn split_lines(s: &Vec<char>) -> (r: Vec<Vec<char>>)
    ensures
        r.deep_view() == spec_lines(s@),
{
    let mut r: Vec<Vec<char>> = Vec::new();
    let mut cur: Vec<char> = Vec::new();
    let mut i: usize = 0;
    while i < s.len()
        invariant
            0 <= i <= s@.len(),
            spec_lines(s@) == r.deep_view() + spec_lines_from(s@, i as int, cur@),
        decreases s@.len() - i,
    {
        let ghost pre = r.deep_view();
        let ghost pre_cur = cur@;
        let c = s[i];
        if c == '\n' {
            let done = if cur.len() > 0 && cur[cur.len() - 1] == '\r' {
                let t = slice_range(&cur, 0, cur.len() - 1);
                proof {
                    assert(t@ =~= spec_strip_cr(pre_cur));
                }
                t
            } else {
                cur
            };
            r.push(done);
            cur = Vec::new();
            proof {
                assert(r.deep_view() =~~= pre.push(spec_strip_cr(pre_cur)));
                assert(pre + (seq![spec_strip_cr(pre_cur)] + spec_lines_from(
                    s@,
                    i + 1,
                    Seq::empty(),
                )) =~~= r.deep_view() + spec_lines_from(s@, i + 1, cur@));
            }
        } else {
            cur.push(c);
        }
        i = i + 1;
    }
    let ghost pre = r.deep_view();
    let ghost pre_cur = cur@;
    if cur.len() > 0 {
        r.push(cur);
        proof {
            assert(r.deep_view() =~~= pre + seq![pre_cur]);
        }
    }
    proof {
        assert(r.deep_view() =~~= spec_lines(s@));
    }
    r
}

/// The first position at or after `i` where `n` occurs in `h`.
pub open spec fn spec_find_at(h: Seq<char>, n: Seq<char>, i: int) -> Option<int>
    decreases h.len() - i,
{
    if !(0 <= i <= h.len()) {
        None
    } else if spec_match_at(h, n, i) {
        Some(i)
    } else if i >= h.len() {
        None
    } else {
        spec_find_at(h, n, i + 1)
    }
}

/// `spec_find_at` yields the first match at or after `i`, or none at all.
pub proof fn lemma_find_at_first(h: Seq<char>, n: Seq<char>, i: int)
    requires
        0 <= i <= h.len(),
    ensures
        match spec_find_at(h, n, i) {
            Some(j) => i <= j && spec_match_at(h, n, j) && forall|x: int|
                i <= x < j ==> !spec_match_at(h, n, x),
            None => forall|x: int| i <= x ==> !spec_match_at(h, n, x),
        },
    decreases h.len() - i,
{
    if spec_match_at(h, n, i) {
    } else if i >= h.len() {
        assert forall|x: int| i <= x implies !spec_match_at(h, n, x) by {
            if x > i {
                assert(x + n.len() > h.len());
            }
        }
    } else {
        lemma_find_at_first(h, n, i + 1);
    }
}

/// First-occurrence deduplication.
pub open spec fn spec_dedup_first(s: Seq<Seq<char>>) -> Seq<Seq<char>>
    decreases s.len(),
{
    if s.len() == 0 {
        Seq::empty()
    } else {
        let pre = spec_dedup_first(s.drop_last());
        if pre.contains(s.last()) {
            pre
        } else {
            pre.push(s.last())
        }
    }
}

/// No element occurs twice.
pub open spec fn spec_distinct(s: Seq<Seq<char>>) -> bool {
    forall|i: int, j: int| 0 <= i < j < s.len() ==> s[i] != s[j]
}

/// Deduplication keeps exactly the elements of its input, each once.
pub proof fn lemma_dedup_first_props(s: Seq<Seq<char>>)
    ensures
        spec_distinct(spec_dedup_first(s)),
        forall|x: Seq<char>| spec_dedup_first(s).contains(x) <==> s.contains(x),
    decreases s.len(),
{
    if s.len() == 0 {
        assert forall|x: Seq<char>| !s.contains(x) by {
            if s.contains(x) {
                let i = choose|i: int| 0 <= i < s.len() && s[i] == x;
            }
        }
    } else {
        lemma_dedup_first_props(s.drop_last());
        let pre = spec_dedup_first(s.drop_last());
        let d = spec_dedup_first(s);
        assert forall|x: Seq<char>| d.contains(x) <==> s.contains(x) by {
            lemma_contains_split(s, x);
            if pre.contains(x) {
                assert(d.contains(x)) by {
                    if !pre.contains(s.last()) {
                        let i = choose|i: int| 0 <= i < pre.len() && pre[i] == x;
                        assert(d[i] == x);
                    }
                }
            }
            if !pre.contains(x) && x == s.last() {
                assert(d.contains(x)) by {
                    assert(d.last() == x);
                }
            }
            if d.contains(x) {
                let i = choose|i: int| 0 <= i < d.len() && d[i] == x;
                if i < pre.len() {
                    assert(pre[i] == x);
                    assert(pre.contains(x));
                } else {
                    assert(x == s.last());
                }
                assert(s.contains(x));
            }
        }
        if !pre.contains(s.last()) {
            assert forall|i: int, j: int| 0 <= i < j < d.len() implies d[i] != d[j] by {
                if j < pre.len() {
                    assert(pre[i] == d[i] && pre[j] == d[j]);
                } else {
                    assert(d[i] == pre[i]);
                    assert(pre.contains(pre[i]));
                    assert(d[j] == s.last());
                }
            }
        }
    }
}

/// An element of `s` sits in its prefix or is the last one.
proof fn lemma_contains_split(s: Seq<Seq<char>>, x: Seq<char>)
    requires
        s.len() > 0,
    ensures
        s.contains(x) <==> (s.drop_last().contains(x) || x == s.last()),
{
    if s.contains(x) {
        let i = choose|i: int| 0 <= i < s.len() && s[i] == x;
        if i < s.len() - 1 {
            assert(s.drop_last()[i] == x);
            assert(s.drop_last().contains(x));
        }
    }
    if s.drop_last().contains(x) {
        let i = choose|i: int| 0 <= i < s.drop_last().len() && s.drop_last()[i] == x;
        assert(s[i] == x);
    }
    if x == s.last() {
        assert(s[s.len() - 1] == x);
    }
}


/// Find the first occurrence of `needle` at or after `from`, as
/// `spec_find_at` names it.
pub fn find_at(hay: &Vec<char>, needle: &Vec<char>, from: usize) -> (r: Option<usize>)
    requires
        from <= hay@.len(),
    ensures
        match r {
            Some(i) => spec_find_at(hay@, needle@, from as int) == Some(i as int) && from <= i
                && i + needle@.len() <= hay@.len(),
            None => spec_find_at(hay@, needle@, from as int) is None,
        },
{
    proof {
        lemma_find_at_first(hay@, needle@, from as int);
    }
    match find_seq(hay, needle, from) {
        Some(i) => {
            proof {
                let sf = spec_find_at(hay@, needle@, from as int);
                if sf is None {
                    assert(!spec_match_at(hay@, needle@, i as int));
                    assert(false);
                }
                let j = sf->0;
                if j < i {
                    assert(spec_match_at(hay@, needle@, j));
                    assert(false);
                }
                if i < j {
                    assert(!spec_match_at(hay@, needle@, i as int));
                    assert(false);
                }
            }
            Some(i)
        },
        None => {
            proof {
                if spec_find_at(hay@, needle@, from as int) is Some {
                    let j = spec_find_at(hay@, needle@, from as int)->0;
                    assert(spec_match_at(hay@, needle@, j));
                    assert(false);
                }
            }
            None
        },
    }
}

/// The pairwise view of an association list of strings.
pub open spec fn view_pairs(v: Seq<(String, String)>) -> Seq<(Seq<char>, Seq<char>)> {
    v.map_values(|p: (String, String)| (p.0@, p.1@))
}

/// The value bound to `name`, the last binding winning.
pub open spec fn spec_assoc_lookup(
    pairs: Seq<(Seq<char>, Seq<char>)>,
    name: Seq<char>,
) -> Option<Seq<char>>
    decreases pairs.len(),
{
    if pairs.len() == 0 {
        None
    } else if pairs.last().0 == name {
        Some(pairs.last().1)
    } else {
        spec_assoc_lookup(pairs.drop_last(), name)
    }
}

/// Look `name` up in an association list; the last binding wins.
pub fn assoc_lookup<'a>(vars: &'a Vec<(String, String)>, name: &Vec<char>) -> (r: Option<
    &'a String,
>)
    ensures
        match r {
            Some(v) => spec_assoc_lookup(view_pairs(vars@), name@) == Some(v@),
            None => spec_assoc_lookup(view_pairs(vars@), name@) is None,
        },
{
    let ghost pv = view_pairs(vars@);
    let mut k: usize = vars.len();
    proof {
        assert(pv.take(pv.len() as int) =~= pv);
    }
    while k > 0
        invariant
            k <= vars@.len(),
            pv == view_pairs(vars@),
            pv.len() == vars@.len(),
            spec_assoc_lookup(pv, name@) == spec_assoc_lookup(pv.take(k as int), name@),
        decreases k,
    {
        proof {
            assert(pv.take(k as int).last() == pv[k - 1]);
            assert(pv.take(k as int).drop_last() =~= pv.take(k - 1));
        }
        let cand = chars_of(vars[k - 1].0.as_str());
        if eq_chars(&cand, name) {
            return Some(&vars[k - 1].1);
        }
        k = k - 1;
    }
    proof {
        assert(pv.take(0) =~= Seq::<(Seq<char>, Seq<char>)>::empty());
    }
    None
}

/// The pairwise view of an association list of strings and counts.
pub open spec fn view_pairs_u32(v: Seq<(String, u32)>) -> Seq<(Seq<char>, u32)> {
    v.map_values(|p: (String, u32)| (p.0@, p.1))
}

/// Append a character vector.
pub fn push_chars(out: &mut Vec<char>, s: &Vec<char>)
    ensures
        final(out)@ == old(out)@ + s@,
{
    let mut i: usize = 0;
    while i < s.len()
        invariant
            i <= s@.len(),
            out@ == old(out)@ + s@.take(i as int),
        decreases s@.len() - i,
    {
        out.push(s[i]);
        proof {
            assert(s@.take(i + 1) =~= s@.take(i as int).push(s@[i as int]));
        }
        i = i + 1;
    }
    proof {
        assert(s@.take(s@.len() as int) =~= s@);
    }
}

/// Append the characters of a string slice.
pub fn push_str(out: &mut Vec<char>, s: &str)
    ensures
        final(out)@ == old(out)@ + s@,
{
    let c = chars_of(s);
    push_chars(out, &c);
}

/// Append the characters of a string.
pub fn push_string(out: &mut Vec<char>, s: &String)
    ensures
        final(out)@ == old(out)@ + s@,
{
    let c = chars_of(s.as_str());
    push_chars(out, &c);
}

/// A line with its surrounding whitespace removed.
pub open spec fn spec_trimmed(line: Seq<char>) -> Seq<char> {
    let lo = spec_trim_lo(line, 0);
    let hi = spec_trim_hi(line, line.len() as int);
    if lo < hi {
        line.subrange(lo, hi)
    } else {
        Seq::empty()
    }
}

pub open spec fn spec_trim_lo(s: Seq<char>, i: int) -> int
    decreases s.len() - i,
{
    if 0 <= i < s.len() && spec_is_ws(s[i]) {
        spec_trim_lo(s, i + 1)
    } else {
        i
    }
}

pub open spec fn spec_trim_hi(s: Seq<char>, i: int) -> int
    decreases i,
{
    if 0 < i <= s.len() && spec_is_ws(s[i - 1]) {
        spec_trim_hi(s, i - 1)
    } else {
        i
    }
}

/// Trim a line into a fresh vector.
pub fn trimmed_of(line: &Vec<char>) -> (r: Vec<char>)
    ensures
        r@ == spec_trimmed(line@),
{
    let (lo, hi) = trim_range(line);
    if lo < hi {
        proof {
            lemma_trim_lo_eq(line@, 0, lo as int);
            lemma_trim_hi_eq(line@, line@.len() as int, hi as int);
        }
        slice_range(line, lo, hi)
    } else {
        proof {
            lemma_trim_lo_eq(line@, 0, line@.len() as int);
            lemma_trim_hi_eq(line@, line@.len() as int, 0);
        }
        let r: Vec<char> = Vec::new();
        proof {
            assert(r@ =~= Seq::<char>::empty());
        }
        r
    }
}

/// The forward whitespace scan stops exactly at the first non-blank.
proof fn lemma_trim_lo_eq(s: Seq<char>, i: int, lo: int)
    requires
        0 <= i <= lo <= s.len(),
        forall|j: int| i <= j < lo ==> spec_is_ws(#[trigger] s[j]),
        lo == s.len() || !spec_is_ws(s[lo]),
    ensures
        spec_trim_lo(s, i) == lo,
    decreases lo - i,
{
    if i < lo {
        lemma_trim_lo_eq(s, i + 1, lo);
    }
}

/// The backward whitespace scan stops exactly after the last non-blank.
proof fn lemma_trim_hi_eq(s: Seq<char>, i: int, hi: int)
    requires
        0 <= hi <= i <= s.len(),
        forall|j: int| hi <= j < i ==> spec_is_ws(#[trigger] s[j]),
        hi == 0 || !spec_is_ws(s[hi - 1]),
    ensures
        spec_trim_hi(s, i) == hi,
    decreases i - hi,
{
    if hi < i {
        lemma_trim_hi_eq(s, i - 1, hi);
    }
}


} // verus!
