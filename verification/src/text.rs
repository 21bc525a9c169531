//! Character-level text utilities: whitespace trimming, substring search,
//! prefix tests and unsigned-integer parsing, with exact specifications.

use vstd::prelude::*;
use vstd::string::*;

verus! {

/// The Unicode `White_Space` characters, as `char::is_whitespace` recognizes them.
pub open spec fn is_ws_char(c: char) -> bool {
    c == ' ' || c == '\t' || c == '\n' || c == '\u{b}' || c == '\u{c}' || c == '\r'
        || c == '\u{85}' || c == '\u{a0}' || c == '\u{1680}'
        || ('\u{2000}' <= c && c <= '\u{200a}')
        || c == '\u{2028}' || c == '\u{2029}' || c == '\u{202f}' || c == '\u{205f}'
        || c == '\u{3000}'
}

/// Number of leading whitespace characters of `s`.
pub open spec fn ws_prefix_len(s: Seq<char>) -> int
    decreases s.len(),
{
    if s.len() > 0 && is_ws_char(s[0]) {
        1 + ws_prefix_len(s.drop_first())
    } else {
        0
    }
}

/// Number of trailing whitespace characters of `s`.
pub open spec fn ws_trailing_len(s: Seq<char>) -> int
    decreases s.len(),
{
    if s.len() > 0 && is_ws_char(s.last()) {
        1 + ws_trailing_len(s.drop_last())
    } else {
        0
    }
}

/// `s` with leading and trailing whitespace removed, as `str::trim` yields it.
pub open spec fn trim_of(s: Seq<char>) -> Seq<char> {
    if ws_prefix_len(s) == s.len() {
        Seq::empty()
    } else {
        s.subrange(ws_prefix_len(s), s.len() - ws_trailing_len(s))
    }
}

pub proof fn lemma_ws_prefix(s: Seq<char>)
    ensures
        0 <= ws_prefix_len(s) <= s.len(),
        forall|j: int| 0 <= j < ws_prefix_len(s) ==> is_ws_char(s[j]),
        ws_prefix_len(s) < s.len() ==> !is_ws_char(s[ws_prefix_len(s)]),
    decreases s.len(),
{
    if s.len() > 0 && is_ws_char(s[0]) {
        lemma_ws_prefix(s.drop_first());
        assert forall|j: int| 0 <= j < ws_prefix_len(s) implies is_ws_char(s[j]) by {
            if j > 0 {
                assert(s.drop_first()[j - 1] == s[j]);
            }
        }
        if ws_prefix_len(s) < s.len() {
            assert(s.drop_first()[ws_prefix_len(s) - 1] == s[ws_prefix_len(s)]);
        }
    }
}

pub proof fn lemma_ws_trailing(s: Seq<char>)
    ensures
        0 <= ws_trailing_len(s) <= s.len(),
        forall|j: int| s.len() - ws_trailing_len(s) <= j < s.len() ==> is_ws_char(s[j]),
        ws_trailing_len(s) < s.len() ==> !is_ws_char(s[s.len() - ws_trailing_len(s) - 1]),
    decreases s.len(),
{
    if s.len() > 0 && is_ws_char(s.last()) {
        lemma_ws_trailing(s.drop_last());
        assert forall|j: int| s.len() - ws_trailing_len(s) <= j < s.len() implies is_ws_char(
            s[j],
        ) by {
            if j < s.len() - 1 {
                assert(s.drop_last()[j] == s[j]);
            }
        }
        if ws_trailing_len(s) < s.len() {
            assert(s.drop_last()[s.len() - ws_trailing_len(s) - 1]
                == s[s.len() - ws_trailing_len(s) - 1]);
        }
    }
}

/// When `s` is not all whitespace, its first non-whitespace character comes no
/// later than its last one, so the trim bounds are ordered.
pub proof fn lemma_trim_bounds(s: Seq<char>)
    ensures
        ws_prefix_len(s) < s.len() ==> ws_prefix_len(s) <= s.len() - ws_trailing_len(s) - 1,
{
    lemma_ws_prefix(s);
    lemma_ws_trailing(s);
    if ws_prefix_len(s) < s.len() {
        if ws_prefix_len(s) > s.len() - ws_trailing_len(s) - 1 {
            assert(is_ws_char(s[ws_prefix_len(s)]));
        }
    }
}

/// `p` occurs in `s` starting at position `i`.
pub open spec fn has_prefix_at(s: Seq<char>, p: Seq<char>, i: int) -> bool {
    0 <= i && i + p.len() <= s.len() && s.subrange(i, i + p.len()) == p
}

/// `s` begins with `p`.
pub open spec fn has_prefix(s: Seq<char>, p: Seq<char>) -> bool {
    has_prefix_at(s, p, 0)
}

/// Index of the first occurrence of `ch` in `s` at or after `i`, or `s.len()`
/// when there is none (or `i` is out of range).
pub open spec fn find_from(s: Seq<char>, ch: char, i: int) -> int
    decreases s.len() - i,
{
    if i < 0 || i >= s.len() {
        s.len() as int
    } else if s[i] == ch {
        i
    } else {
        find_from(s, ch, i + 1)
    }
}

pub proof fn lemma_find_from(s: Seq<char>, ch: char, i: int)
    requires
        0 <= i,
    ensures
        find_from(s, ch, i) <= s.len(),
        i <= s.len() ==> i <= find_from(s, ch, i),
        find_from(s, ch, i) < s.len() ==> s[find_from(s, ch, i)] == ch,
        forall|j: int| i <= j < find_from(s, ch, i) ==> s[j] != ch,
    decreases s.len() - i,
{
    if i < s.len() && s[i] != ch {
        lemma_find_from(s, ch, i + 1);
    }
}

/// Searching a suffix finds the same occurrence, shifted.
pub proof fn lemma_find_from_subrange(s: Seq<char>, pos: int, ch: char, j: int)
    requires
        0 <= pos <= s.len(),
        0 <= j,
    ensures
        find_from(s.subrange(pos, s.len() as int), ch, j) == find_from(s, ch, pos + j) - pos,
    decreases s.len() - pos - j,
{
    let sub = s.subrange(pos, s.len() as int);
    if j < sub.len() {
        assert(sub[j] == s[pos + j]);
        if sub[j] != ch {
            lemma_find_from_subrange(s, pos, ch, j + 1);
        }
    }
}

/// Index of the first occurrence of `p` in `s` at or after `i`, or `-1`.
pub open spec fn find_sub_from(s: Seq<char>, p: Seq<char>, i: int) -> int
    decreases s.len() - i,
{
    if i < 0 || i + p.len() > s.len() {
        -1
    } else if has_prefix_at(s, p, i) {
        i
    } else if i < s.len() {
        find_sub_from(s, p, i + 1)
    } else {
        -1
    }
}

/// `p` occurs somewhere in `s`.
pub open spec fn contains_sub(s: Seq<char>, p: Seq<char>) -> bool {
    find_sub_from(s, p, 0) >= 0
}

pub proof fn lemma_find_sub_from(s: Seq<char>, p: Seq<char>, i: int)
    requires
        0 <= i,
        p.len() >= 1,
    ensures
        find_sub_from(s, p, i) >= -1,
        find_sub_from(s, p, i) == -1 ==> forall|j: int| j >= i ==> !has_prefix_at(s, p, j),
        find_sub_from(s, p, i) >= 0 ==> i <= find_sub_from(s, p, i)
            && has_prefix_at(s, p, find_sub_from(s, p, i))
            && forall|j: int| i <= j < find_sub_from(s, p, i) ==> !has_prefix_at(s, p, j),
    decreases s.len() - i,
{
    if i + p.len() > s.len() {
        assert forall|j: int| j >= i implies !has_prefix_at(s, p, j) by {}
    } else if !has_prefix_at(s, p, i) {
        lemma_find_sub_from(s, p, i + 1);
    }
}

/// `s` with everything before the first occurrence of `p` removed; `s` itself
/// when `p` does not occur.
pub open spec fn remove_before_of(s: Seq<char>, p: Seq<char>) -> Seq<char> {
    if contains_sub(s, p) {
        s.subrange(find_sub_from(s, p, 0), s.len() as int)
    } else {
        s
    }
}

pub open spec fn is_digit(c: char) -> bool {
    '0' <= c && c <= '9'
}

pub open spec fn digit_val(c: char) -> int {
    c as int - '0' as int
}

pub open spec fn all_digits(cs: Seq<char>) -> bool {
    forall|k: int| 0 <= k < cs.len() ==> is_digit(cs[k])
}

/// Value of a digit string read in base ten.
pub open spec fn digits_val(cs: Seq<char>) -> int
    decreases cs.len(),
{
    if cs.len() == 0 {
        0
    } else {
        digits_val(cs.drop_last()) * 10 + digit_val(cs.last())
    }
}

/// What `str::parse::<u32>` returns: an optional leading `+`, then one or more
/// decimal digits whose value fits in `u32`; anything else fails.
pub open spec fn u32_parse(cs: Seq<char>) -> Option<u32> {
    let ds = if cs.len() >= 1 && cs[0] == '+' {
        cs.drop_first()
    } else {
        cs
    };
    if ds.len() >= 1 && all_digits(ds) && digits_val(ds) <= u32::MAX {
        Some(digits_val(ds) as u32)
    } else {
        None
    }
}

proof fn lemma_digits_val_nonneg(cs: Seq<char>)
    requires
        all_digits(cs),
    ensures
        digits_val(cs) >= 0,
    decreases cs.len(),
{
    if cs.len() > 0 {
        assert(all_digits(cs.drop_last())) by {
            assert forall|k: int| 0 <= k < cs.drop_last().len() implies is_digit(
                cs.drop_last()[k],
            ) by {
                assert(cs.drop_last()[k] == cs[k]);
            }
        }
        lemma_digits_val_nonneg(cs.drop_last());
        assert(digits_val(cs.drop_last()) * 10 >= 0) by (nonlinear_arith)
            requires digits_val(cs.drop_last()) >= 0;
    }
}

proof fn lemma_digits_val_overflow(v: int, d: int)
    requires
        v > u32::MAX,
        d >= 0,
    ensures
        v * 10 + d > u32::MAX,
{
    assert(v * 10 >= v) by (nonlinear_arith)
        requires v > 0;
}

pub fn is_ws(c: char) -> (b: bool)
    ensures
        b == is_ws_char(c),
{
    c == ' ' || c == '\t' || c == '\n' || c == '\u{b}' || c == '\u{c}' || c == '\r'
        || c == '\u{85}' || c == '\u{a0}' || c == '\u{1680}'
        || ('\u{2000}' <= c && c <= '\u{200a}')
        || c == '\u{2028}' || c == '\u{2029}' || c == '\u{202f}' || c == '\u{205f}'
        || c == '\u{3000}'
}

/// The characters of `s`, one by one.
#[verifier::loop_isolation(false)]
pub fn str_chars(s: &str) -> (v: Vec<char>)
    ensures
        v@ == s@,
{
    let n: usize = s.unicode_len();
    let mut v: Vec<char> = Vec::new();
    let mut i: usize = 0;
    while i < n
        invariant
            0 <= i <= n,
            v@ =~= s@.subrange(0, i as int),
        decreases n - i,
    {
        v.push(s.get_char(i));
        proof {
            assert(v@ =~= s@.subrange(0, i + 1));
        }
        i = i + 1;
    }
    proof {
        assert(s@.subrange(0, n as int) =~= s@);
    }
    v
}

/// Number of leading whitespace characters of `s`.
#[verifier::loop_isolation(false)]
pub fn ws_count(s: &str) -> (a: usize)
    ensures
        a as int == ws_prefix_len(s@),
        a <= s@.len(),
{
    let n: usize = s.unicode_len();
    let mut a: usize = 0;
    while a < n && is_ws(s.get_char(a))
        invariant
            0 <= a <= n,
            forall|j: int| 0 <= j < a ==> is_ws_char(s@[j]),
        decreases n - a,
    {
        a = a + 1;
    }
    proof {
        lemma_ws_prefix(s@);
        if a < ws_prefix_len(s@) {
            assert(is_ws_char(s@[a as int]));
        }
        if a > ws_prefix_len(s@) {
            assert(is_ws_char(s@[ws_prefix_len(s@)]));
        }
    }
    a
}

/// Trim leading and trailing whitespace from `s`.
#[verifier::loop_isolation(false)]
pub fn trim_str(s: &str) -> (r: String)
    ensures
        r@ == trim_of(s@),
{
    let n: usize = s.unicode_len();
    let mut a: usize = 0;
    while a < n && is_ws(s.get_char(a))
        invariant
            0 <= a <= n,
            n == s@.len(),
            forall|j: int| 0 <= j < a ==> is_ws_char(s@[j]),
        decreases n - a,
    {
        a = a + 1;
    }
    proof {
        lemma_ws_prefix(s@);
        if a < ws_prefix_len(s@) {
            assert(is_ws_char(s@[a as int]));
        }
        if a > ws_prefix_len(s@) {
            assert(is_ws_char(s@[ws_prefix_len(s@)]));
        }
        assert(a == ws_prefix_len(s@));
    }
    if a == n {
        proof {
            assert(trim_of(s@) =~= Seq::<char>::empty());
        }
        let r = s.substring_char(n, n);
        proof {
            assert(r@ =~= Seq::<char>::empty());
        }
        return r.to_owned();
    }
    let mut b: usize = n;
    while b > a && is_ws(s.get_char(b - 1))
        invariant
            a <= b <= n,
            a < n,
            n == s@.len(),
            forall|j: int| b <= j < n ==> is_ws_char(s@[j]),
        decreases b,
    {
        b = b - 1;
    }
    proof {
        lemma_ws_trailing(s@);
        lemma_trim_bounds(s@);
        let wtl = ws_trailing_len(s@);
        assert(!is_ws_char(s@[a as int]));
        if b < n - wtl {
            assert(is_ws_char(s@[n - wtl - 1]));
        }
        if b > n - wtl {
            assert(is_ws_char(s@[b - 1]));
            assert(b - 1 >= a + 1 || b - 1 == a);
            if b - 1 == a {
                assert(false);
            }
        }
        assert(b == n - wtl);
        assert(trim_of(s@) =~= s@.subrange(a as int, b as int));
    }
    let r = s.substring_char(a, b);
    r.to_owned()
}

/// Trim of a character subrange of `s`.
pub fn trim_range(s: &str, from: usize, to: usize) -> (r: String)
    requires
        from <= to <= s@.len(),
    ensures
        r@ == trim_of(s@.subrange(from as int, to as int)),
{
    let sub = s.substring_char(from, to);
    trim_str(sub)
}

/// First position of `ch` in `s` at or after `from`, or the length of `s`.
#[verifier::loop_isolation(false)]
pub fn find_char_from(s: &str, ch: char, from: usize) -> (r: usize)
    ensures
        r as int == find_from(s@, ch, from as int),
        r <= s@.len(),
{
    let n: usize = s.unicode_len();
    if from >= n {
        return n;
    }
    let mut i: usize = from;
    while i < n
        invariant
            from <= i <= n,
            n == s@.len(),
            forall|j: int| from <= j < i ==> s@[j] != ch,
        decreases n - i,
    {
        if s.get_char(i) == ch {
            proof {
                lemma_find_from(s@, ch, from as int);
                let f = find_from(s@, ch, from as int);
                if f < i {
                    assert(s@[f] != ch);
                }
                if f > i {
                    assert(s@[i as int] != ch);
                }
            }
            return i;
        }
        i = i + 1;
    }
    proof {
        lemma_find_from(s@, ch, from as int);
        let f = find_from(s@, ch, from as int);
        if f < n {
            assert(s@[f] != ch);
        }
    }
    n
}

/// Does `p` occur in `s` starting at position `i`?
#[verifier::loop_isolation(false)]
pub fn matches_at(s: &str, p: &Vec<char>, i: usize) -> (b: bool)
    ensures
        b == has_prefix_at(s@, p@, i as int),
{
    let n: usize = s.unicode_len();
    let m: usize = p.len();
    if m > n || i > n - m {
        proof {
            assert(!has_prefix_at(s@, p@, i as int));
        }
        return false;
    }
    let mut k: usize = 0;
    while k < m
        invariant
            0 <= k <= m,
            m == p@.len(),
            n == s@.len(),
            i + m <= n,
            forall|j: int| 0 <= j < k ==> s@[i + j] == p@[j],
        decreases m - k,
    {
        if s.get_char(i + k) != p[k] {
            proof {
                assert(s@.subrange(i as int, i + m) != p@) by {
                    assert(s@.subrange(i as int, i + m)[k as int] == s@[i + k]);
                }
            }
            return false;
        }
        k = k + 1;
    }
    proof {
        assert(s@.subrange(i as int, i + m) =~= p@);
    }
    true
}

/// First occurrence of `p` in `s` at or after `from`.
#[verifier::loop_isolation(false)]
pub fn find_sub(s: &str, p: &Vec<char>, from: usize) -> (r: Option<usize>)
    requires
        from <= s@.len(),
    ensures
        match r {
            Some(k) => k as int == find_sub_from(s@, p@, from as int) && k <= s@.len(),
            None => find_sub_from(s@, p@, from as int) == -1,
        },
{
    let n: usize = s.unicode_len();
    let m: usize = p.len();
    if m == 0 {
        proof {
            assert(p@ =~= Seq::<char>::empty());
            assert(s@.subrange(from as int, from as int) =~= p@);
            assert(has_prefix_at(s@, p@, from as int));
        }
        return Some(from);
    }
    proof {
        lemma_find_sub_from(s@, p@, from as int);
    }
    if m > n || from > n - m {
        proof {
            let f = find_sub_from(s@, p@, from as int);
            if f >= 0 {
                assert(has_prefix_at(s@, p@, f));
            }
        }
        return None;
    }
    let mut i: usize = from;
    while i <= n - m
        invariant
            from <= i,
            i <= n - m + 1,
            1 <= m <= n,
            n == s@.len(),
            m == p@.len(),
            forall|j: int| from <= j < i ==> !has_prefix_at(s@, p@, j),
        decreases n - i,
    {
        if matches_at(s, p, i) {
            proof {
                lemma_find_sub_from(s@, p@, from as int);
                let f = find_sub_from(s@, p@, from as int);
                if f == -1 {
                    assert(!has_prefix_at(s@, p@, i as int));
                }
                if 0 <= f < i {
                    assert(!has_prefix_at(s@, p@, f));
                }
                if f > i {
                    assert(!has_prefix_at(s@, p@, i as int));
                }
            }
            return Some(i);
        }
        i = i + 1;
    }
    proof {
        lemma_find_sub_from(s@, p@, from as int);
        let f = find_sub_from(s@, p@, from as int);
        if f >= 0 {
            assert(has_prefix_at(s@, p@, f));
            assert(f >= i);
            assert(f + p@.len() <= s@.len());
        }
    }
    None
}

/// Parse the character range `[from, to)` of `s` as `str::parse::<u32>` would.
#[verifier::loop_isolation(false)]
pub fn parse_u32_range(s: &str, from: usize, to: usize) -> (r: Option<u32>)
    requires
        from <= to <= s@.len(),
    ensures
        r == u32_parse(s@.subrange(from as int, to as int)),
{
    let ghost cs = s@.subrange(from as int, to as int);
    let mut start: usize = from;
    if to > from && s.get_char(from) == '+' {
        start = from + 1;
    }
    let ghost ds = s@.subrange(start as int, to as int);
    proof {
        if to > from {
            assert(cs[0] == s@[from as int]);
        }
        if cs.len() >= 1 && cs[0] == '+' {
            assert(ds =~= cs.drop_first());
        } else {
            assert(ds =~= cs);
        }
    }
    if start == to {
        return None;
    }
    let mut acc: u64 = 0;
    let mut over: bool = false;
    let mut k: usize = start;
    while k < to
        invariant
            start <= k <= to,
            to <= s@.len(),
            ds == s@.subrange(start as int, to as int),
            all_digits(s@.subrange(start as int, k as int)),
            !over ==> acc == digits_val(s@.subrange(start as int, k as int)) && acc <= u32::MAX,
            over ==> digits_val(s@.subrange(start as int, k as int)) > u32::MAX,
        decreases to - k,
    {
        let c = s.get_char(k);
        if c < '0' || c > '9' {
            proof {
                assert(ds[k - start] == s@[k as int]);
                assert(!is_digit(ds[k - start]));
            }
            return None;
        }
        let d: u32 = (c as u32) - 48;
        let ghost pre = s@.subrange(start as int, k as int);
        let ghost post = s@.subrange(start as int, k as int + 1);
        proof {
            assert(post.drop_last() =~= pre);
            assert(post.last() == s@[k as int]);
            assert(all_digits(post)) by {
                assert forall|j: int| 0 <= j < post.len() implies is_digit(post[j]) by {
                    if j < pre.len() {
                        assert(post[j] == pre[j]);
                    }
                }
            }
            assert(digits_val(post) == digits_val(pre) * 10 + digit_val(s@[k as int]));
        }
        if over {
            proof {
                lemma_digits_val_overflow(digits_val(pre), digit_val(s@[k as int]));
            }
        } else {
            let next: u64 = acc * 10 + (d as u64);
            proof {
                assert(digit_val(s@[k as int]) == d as int);
            }
            if next > 0xffff_ffff {
                over = true;
            } else {
                acc = next;
            }
        }
        k = k + 1;
    }
    proof {
        assert(s@.subrange(start as int, to as int) == ds);
        lemma_digits_val_nonneg(ds);
    }
    if over {
        return None;
    }
    proof {
        assert(ds.len() >= 1);
    }
    Some(acc as u32)
}

} // verus!
