//! Fuzzy scoring of a search string against a candidate name.
//!
//! The needle is trimmed first; a blank needle never matches. A haystack that
//! contains the needle verbatim scores near one million, reduced by how many
//! bytes longer than the needle it is (lengths are measured in UTF-8 bytes,
//! as `str::len` measures them), so shorter haystacks score higher.
//! Otherwise the needle is matched as a left-to-right subsequence:
//! +10 per matched character, +15 for extending a contiguous run, -2 per
//! skipped character since the previous match, +20 on a word boundary, and
//! the index of the first matched character is subtracted at the end.

use vstd::prelude::*;

verus! {

use vstd::utf8::{char_is_scalar, encode_scalar, encode_utf8};
use crate::text::chars_of;

/// Unicode `White_Space` characters, the set `str::trim` removes.
pub open spec fn is_space_char(c: char) -> bool {
    let u = c as u32;
    u == 0x20 || u == 0x09 || u == 0x0A || u == 0x0D || u == 0x0B || u == 0x0C || u == 0x85
        || u == 0xA0 || u == 0x1680 || (0x2000 <= u && u <= 0x200A) || u == 0x2028 || u == 0x2029
        || u == 0x202F || u == 0x205F || u == 0x3000
}

fn is_space(c: char) -> (r: bool)
    ensures
        r == is_space_char(c),
{
    let u: u32 = c as u32;
    u == 0x20 || u == 0x09 || u == 0x0A || u == 0x0D || u == 0x0B || u == 0x0C || u == 0x85
        || u == 0xA0 || u == 0x1680 || (0x2000 <= u && u <= 0x200A) || u == 0x2028 || u == 0x2029
        || u == 0x202F || u == 0x205F || u == 0x3000
}

/// `s` with leading whitespace removed.
pub open spec fn trim_front(s: Seq<char>) -> Seq<char>
    decreases s.len(),
{
    if s.len() > 0 && is_space_char(s[0]) {
        trim_front(s.drop_first())
    } else {
        s
    }
}

/// `s` with trailing whitespace removed.
pub open spec fn trim_back(s: Seq<char>) -> Seq<char>
    decreases s.len(),
{
    if s.len() > 0 && is_space_char(s.last()) {
        trim_back(s.drop_last())
    } else {
        s
    }
}

/// `s` with whitespace removed from both ends, as `str::trim` does.
pub open spec fn trim_spec(s: Seq<char>) -> Seq<char> {
    trim_back(trim_front(s))
}

proof fn lemma_trim_front_is_skip(s: Seq<char>, lo: int)
    requires
        0 <= lo <= s.len(),
        forall|j: int| 0 <= j < lo ==> is_space_char(s[j]),
        lo == s.len() || !is_space_char(s[lo]),
    ensures
        trim_front(s) == s.skip(lo),
    decreases lo,
{
    if lo == 0 {
        assert(s.skip(0) =~= s);
    } else {
        lemma_trim_front_is_skip(s.drop_first(), lo - 1);
        assert(s.drop_first().skip(lo - 1) =~= s.skip(lo));
    }
}

proof fn lemma_trim_back_is_take(s: Seq<char>, hi: int)
    requires
        0 <= hi <= s.len(),
        forall|j: int| hi <= j < s.len() ==> is_space_char(s[j]),
        hi == 0 || !is_space_char(s[hi - 1]),
    ensures
        trim_back(s) == s.take(hi),
    decreases s.len() - hi,
{
    if hi == s.len() {
        assert(s.take(hi) =~= s);
    } else {
        lemma_trim_back_is_take(s.drop_last(), hi);
        assert(s.drop_last().take(hi) =~= s.take(hi));
    }
}

/// The character range that survives trimming.
fn trim_bounds(v: &Vec<char>) -> (b: (usize, usize))
    ensures
        b.0 <= b.1 <= v@.len(),
        trim_spec(v@) == v@.subrange(b.0 as int, b.1 as int),
{
    let n: usize = v.len();
    let mut lo: usize = 0;
    while lo < n && is_space(v[lo])
        invariant
            lo <= n,
            n == v@.len(),
            forall|j: int| 0 <= j < lo ==> is_space_char(v@[j]),
        decreases n - lo,
    {
        lo = lo + 1;
    }
    let mut hi: usize = n;
    while hi > lo && is_space(v[hi - 1])
        invariant
            lo <= hi <= n,
            n == v@.len(),
            forall|j: int| hi <= j < n ==> is_space_char(v@[j]),
        decreases hi,
    {
        hi = hi - 1;
    }
    proof {
        lemma_trim_front_is_skip(v@, lo as int);
        if hi == lo {
            lemma_trim_back_is_take(v@.skip(lo as int), 0);
        } else {
            lemma_trim_back_is_take(v@.skip(lo as int), hi - lo);
        }
        assert(v@.skip(lo as int).take(hi - lo) =~= v@.subrange(lo as int, hi as int));
    }
    (lo, hi)
}

/// The trimmed needle, as a fresh vector.
fn trimmed(v: &Vec<char>) -> (t: Vec<char>)
    ensures
        t@ == trim_spec(v@),
{
    let b: (usize, usize) = trim_bounds(v);
    let lo: usize = b.0;
    let hi: usize = b.1;
    let mut t: Vec<char> = Vec::new();
    let mut i: usize = lo;
    while i < hi
        invariant
            lo <= i <= hi <= v@.len(),
            t@ == v@.subrange(lo as int, i as int),
        decreases hi - i,
    {
        t.push(v[i]);
        proof {
            assert(v@.subrange(lo as int, i + 1 as int) =~= v@.subrange(lo as int, i as int).push(
                v@[i as int],
            ));
        }
        i = i + 1;
    }
    t
}

/// `t` occurs in `h` starting at position `i`.
pub open spec fn is_substring_at(h: Seq<char>, t: Seq<char>, i: int) -> bool {
    0 <= i && i + t.len() <= h.len() && h.subrange(i, i + t.len()) == t
}

/// `t` occurs somewhere in `h` as a contiguous run.
pub open spec fn has_substring(h: Seq<char>, t: Seq<char>) -> bool {
    exists|i: int| is_substring_at(h, t, i)
}

/// Whether `h` contains `t` as a contiguous run.
fn contains_sub(h: &Vec<char>, t: &Vec<char>) -> (r: bool)
    requires
        t@.len() > 0,
    ensures
        r == has_substring(h@, t@),
{
    let hl: usize = h.len();
    let tl: usize = t.len();
    if tl > hl {
        proof {
            assert(forall|i: int| !is_substring_at(h@, t@, i));
        }
        return false;
    }
    let mut i: usize = 0;
    while i <= hl - tl
        invariant
            1 <= tl <= hl,
            hl == h@.len(),
            tl == t@.len(),
            i <= hl - tl + 1,
            forall|k: int| 0 <= k < i ==> !is_substring_at(h@, t@, k),
        decreases hl - tl - i + 1,
    {
        let mut j: usize = 0;
        let mut ok: bool = true;
        while j < tl
            invariant
                tl <= hl,
                hl == h@.len(),
                tl == t@.len(),
                i <= hl - tl,
                j <= tl,
                ok ==> forall|m: int| 0 <= m < j ==> h@[i + m] == t@[m],
                !ok ==> !is_substring_at(h@, t@, i as int),
            decreases tl - j,
        {
            if h[i + j] != t[j] {
                proof {
                    assert(h@.subrange(i as int, i + tl) != t@) by {
                        assert(h@.subrange(i as int, i + tl)[j as int] != t@[j as int]);
                    }
                }
                ok = false;
                j = tl;
            } else {
                j = j + 1;
            }
        }
        if ok {
            proof {
                assert(h@.subrange(i as int, i + tl) =~= t@);
                assert(is_substring_at(h@, t@, i as int));
            }
            return true;
        }
        i = i + 1;
    }
    proof {
        assert forall|k: int| !is_substring_at(h@, t@, k) by {
            if 0 <= k && k + t@.len() <= h@.len() {
                assert(k < i);
            }
        }
    }
    false
}

/// The least index `j >= i` with `h[j] == c`, if any.
pub open spec fn find_from(h: Seq<char>, i: int, c: char) -> Option<int>
    recommends
        0 <= i,
    decreases h.len() - i,
{
    if i < 0 {
        None
    } else if i >= h.len() {
        None
    } else if h[i] == c {
        Some(i)
    } else {
        find_from(h, i + 1, c)
    }
}

proof fn lemma_find_from_skip(h: Seq<char>, i: int, j: int, c: char)
    requires
        0 <= i <= j <= h.len(),
        forall|m: int| i <= m < j ==> h[m] != c,
    ensures
        find_from(h, i, c) == find_from(h, j, c),
    decreases j - i,
{
    if i < j {
        lemma_find_from_skip(h, i + 1, j, c);
    }
}

proof fn lemma_find_from_props(h: Seq<char>, i: int, c: char)
    requires
        0 <= i,
    ensures
        match find_from(h, i, c) {
            Some(j) => i <= j < h.len() && h[j] == c && (forall|m: int| i <= m < j ==> h[m] != c),
            None => forall|m: int| i <= m < h.len() ==> h[m] != c,
        },
    decreases h.len() - i,
{
    if i < h.len() && h[i] != c {
        lemma_find_from_props(h, i + 1, c);
    }
}

/// Whether the previous character marks a word boundary before the current
/// one: a separator, or a lower-to-upper case change.
pub open spec fn is_boundary_pair(p: char, c: char) -> bool {
    p == ' ' || p == '_' || p == '-' || p == ':' || p == '/' || p == '(' || p == '[' || (
    0x61 <= p as u32 && p as u32 <= 0x7A && 0x41 <= c as u32 && c as u32 <= 0x5A)
}

fn boundary_pair(p: char, c: char) -> (r: bool)
    ensures
        r == is_boundary_pair(p, c),
{
    p == ' ' || p == '_' || p == '-' || p == ':' || p == '/' || p == '(' || p == '[' || (0x61
        <= p as u32 && p as u32 <= 0x7A && 0x41 <= c as u32 && c as u32 <= 0x5A)
}

/// A match at position `j` of `h` sits on a word boundary: the start of the
/// string, or a boundary pair with the character before it.
pub open spec fn word_boundary_at(h: Seq<char>, j: int) -> bool
    recommends
        0 <= j < h.len(),
{
    j == 0 || is_boundary_pair(h[j - 1], h[j])
}

/// Score contribution of matching needle character `k` at haystack position
/// `j`, when the previous needle character matched at `last`.
pub open spec fn step_score(h: Seq<char>, j: int, k: int, last: int) -> int {
    10 + (
    if k == 0 {
        0int
    } else if j == last + 1 {
        15int
    } else {
        -2 * (j - last - 1)
    }) + (
    if word_boundary_at(h, j) {
        20int
    } else {
        0int
    })
}

/// Total score of greedily matching `t[k..]` in `h` from position `from`,
/// the previous match having been at `last` (ignored when `k == 0`); `None`
/// when some character cannot be found.
pub open spec fn walk_score(h: Seq<char>, t: Seq<char>, k: int, from: int, last: int) -> Option<
    int,
>
    recommends
        0 <= k <= t.len(),
        0 <= from,
    decreases t.len() - k,
{
    if k < 0 || k >= t.len() {
        Some(0)
    } else {
        match find_from(h, from, t[k]) {
            None => None,
            Some(j) => match walk_score(h, t, k + 1, j + 1, j) {
                None => None,
                Some(rest) => Some(step_score(h, j, k, last) + rest),
            },
        }
    }
}

/// The subsequence score: the greedy walk total, reduced by the index of the
/// first matched character.
pub open spec fn subsequence_score(h: Seq<char>, t: Seq<char>) -> Option<int>
    recommends
        t.len() > 0,
{
    match find_from(h, 0, t[0]) {
        None => None,
        Some(f) => match walk_score(h, t, 0, 0, 0) {
            None => None,
            Some(sc) => Some(sc - f),
        },
    }
}

/// The length of `s` in UTF-8 bytes: what `str::len` returns for a string
/// with these characters.
pub open spec fn byte_len(s: Seq<char>) -> int {
    encode_utf8(s).len() as int
}

proof fn lemma_encode_utf8_concat(a: Seq<char>, b: Seq<char>)
    ensures
        encode_utf8(a + b) == encode_utf8(a) + encode_utf8(b),
    decreases a.len(),
{
    if a.len() == 0 {
        assert(a + b =~= b);
        assert(encode_utf8(a) + encode_utf8(b) =~= encode_utf8(b));
    } else {
        assert((a + b).drop_first() =~= a.drop_first() + b);
        lemma_encode_utf8_concat(a.drop_first(), b);
        assert((a + b)[0] == a[0]);
        assert(encode_utf8(a + b) =~= encode_utf8(a) + encode_utf8(b));
    }
}

/// Every character encodes to between one and four bytes.
proof fn lemma_byte_len_bounds(s: Seq<char>)
    ensures
        s.len() <= byte_len(s) <= 4 * s.len(),
    decreases s.len(),
{
    if s.len() > 0 {
        lemma_byte_len_bounds(s.drop_first());
        assert(1 <= encode_scalar(s[0] as u32).len() <= 4);
    }
}

/// Counts the UTF-8 bytes of the characters in `v`.
fn byte_count(v: &Vec<char>) -> (r: u128)
    ensures
        r as int == byte_len(v@),
{
    proof {
        assert(v@.take(0) =~= Seq::<char>::empty());
    }
    let mut r: u128 = 0;
    let mut i: usize = 0;
    while i < v.len()
        invariant
            i <= v@.len(),
            r as int == byte_len(v@.take(i as int)),
            r as int <= 4 * (i as int),
        decreases v@.len() - i,
    {
        let c: char = v[i];
        let u: u32 = c as u32;
        let w: u128 = if u < 0x80 {
            1
        } else if u < 0x800 {
            2
        } else if u < 0x10000 {
            3
        } else {
            4
        };
        proof {
            char_is_scalar(c);
            assert(w as int == encode_scalar(c as u32).len());
            assert(v@.take(i + 1 as int) =~= v@.take(i as int) + seq![c]);
            lemma_encode_utf8_concat(v@.take(i as int), seq![c]);
            assert(seq![c].drop_first() =~= Seq::<char>::empty());
            assert(encode_utf8(Seq::<char>::empty()) =~= Seq::<u8>::empty());
            assert(encode_utf8(seq![c]) =~= encode_scalar(c as u32));
        }
        r = r + w;
        i = i + 1;
    }
    proof {
        assert(v@.take(v@.len() as int) =~= v@);
    }
    r
}

/// A contiguous run of a string is no longer than the string, in bytes.
proof fn lemma_substring_byte_len(h: Seq<char>, t: Seq<char>)
    requires
        has_substring(h, t),
    ensures
        byte_len(t) <= byte_len(h),
{
    let i = choose|i: int| is_substring_at(h, t, i);
    assert(h =~= h.take(i) + t + h.skip(i + t.len()));
    lemma_encode_utf8_concat(h.take(i) + t, h.skip(i + t.len()));
    lemma_encode_utf8_concat(h.take(i), t);
}

/// The full scoring function over character sequences: trim the needle,
/// prefer a verbatim occurrence (scored by how many UTF-8 bytes longer the
/// haystack is), otherwise fall back to the subsequence walk.
pub open spec fn fuzzy_spec(h: Seq<char>, n: Seq<char>) -> Option<int> {
    let t = trim_spec(n);
    if t.len() == 0 {
        None
    } else if has_substring(h, t) {
        Some(1_000_000 - (byte_len(h) - byte_len(t)))
    } else {
        subsequence_score(h, t)
    }
}

/// `x` clamped into the value range of `i64`.
pub open spec fn clamp_i64(x: int) -> int {
    if x < i64::MIN {
        i64::MIN as int
    } else if x > i64::MAX {
        i64::MAX as int
    } else {
        x
    }
}

fn clamp_to_i64(x: i128) -> (r: i64)
    ensures
        r as int == clamp_i64(x as int),
{
    if x < i64::MIN as i128 {
        i64::MIN
    } else if x > i64::MAX as i128 {
        i64::MAX
    } else {
        x as i64
    }
}

/// Scores `needle` against `haystack`; `None` when they do not match. The
/// result is the mathematical score of `fuzzy_spec`, clamped into `i64` (the
/// clamp can only act on strings of around a million characters or more).
/// The verbatim-occurrence branch subtracts the difference of the UTF-8
/// byte lengths, as `str::len` measures them.
pub fn fuzzy_score(haystack: &str, needle: &str) -> (r: Option<i64>)
    ensures
        r is Some <==> fuzzy_spec(haystack@, needle@) is Some,
        r is Some ==> r->0 as int == clamp_i64(fuzzy_spec(haystack@, needle@)->0),
{
    let h: Vec<char> = chars_of(haystack);
    let n: Vec<char> = chars_of(needle);
    let t: Vec<char> = trimmed(&n);
    let hl: usize = h.len();
    let tl: usize = t.len();
    if tl == 0 {
        return None;
    }
    if contains_sub(&h, &t) {
        let hay_bytes: u128 = byte_count(&h);
        let needle_bytes: u128 = byte_count(&t);
        proof {
            lemma_byte_len_bounds(h@);
            lemma_byte_len_bounds(t@);
        }
        let diff: i128 = hay_bytes as i128 - needle_bytes as i128;
        let sc: i128 = 1_000_000i128 - diff;
        return Some(clamp_to_i64(sc));
    }
    let mut k: usize = 0;
    let mut from: usize = 0;
    let mut last: usize = 0;
    let mut first: usize = 0;
    let mut acc: i128 = 0;
    while k < tl
        invariant
            k <= tl,
            tl == t@.len(),
            tl > 0,
            hl == h@.len(),
            h@ == haystack@,
            t@ == trim_spec(needle@),
            !has_substring(h@, t@),
            from <= hl,
            k > 0 ==> from == last + 1 && last < hl,
            k == 0 ==> from == 0 && last == 0,
            k > 0 ==> find_from(h@, 0, t@[0]) == Some(first as int) && first < hl,
            walk_score(h@, t@, 0, 0, 0) == match walk_score(
                h@,
                t@,
                k as int,
                from as int,
                last as int,
            ) {
                None => None::<int>,
                Some(rest) => Some(acc as int + rest),
            },
            acc <= 45 * k,
            acc >= 10 * (k as int) - 2 * (from as int),
        decreases tl - k,
    {
        let c: char = t[k];
        let mut j: usize = from;
        while j < hl && h[j] != c
            invariant
                from <= j <= hl,
                hl == h@.len(),
                forall|m: int| from <= m < j ==> h@[m] != c,
            decreases hl - j,
        {
            j = j + 1;
        }
        proof {
            lemma_find_from_skip(h@, from as int, j as int, c);
        }
        if j == hl {
            proof {
                assert(find_from(h@, j as int, c) is None);
                assert(t@[k as int] == c);
                assert(walk_score(h@, t@, k as int, from as int, last as int) is None);
                assert(walk_score(h@, t@, 0, 0, 0) is None);
                assert(subsequence_score(h@, t@) is None);
                assert(fuzzy_spec(haystack@, needle@) == subsequence_score(h@, t@));
            }
            return None;
        }
        proof {
            assert(find_from(h@, j as int, c) == Some(j as int));
            assert(find_from(h@, from as int, c) == Some(j as int));
        }
        let mut add: i128 = 10;
        if k > 0 {
            if j == last + 1 {
                add = add + 15;
            } else {
                add = add - 2 * ((j - last - 1) as i128);
            }
        }
        let bdry: bool = if j == 0 {
            true
        } else {
            boundary_pair(h[j - 1], c)
        };
        if bdry {
            add = add + 20;
        }
        proof {
            assert(h@[j as int] == c);
            assert(add as int == step_score(h@, j as int, k as int, last as int));
        }
        acc = acc + add;
        if k == 0 {
            first = j;
        }
        from = j + 1;
        last = j;
        k = k + 1;
    }
    proof {
        assert(walk_score(h@, t@, tl as int, from as int, last as int) == Some(0int));
        assert(walk_score(h@, t@, 0, 0, 0) == Some(acc as int));
        assert(subsequence_score(h@, t@) == Some(acc as int - first as int));
    }
    let res: i128 = acc - first as i128;
    Some(clamp_to_i64(res))
}

/// Whether `s` trims to nothing: it is empty or whitespace only.
pub fn str_trim_blank(s: &str) -> (r: bool)
    ensures
        r == (trim_spec(s@).len() == 0),
{
    let v: Vec<char> = chars_of(s);
    let t: Vec<char> = trimmed(&v);
    t.len() == 0
}

/// No walk step is worth more than 45 points.
proof fn lemma_walk_score_upper(h: Seq<char>, t: Seq<char>, k: int, from: int, last: int)
    requires
        0 <= k <= t.len(),
        0 <= from,
        k == 0 || from == last + 1,
        walk_score(h, t, k, from, last) is Some,
    ensures
        walk_score(h, t, k, from, last)->0 <= 45 * (t.len() - k),
    decreases t.len() - k,
{
    if k < t.len() {
        lemma_find_from_props(h, from, t[k]);
        let j = find_from(h, from, t[k])->0;
        lemma_walk_score_upper(h, t, k + 1, j + 1, j);
    }
}

/// A verbatim occurrence always outscores a scattered subsequence match of
/// the same needle, provided the containing haystack is not absurdly long
/// (its byte length, plus 44 times the needle's character count, must stay
/// under one million).
pub proof fn lemma_substring_outscores_subsequence(h1: Seq<char>, h2: Seq<char>, n: Seq<char>)
    requires
        trim_spec(n).len() > 0,
        has_substring(h1, trim_spec(n)),
        !has_substring(h2, trim_spec(n)),
        fuzzy_spec(h2, n) is Some,
        byte_len(h1) + 44 * trim_spec(n).len() < 1_000_000,
    ensures
        fuzzy_spec(h1, n) is Some,
        fuzzy_spec(h1, n)->0 > fuzzy_spec(h2, n)->0,
{
    let t = trim_spec(n);
    lemma_substring_byte_len(h1, t);
    lemma_byte_len_bounds(t);
    assert(fuzzy_spec(h2, n) == subsequence_score(h2, t));
    lemma_find_from_props(h2, 0, t[0]);
    let f = find_from(h2, 0, t[0])->0;
    lemma_walk_score_upper(h2, t, 0, 0, 0);
}

/// A blank needle (empty, or whitespace only) never matches anything.
pub proof fn lemma_blank_needle_never_matches(h: Seq<char>, n: Seq<char>)
    requires
        trim_spec(n).len() == 0,
    ensures
        fuzzy_spec(h, n) is None,
{
}

} // verus!
