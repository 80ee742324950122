//! Character-level string helpers with exact contracts.
//!
//! All positions here are character positions in the string's view
//! (`Seq<char>`), not byte offsets.

use vstd::prelude::*;

verus! {

/// `p` occurs in `s` starting at character position `k`.
pub open spec fn occurs_at(s: Seq<char>, p: Seq<char>, k: int) -> bool {
    0 <= k && k + p.len() <= s.len() && s.subrange(k, k + p.len()) == p
}

/// `k` is the position of the first occurrence of `p` in `s`.
pub open spec fn is_first_occurrence(s: Seq<char>, p: Seq<char>, k: int) -> bool {
    occurs_at(s, p, k) && forall|j: int| 0 <= j < k ==> !occurs_at(s, p, j)
}

/// `k` is the position of the last occurrence of `p` in `s`.
pub open spec fn is_last_occurrence(s: Seq<char>, p: Seq<char>, k: int) -> bool {
    occurs_at(s, p, k) && forall|j: int| k < j ==> !occurs_at(s, p, j)
}

/// Position of the first occurrence of `p` in `s`, if there is one.
pub open spec fn find_spec(s: Seq<char>, p: Seq<char>) -> Option<int> {
    if exists|k: int| occurs_at(s, p, k) {
        Some(choose|k: int| is_first_occurrence(s, p, k))
    } else {
        None
    }
}

/// Position of the last occurrence of `p` in `s`, if there is one.
pub open spec fn rfind_spec(s: Seq<char>, p: Seq<char>) -> Option<int> {
    if exists|k: int| occurs_at(s, p, k) {
        Some(choose|k: int| is_last_occurrence(s, p, k))
    } else {
        None
    }
}

/// The first occurrence, once found, is what `find_spec` names.
pub proof fn lemma_find_spec_first(s: Seq<char>, p: Seq<char>, k: int)
    requires
        is_first_occurrence(s, p, k),
    ensures
        find_spec(s, p) == Some(k),
{
    assert(occurs_at(s, p, k));
    let c = choose|c: int| is_first_occurrence(s, p, c);
    assert(is_first_occurrence(s, p, c));
    if c < k {
        assert(!occurs_at(s, p, c));
    } else if c > k {
        assert(!occurs_at(s, p, k));
    }
}

/// The last occurrence, once found, is what `rfind_spec` names.
pub proof fn lemma_rfind_spec_last(s: Seq<char>, p: Seq<char>, k: int)
    requires
        is_last_occurrence(s, p, k),
    ensures
        rfind_spec(s, p) == Some(k),
{
    assert(occurs_at(s, p, k));
    let c = choose|c: int| is_last_occurrence(s, p, c);
    assert(is_last_occurrence(s, p, c));
    if c < k {
        assert(!occurs_at(s, p, k));
    } else if c > k {
        assert(!occurs_at(s, p, c));
    }
}

/// Where `p` occurs in `s`, it occurs first somewhere.
pub proof fn lemma_first_occurrence_exists(s: Seq<char>, p: Seq<char>, k: int)
    requires
        occurs_at(s, p, k),
    ensures
        exists|j: int| is_first_occurrence(s, p, j),
    decreases k,
{
    if exists|j: int| 0 <= j < k && occurs_at(s, p, j) {
        let j = choose|j: int| 0 <= j < k && occurs_at(s, p, j);
        lemma_first_occurrence_exists(s, p, j);
    } else {
        assert(is_first_occurrence(s, p, k));
    }
}

/// Where `p` occurs in `s`, it occurs last somewhere.
pub proof fn lemma_last_occurrence_exists(s: Seq<char>, p: Seq<char>, k: int)
    requires
        occurs_at(s, p, k),
    ensures
        exists|j: int| is_last_occurrence(s, p, j),
    decreases s.len() - k,
{
    if exists|j: int| k < j && occurs_at(s, p, j) {
        let j = choose|j: int| k < j && occurs_at(s, p, j);
        lemma_last_occurrence_exists(s, p, j);
    } else {
        assert(is_last_occurrence(s, p, k));
    }
}

/// What `find_spec` names is the first occurrence, or there is none.
pub proof fn lemma_find_spec(s: Seq<char>, p: Seq<char>)
    ensures
        match find_spec(s, p) {
            Some(k) => is_first_occurrence(s, p, k),
            None => forall|k: int| !occurs_at(s, p, k),
        },
{
    if exists|k: int| occurs_at(s, p, k) {
        let k = choose|k: int| occurs_at(s, p, k);
        lemma_first_occurrence_exists(s, p, k);
    }
}

/// What `rfind_spec` names is the last occurrence, or there is none.
pub proof fn lemma_rfind_spec(s: Seq<char>, p: Seq<char>)
    ensures
        match rfind_spec(s, p) {
            Some(k) => is_last_occurrence(s, p, k),
            None => forall|k: int| !occurs_at(s, p, k),
        },
{
    if exists|k: int| occurs_at(s, p, k) {
        let k = choose|k: int| occurs_at(s, p, k);
        lemma_last_occurrence_exists(s, p, k);
    }
}

/// `s` with `p` removed from its front, when `s` starts with `p`.
pub open spec fn strip_prefix_spec(s: Seq<char>, p: Seq<char>) -> Option<Seq<char>> {
    if p.is_prefix_of(s) {
        Some(s.skip(p.len() as int))
    } else {
        None
    }
}

/// Whether two strings hold the same characters.
pub fn str_eq(a: &str, b: &str) -> (r: bool)
    ensures
        r == (a@ == b@),
{
    let n = a.unicode_len();
    let m = b.unicode_len();
    if n != m {
        return false;
    }
    let mut i: usize = 0;
    while i < n
        invariant
            n == a@.len(),
            m == b@.len(),
            n == m,
            i <= n,
            forall|j: int| 0 <= j < i ==> a@[j] == b@[j],
        decreases n - i,
    {
        if a.get_char(i) != b.get_char(i) {
            return false;
        }
        i = i + 1;
    }
    assert(a@ =~= b@);
    true
}

/// Whether `p` occurs in `s` at character position `k`.
fn matches_at(s: &str, n: usize, p: &str, m: usize, k: usize) -> (r: bool)
    requires
        n == s@.len(),
        m == p@.len(),
        k + m <= n,
    ensures
        r == occurs_at(s@, p@, k as int),
{
    let mut j: usize = 0;
    while j < m
        invariant
            n == s@.len(),
            m == p@.len(),
            k + m <= n,
            j <= m,
            forall|i: int| 0 <= i < j ==> s@[k + i] == p@[i],
        decreases m - j,
    {
        if s.get_char(k + j) != p.get_char(j) {
            assert(s@.subrange(k as int, k + m)[j as int] != p@[j as int]);
            return false;
        }
        j = j + 1;
    }
    assert(s@.subrange(k as int, k + m) =~= p@);
    true
}

/// Whether `s` starts with `p`.
pub fn starts_with(s: &str, p: &str) -> (r: bool)
    ensures
        r == p@.is_prefix_of(s@),
{
    let n = s.unicode_len();
    let m = p.unicode_len();
    if m > n {
        return false;
    }
    let r = matches_at(s, n, p, m, 0);
    assert(s@.subrange(0, m as int) == s@.subrange(0, 0 + m));
    r
}

/// `s` without its prefix `p`, or `None` when `s` does not start with `p`.
pub fn strip_prefix<'a>(s: &'a str, p: &str) -> (r: Option<&'a str>)
    ensures
        match r {
            Some(t) => strip_prefix_spec(s@, p@) == Some(t@),
            None => strip_prefix_spec(s@, p@) is None,
        },
{
    if starts_with(s, p) {
        let n = s.unicode_len();
        let m = p.unicode_len();
        let t = s.substring_char(m, n);
        assert(t@ =~= s@.skip(m as int));
        Some(t)
    } else {
        None
    }
}

/// Character position of the first occurrence of `p` in `s`.
pub fn find(s: &str, p: &str) -> (r: Option<usize>)
    ensures
        match r {
            Some(k) => find_spec(s@, p@) == Some(k as int),
            None => find_spec(s@, p@) is None,
        },
{
    let n = s.unicode_len();
    let m = p.unicode_len();
    if m > n {
        assert forall|k: int| !occurs_at(s@, p@, k) by {}
        return None;
    }
    if m == 0 {
        assert(s@.subrange(0, 0) =~= p@);
        proof {
            lemma_find_spec_first(s@, p@, 0);
        }
        return Some(0);
    }
    let mut k: usize = 0;
    while k <= n - m
        invariant
            n == s@.len(),
            m == p@.len(),
            0 < m <= n,
            k <= n - m + 1,
            forall|j: int| 0 <= j < k ==> !occurs_at(s@, p@, j),
        decreases n - m + 1 - k,
    {
        if matches_at(s, n, p, m, k) {
            proof {
                lemma_find_spec_first(s@, p@, k as int);
            }
            return Some(k);
        }
        k = k + 1;
    }
    assert forall|j: int| !occurs_at(s@, p@, j) by {
        if 0 <= j && j < k {
        }
    }
    None
}

/// Character position of the last occurrence of `c` in `s`.
pub fn rfind_char(s: &str, c: char) -> (r: Option<usize>)
    ensures
        match r {
            Some(k) => rfind_spec(s@, seq![c]) == Some(k as int),
            None => rfind_spec(s@, seq![c]) is None,
        },
{
    let n = s.unicode_len();
    let mut k: usize = n;
    while k > 0
        invariant
            n == s@.len(),
            k <= n,
            forall|j: int| k <= j ==> !occurs_at(s@, seq![c], j),
        decreases k,
    {
        if s.get_char(k - 1) == c {
            assert(s@.subrange(k - 1, k - 1 + 1) =~= seq![c]);
            proof {
                lemma_rfind_spec_last(s@, seq![c], k - 1);
            }
            return Some(k - 1);
        }
        assert(s@.subrange(k - 1, k - 1 + 1)[0] == s@[k - 1]);
        k = k - 1;
    }
    None
}

/// Character position of the first occurrence of `c` in `s`.
pub fn find_char(s: &str, c: char) -> (r: Option<usize>)
    ensures
        match r {
            Some(k) => find_spec(s@, seq![c]) == Some(k as int),
            None => find_spec(s@, seq![c]) is None,
        },
{
    let n = s.unicode_len();
    let mut k: usize = 0;
    while k < n
        invariant
            n == s@.len(),
            k <= n,
            forall|j: int| j < k ==> !occurs_at(s@, seq![c], j),
        decreases n - k,
    {
        if s.get_char(k) == c {
            assert(s@.subrange(k as int, k + 1) =~= seq![c]);
            proof {
                lemma_find_spec_first(s@, seq![c], k as int);
            }
            return Some(k);
        }
        assert(s@.subrange(k as int, k + 1)[0] == s@[k as int]);
        k = k + 1;
    }
    None
}

/// A character with Unicode's `White_Space` property, which is what
/// `char::is_whitespace` decides.
pub open spec fn is_whitespace(c: char) -> bool {
    ||| c == ' '
    ||| ('\t' <= c && c <= '\r')
    ||| c == '\u{85}'
    ||| c == '\u{a0}'
    ||| c == '\u{1680}'
    ||| ('\u{2000}' <= c && c <= '\u{200a}')
    ||| c == '\u{2028}'
    ||| c == '\u{2029}'
    ||| c == '\u{202f}'
    ||| c == '\u{205f}'
    ||| c == '\u{3000}'
}

/// `s` without its leading whitespace.
pub open spec fn trim_start_spec(s: Seq<char>) -> Seq<char>
    decreases s.len(),
{
    if s.len() > 0 && is_whitespace(s[0]) {
        trim_start_spec(s.drop_first())
    } else {
        s
    }
}

/// `s` without its trailing whitespace.
pub open spec fn trim_end_spec(s: Seq<char>) -> Seq<char>
    decreases s.len(),
{
    if s.len() > 0 && is_whitespace(s.last()) {
        trim_end_spec(s.drop_last())
    } else {
        s
    }
}

/// `s` without leading and trailing whitespace, as `str::trim` gives it.
pub open spec fn trim_spec(s: Seq<char>) -> Seq<char> {
    trim_end_spec(trim_start_spec(s))
}

fn is_whitespace_char(c: char) -> (r: bool)
    ensures
        r == is_whitespace(c),
{
    c == ' ' || ('\t' <= c && c <= '\r') || c == '\u{85}' || c == '\u{a0}' || c == '\u{1680}'
        || ('\u{2000}' <= c && c <= '\u{200a}') || c == '\u{2028}' || c == '\u{2029}'
        || c == '\u{202f}' || c == '\u{205f}' || c == '\u{3000}'
}

/// `s` without leading and trailing whitespace.
pub fn trim(s: &str) -> (r: &str)
    ensures
        r@ == trim_spec(s@),
{
    let n = s.unicode_len();
    let mut lo: usize = 0;
    assert(s@.skip(0) =~= s@);
    while lo < n && is_whitespace_char(s.get_char(lo))
        invariant
            n == s@.len(),
            lo <= n,
            trim_start_spec(s@) == trim_start_spec(s@.skip(lo as int)),
        decreases n - lo,
    {
        assert(s@.skip(lo as int).drop_first() =~= s@.skip(lo + 1));
        lo = lo + 1;
    }
    assert(trim_start_spec(s@) == s@.skip(lo as int)) by {
        if lo == n {
            assert(s@.skip(lo as int) =~= Seq::<char>::empty());
        }
    }
    let mut hi: usize = n;
    while hi > lo && is_whitespace_char(s.get_char(hi - 1))
        invariant
            n == s@.len(),
            lo <= hi <= n,
            trim_spec(s@) == trim_end_spec(s@.subrange(lo as int, hi as int)),
        decreases hi,
    {
        assert(s@.subrange(lo as int, hi as int).drop_last() =~= s@.subrange(lo as int, hi - 1));
        hi = hi - 1;
    }
    let r = s.substring_char(lo, hi);
    r
}

/// Trimming the front drops some leading characters and leaves the result
/// empty or starting with a non-whitespace character.
pub proof fn lemma_trim_start_shape(s: Seq<char>)
    ensures
        exists|k: int|
            0 <= k <= s.len() && trim_start_spec(s) == s.skip(k) && forall|i: int|
                0 <= i < k ==> is_whitespace(#[trigger] s[i]),
        trim_start_spec(s).len() == 0 || !is_whitespace(trim_start_spec(s)[0]),
    decreases s.len(),
{
    if s.len() > 0 && is_whitespace(s[0]) {
        let t = s.drop_first();
        lemma_trim_start_shape(t);
        let k = choose|k: int|
            0 <= k <= t.len() && trim_start_spec(t) == t.skip(k) && forall|i: int|
                0 <= i < k ==> is_whitespace(#[trigger] t[i]);
        assert(t.skip(k) =~= s.skip(k + 1));
        assert forall|i: int| 0 <= i < k + 1 implies is_whitespace(#[trigger] s[i]) by {
            if i > 0 {
                assert(s[i] == t[i - 1]);
            }
        }
    } else {
        assert(s.skip(0) =~= s);
    }
}

/// Trimming the end keeps a prefix and leaves the result empty or ending
/// with a non-whitespace character.
pub proof fn lemma_trim_end_shape(s: Seq<char>)
    ensures
        exists|k: int|
            0 <= k <= s.len() && trim_end_spec(s) == s.take(k) && forall|i: int|
                k <= i < s.len() ==> is_whitespace(#[trigger] s[i]),
        trim_end_spec(s).len() == 0 || !is_whitespace(trim_end_spec(s).last()),
    decreases s.len(),
{
    if s.len() > 0 && is_whitespace(s.last()) {
        let t = s.drop_last();
        lemma_trim_end_shape(t);
        let k = choose|k: int|
            0 <= k <= t.len() && trim_end_spec(t) == t.take(k) && forall|i: int|
                k <= i < t.len() ==> is_whitespace(#[trigger] t[i]);
        assert(t.take(k) =~= s.take(k));
        assert forall|i: int| k <= i < s.len() implies is_whitespace(#[trigger] s[i]) by {
            if i < s.len() - 1 {
                assert(s[i] == t[i]);
            }
        }
    } else {
        assert(s.take(s.len() as int) =~= s);
    }
}

/// Trimming a trimmed string changes nothing.
pub proof fn lemma_trim_idempotent(s: Seq<char>)
    ensures
        trim_spec(trim_spec(s)) == trim_spec(s),
{
    let a = trim_start_spec(s);
    lemma_trim_start_shape(s);
    lemma_trim_end_shape(a);
    let b = trim_end_spec(a);
    let m = choose|k: int|
        0 <= k <= a.len() && trim_end_spec(a) == a.take(k) && forall|i: int|
            k <= i < a.len() ==> is_whitespace(#[trigger] a[i]);
    if b.len() > 0 {
        assert(b[0] == a[0]);
    }
    assert(trim_start_spec(b) == b);
}

} // verus!
