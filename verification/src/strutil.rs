//! Verified string helpers shared by the keyed stores and the parsers.

use vstd::prelude::*;
use vstd::string::StrSliceExecFns;

verus! {

/// Character-wise string equality, proved against the views.
pub fn str_eq(a: &str, b: &str) -> (r: bool)
    ensures
        r == (a@ == b@),
{
    let n = a.unicode_len();
    let m = b.unicode_len();
    if n != m {
        return false;
    }
    let mut i: usize = 0;
    while i < n
        invariant
            0 <= i <= n,
            n == a@.len(),
            n == b@.len(),
            forall|j: int| 0 <= j < i ==> a@[j] == b@[j],
        decreases n - i,
    {
        if a.get_char(i) != b.get_char(i) {
            return false;
        }
        i = i + 1;
    }
    proof {
        assert(a@ =~= b@);
    }
    true
}

/// Index of the first occurrence of `c`, or `-1` if there is none.
pub open spec fn first_in(s: Seq<char>, c: char) -> int
    decreases s.len(),
{
    if s.len() == 0 {
        -1
    } else if s[0] == c {
        0
    } else {
        let r = first_in(s.drop_first(), c);
        if r < 0 {
            -1
        } else {
            r + 1
        }
    }
}

proof fn lemma_first_in_at(s: Seq<char>, c: char, i: int)
    requires
        0 <= i < s.len(),
        forall|a: int| 0 <= a < i ==> s[a] != c,
        s[i] == c,
    ensures
        first_in(s, c) == i,
    decreases i,
{
    if i > 0 {
        let t = s.drop_first();
        assert(forall|a: int| 0 <= a < i - 1 ==> t[a] == s[a + 1]);
        assert(t[i - 1] == s[i]);
        lemma_first_in_at(t, c, i - 1);
    }
}

proof fn lemma_first_in_none(s: Seq<char>, c: char)
    requires
        forall|a: int| 0 <= a < s.len() ==> s[a] != c,
    ensures
        first_in(s, c) < 0,
    decreases s.len(),
{
    if s.len() > 0 {
        let t = s.drop_first();
        assert(forall|a: int| 0 <= a < t.len() ==> t[a] == s[a + 1]);
        lemma_first_in_none(t, c);
    }
}

/// Index of the first occurrence of `c` in `s`, or the length if none.
pub fn find_char(s: &str, c: char) -> (r: usize)
    ensures
        r <= s@.len(),
        r == s@.len() ==> first_in(s@, c) < 0,
        r < s@.len() ==> first_in(s@, c) == r && s@[r as int] == c,
{
    let n = s.unicode_len();
    let mut j: usize = 0;
    while j < n
        invariant
            0 <= j <= n,
            n == s@.len(),
            forall|a: int| 0 <= a < j ==> s@[a] != c,
        decreases n - j,
    {
        if s.get_char(j) == c {
            proof {
                lemma_first_in_at(s@, c, j as int);
            }
            return j;
        }
        j = j + 1;
    }
    proof {
        lemma_first_in_none(s@, c);
    }
    n
}

/// ASCII whitespace, the blank characters a trimmed symbol may not keep.
pub open spec fn is_blank(c: char) -> bool {
    (c as u32) == 32 || (9 <= (c as u32) && (c as u32) <= 13)
}

/// `s` without its leading blanks.
pub open spec fn trim_front(s: Seq<char>) -> Seq<char>
    decreases s.len(),
{
    if s.len() > 0 && is_blank(s[0]) {
        trim_front(s.drop_first())
    } else {
        s
    }
}

/// `s` without its trailing blanks.
pub open spec fn trim_back(s: Seq<char>) -> Seq<char>
    decreases s.len(),
{
    if s.len() > 0 && is_blank(s.last()) {
        trim_back(s.drop_last())
    } else {
        s
    }
}

/// `s` without leading or trailing blanks.
pub open spec fn trim_seq(s: Seq<char>) -> Seq<char> {
    trim_back(trim_front(s))
}

proof fn lemma_trim_front_at(s: Seq<char>, k: int)
    requires
        0 <= k < s.len(),
        forall|j: int| 0 <= j < k ==> is_blank(#[trigger] s[j]),
        !is_blank(s[k]),
    ensures
        trim_front(s) == s.subrange(k, s.len() as int),
    decreases k,
{
    if k == 0 {
        assert(s.subrange(0, s.len() as int) =~= s);
    } else {
        let t = s.drop_first();
        assert(forall|j: int| 0 <= j < k - 1 ==> is_blank(#[trigger] t[j]));
        assert(t[k - 1] == s[k]);
        lemma_trim_front_at(t, k - 1);
        assert(t.subrange(k - 1, t.len() as int) =~= s.subrange(k, s.len() as int));
    }
}

proof fn lemma_trim_front_all(s: Seq<char>)
    requires
        forall|j: int| 0 <= j < s.len() ==> is_blank(#[trigger] s[j]),
    ensures
        trim_front(s).len() == 0,
    decreases s.len(),
{
    if s.len() > 0 {
        let t = s.drop_first();
        assert(forall|j: int| 0 <= j < t.len() ==> is_blank(#[trigger] t[j]));
        lemma_trim_front_all(t);
    }
}

proof fn lemma_trim_back_at(s: Seq<char>, m: int)
    requires
        0 <= m < s.len(),
        forall|j: int| m < j < s.len() ==> is_blank(#[trigger] s[j]),
        !is_blank(s[m]),
    ensures
        trim_back(s) == s.subrange(0, m + 1),
    decreases s.len(),
{
    if m == s.len() - 1 {
        assert(s.subrange(0, m + 1) =~= s);
    } else {
        let t = s.drop_last();
        assert(forall|j: int| m < j < t.len() ==> is_blank(#[trigger] t[j]));
        assert(t[m] == s[m]);
        lemma_trim_back_at(t, m);
        assert(t.subrange(0, m + 1) =~= s.subrange(0, m + 1));
    }
}

/// Index of the first non-blank character, or the length if all blank.
fn first_solid(s: &str) -> (lo: usize)
    ensures
        lo <= s@.len(),
        forall|j: int| 0 <= j < lo ==> is_blank(#[trigger] s@[j]),
        lo < s@.len() ==> !is_blank(s@[lo as int]),
{
    let n = s.unicode_len();
    let mut lo: usize = 0;
    while lo < n
        invariant
            0 <= lo <= n,
            n == s@.len(),
            forall|j: int| 0 <= j < lo ==> is_blank(#[trigger] s@[j]),
        decreases n - lo,
    {
        if !is_blank_char(s.get_char(lo)) {
            return lo;
        }
        lo = lo + 1;
    }
    n
}

/// One past the last non-blank character at or after `lo`.
fn last_solid_end(s: &str, lo: usize) -> (hi: usize)
    requires
        lo < s@.len(),
        !is_blank(s@[lo as int]),
    ensures
        lo < hi <= s@.len(),
        forall|j: int| hi <= j < s@.len() ==> is_blank(#[trigger] s@[j]),
        !is_blank(s@[hi - 1]),
{
    let n = s.unicode_len();
    let mut hi: usize = n;
    while hi > lo
        invariant
            lo <= hi <= n,
            n == s@.len(),
            !is_blank(s@[lo as int]),
            lo < n,
            forall|j: int| hi <= j < n ==> is_blank(#[trigger] s@[j]),
        decreases hi,
    {
        if !is_blank_char(s.get_char(hi - 1)) {
            return hi;
        }
        hi = hi - 1;
    }
    proof {
        assert(is_blank(s@[lo as int]));
    }
    vstd::pervasive::unreached()
}

/// Trim leading and trailing blanks off a string.
pub fn trim_str(s: &str) -> (r: String)
    ensures
        r@ == trim_seq(s@),
{
    let n = s.unicode_len();
    let lo = first_solid(s);
    if lo == n {
        proof {
            lemma_trim_front_all(s@);
        }
        return String::new();
    }
    let hi = last_solid_end(s, lo);
    proof {
        lemma_trim_front_at(s@, lo as int);
        let t = s@.subrange(lo as int, n as int);
        assert(t[hi - 1 - lo] == s@[hi - 1]);
        assert(forall|j: int| hi - lo - 1 < j < t.len() ==> is_blank(#[trigger] t[j]));
        lemma_trim_back_at(t, hi - 1 - lo);
        assert(t.subrange(0, hi - lo) =~= s@.subrange(lo as int, hi as int));
    }
    s.substring_char(lo, hi).to_owned()
}

/// One character's blankness, decided at run time.
fn is_blank_char(c: char) -> (r: bool)
    ensures
        r == is_blank(c),
{
    c == ' ' || (c as u32 >= 9 && c as u32 <= 13)
}

/// Whether `s` begins with `prefix`, character for character.
pub fn starts_with_str(s: &str, prefix: &str) -> (r: bool)
    ensures
        r == (prefix@.len() <= s@.len() && s@.subrange(0, prefix@.len() as int) == prefix@),
{
    let n = s.unicode_len();
    let m = prefix.unicode_len();
    if m > n {
        proof {
            assert(!(prefix@.len() <= s@.len()));
        }
        return false;
    }
    let mut i: usize = 0;
    while i < m
        invariant
            0 <= i <= m,
            m <= n,
            n == s@.len(),
            m == prefix@.len(),
            forall|j: int| 0 <= j < i ==> s@[j] == prefix@[j],
        decreases m - i,
    {
        if s.get_char(i) != prefix.get_char(i) {
            proof {
                assert(s@.subrange(0, m as int)[i as int] != prefix@[i as int]);
            }
            return false;
        }
        i = i + 1;
    }
    proof {
        assert(s@.subrange(0, m as int) =~= prefix@);
    }
    true
}

} // verus!
