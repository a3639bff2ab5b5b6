//! Character-level text helpers shared by the wire-name grammars.

use vstd::prelude::*;

verus! {

/// `lit` occurs in `s` starting at index `at`.
pub open spec fn match_at(s: Seq<char>, at: int, lit: Seq<char>) -> bool {
    &&& 0 <= at
    &&& at + lit.len() <= s.len()
    &&& forall|j: int| 0 <= j < lit.len() ==> s[at + j] == #[trigger] lit[j]
}

/// `s` ends with `lit`.
pub open spec fn ends_with(s: Seq<char>, lit: Seq<char>) -> bool {
    s.len() >= lit.len() && match_at(s, s.len() - lit.len(), lit)
}

/// `lit` occurs somewhere in `s`.
pub open spec fn contains_lit(s: Seq<char>, lit: Seq<char>) -> bool {
    exists|i: int| match_at(s, i, lit)
}

/// First index at or after `from` holding character `c`, or the length of `s`.
pub open spec fn find_char(s: Seq<char>, c: char, from: int) -> int
    decreases s.len() - from,
{
    if from < 0 || from >= s.len() {
        s.len() as int
    } else if s[from] == c {
        from
    } else {
        find_char(s, c, from + 1)
    }
}

/// The find result lies between `from` and the length, no earlier position
/// holds `c`, and the result position holds `c` when in bounds.
pub proof fn lemma_find_char(s: Seq<char>, c: char, from: int)
    requires
        0 <= from <= s.len(),
    ensures
        from <= find_char(s, c, from) <= s.len(),
        forall|i: int| from <= i < find_char(s, c, from) ==> s[i] != c,
        find_char(s, c, from) < s.len() ==> s[find_char(s, c, from)] == c,
    decreases s.len() - from,
{
    if from < s.len() && s[from] != c {
        lemma_find_char(s, c, from + 1);
    }
}

proof fn lemma_find_char_extends(s: Seq<char>, c: char, from: int, j: int)
    requires
        0 <= from <= j < s.len(),
        forall|i: int| from <= i <= j ==> s[i] != c,
    ensures
        find_char(s, c, from) >= j + 1,
    decreases j - from,
{
    if from < j {
        lemma_find_char_extends(s, c, from + 1, j);
    } else {
        lemma_find_char(s, c, from + 1);
    }
}

proof fn lemma_find_char_stops(s: Seq<char>, c: char, from: int, j: int)
    requires
        0 <= from <= j < s.len(),
        forall|i: int| from <= i < j ==> s[i] != c,
        s[j] == c,
    ensures
        find_char(s, c, from) == j,
    decreases j - from,
{
    if from < j {
        lemma_find_char_stops(s, c, from + 1, j);
    }
}

/// Scans `s` from `from` for the first occurrence of `c`.
pub fn scan_for_char(s: &str, c: char, from: usize) -> (j: usize)
    requires
        from <= s@.len(),
    ensures
        j == find_char(s@, c, from as int),
{
    proof {
        lemma_find_char(s@, c, from as int);
    }
    let n = s.unicode_len();
    let mut j = from;
    while j < n
        invariant
            from <= j <= n,
            n == s@.len(),
            forall|i: int| from <= i < j ==> s@[i] != c,
            find_char(s@, c, from as int) >= j,
        decreases n - j,
    {
        if s.get_char(j) == c {
            proof {
                lemma_find_char_stops(s@, c, from as int, j as int);
            }
            return j;
        }
        proof {
            lemma_find_char_extends(s@, c, from as int, j as int);
        }
        j = j + 1;
    }
    j
}

/// Tests whether `lit` occurs in `s` at index `at`.
pub fn check_match_at(s: &str, at: usize, lit: &str) -> (r: bool)
    requires
        at <= s@.len(),
    ensures
        r == match_at(s@, at as int, lit@),
{
    let n = s.unicode_len();
    let m = lit.unicode_len();
    if m > n - at {
        return false;
    }
    let mut j: usize = 0;
    while j < m
        invariant
            0 <= j <= m,
            at + m <= n,
            n == s@.len(),
            m == lit@.len(),
            forall|i: int| 0 <= i < j ==> s@[at + i] == #[trigger] lit@[i],
        decreases m - j,
    {
        if s.get_char(at + j) != lit.get_char(j) {
            return false;
        }
        j = j + 1;
    }
    true
}

/// Tests whether `s` ends with `lit`.
pub fn check_ends_with(s: &str, lit: &str) -> (r: bool)
    ensures
        r == ends_with(s@, lit@),
{
    let n = s.unicode_len();
    let m = lit.unicode_len();
    if m > n {
        return false;
    }
    check_match_at(s, n - m, lit)
}

/// Tests whether `lit` occurs anywhere in `s`.
pub fn check_contains(s: &str, lit: &str) -> (r: bool)
    ensures
        r == contains_lit(s@, lit@),
{
    let n = s.unicode_len();
    let m = lit.unicode_len();
    if m > n {
        return false;
    }
    let mut at: usize = 0;
    while at <= n - m
        invariant
            0 <= at <= n - m + 1,
            m <= n,
            n == s@.len(),
            m == lit@.len(),
            forall|i: int| 0 <= i < at ==> !match_at(s@, i, lit@),
        decreases n + 1 - at,
    {
        if check_match_at(s, at, lit) {
            return true;
        }
        at = at + 1;
    }
    proof {
        assert forall|i: int| !match_at(s@, i, lit@) by {
            if 0 <= i && i + lit@.len() <= s@.len() {
                assert(i < at);
            }
        }
    }
    false
}

/// Tests whether two strings hold the same characters.
pub fn str_eq(a: &str, b: &str) -> (r: bool)
    ensures
        r == (a@ == b@),
{
    let n = a.unicode_len();
    if n != b.unicode_len() {
        return false;
    }
    let mut j: usize = 0;
    while j < n
        invariant
            0 <= j <= n,
            n == a@.len(),
            n == b@.len(),
            forall|i: int| 0 <= i < j ==> a@[i] == b@[i],
        decreases n - j,
    {
        if a.get_char(j) != b.get_char(j) {
            return false;
        }
        j = j + 1;
    }
    proof {
        assert(a@ =~= b@);
    }
    true
}

} // verus!
