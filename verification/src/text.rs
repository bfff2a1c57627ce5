//! Character-sequence searching primitives: pattern occurrence, first
//! occurrence, and maximal character runs. These underpin the device
//! name filter and the driver-output parser.

use vstd::prelude::*;

verus! {

/// `pat` occurs in `s` starting at position `i`.
pub open spec fn match_at(s: Seq<char>, pat: Seq<char>, i: int) -> bool {
    0 <= i && i + pat.len() <= s.len() && (forall|k: int|
        0 <= k < pat.len() ==> s[i + k] == pat[k])
}

/// `pat` occurs somewhere in `s`.
pub open spec fn contains_pat(s: Seq<char>, pat: Seq<char>) -> bool {
    exists|i: int| match_at(s, pat, i)
}

/// Position of the first occurrence of `pat` in `s` at or after `i`;
/// `s.len()` when there is none.
pub open spec fn first_match_from(s: Seq<char>, pat: Seq<char>, i: int) -> int
    decreases s.len() - i,
{
    if i < 0 || i + pat.len() > s.len() {
        s.len() as int
    } else if match_at(s, pat, i) {
        i
    } else {
        first_match_from(s, pat, i + 1)
    }
}

/// Compare `pat` against `s` at position `i`.
pub fn is_match_at(s: &str, pat: &str, i: usize) -> (r: bool)
    requires
        i + pat@.len() <= s@.len(),
    ensures
        r == match_at(s@, pat@, i as int),
{
    let n = s.unicode_len();
    let m = pat.unicode_len();
    let mut k: usize = 0;
    while k < m
        invariant
            n == s@.len(),
            m == pat@.len(),
            i + m <= n,
            0 <= k <= m,
            forall|j: int| 0 <= j < k ==> s@[i + j] == pat@[j],
        decreases m - k,
    {
        if s.get_char(i + k) != pat.get_char(k) {
            assert(!match_at(s@, pat@, i as int));
            return false;
        }
        k += 1;
    }
    true
}

/// Find the first occurrence of `pat` in `s` at or after `i`.
pub fn find_from(s: &str, n: usize, pat: &str, i: usize) -> (r: usize)
    requires
        n == s@.len(),
        i <= n,
    ensures
        r as int == first_match_from(s@, pat@, i as int),
    decreases n - i,
{
    if pat.unicode_len() > n - i {
        n
    } else if is_match_at(s, pat, i) {
        i
    } else {
        find_from(s, n, pat, i + 1)
    }
}

/// `s` contains `pat` somewhere: the executable form of `contains_pat`.
pub fn contains_sub(s: &str, pat: &str) -> (r: bool)
    ensures
        r == contains_pat(s@, pat@),
{
    let n = s.unicode_len();
    let p = find_from(s, n, pat, 0);
    proof {
        lemma_first_match_bounds(s@, pat@, 0);
    }
    p < n || (p == n && is_end_match(s, n, pat))
}

/// `pat` occurs exactly at the end position `n == s@.len()`; this can
/// only hold for an empty pattern.
fn is_end_match(s: &str, n: usize, pat: &str) -> (r: bool)
    requires
        n == s@.len(),
    ensures
        r == match_at(s@, pat@, n as int),
{
    if pat.unicode_len() == 0 {
        assert(match_at(s@, pat@, n as int));
        true
    } else {
        assert(!match_at(s@, pat@, n as int));
        false
    }
}

/// The first-occurrence position is sound and complete: the result is
/// in bounds, marks a real occurrence when it is not the sentinel, and
/// nothing matches before it.
pub proof fn lemma_first_match_bounds(s: Seq<char>, pat: Seq<char>, i: int)
    requires
        0 <= i <= s.len(),
    ensures
        i <= first_match_from(s, pat, i) <= s.len(),
        first_match_from(s, pat, i) < s.len() ==> match_at(s, pat, first_match_from(s, pat, i)),
        forall|j: int|
            i <= j < first_match_from(s, pat, i) && j + pat.len() <= s.len() ==> !match_at(
                s,
                pat,
                j,
            ),
        first_match_from(s, pat, i) == s.len() ==> (forall|j: int|
            i <= j < s.len() ==> !match_at(s, pat, j)) && (match_at(s, pat, s.len() as int)
            ==> pat.len() == 0),
    decreases s.len() - i,
{
    if i + pat.len() > s.len() {
        assert forall|j: int| i <= j < s.len() implies !match_at(s, pat, j) by {
            assert(j + pat.len() > s.len());
        }
    } else if match_at(s, pat, i) {
    } else {
        lemma_first_match_bounds(s, pat, i + 1);
    }
}

/// Decimal digit.
pub open spec fn is_digit(c: char) -> bool {
    '0' <= c && c <= '9'
}

/// A character that may stand inside a port-name token: anything but
/// whitespace or a comma.
pub open spec fn is_token_char(c: char) -> bool {
    c != ' ' && c != '\t' && c != ',' && c != '\r' && c != '\n'
}

/// End of the maximal run of decimal digits starting at `i`.
pub open spec fn digit_run_end(s: Seq<char>, i: int) -> int
    decreases s.len() - i,
{
    if i < 0 || i >= s.len() {
        i
    } else if is_digit(s[i]) {
        digit_run_end(s, i + 1)
    } else {
        i
    }
}

/// End of the maximal run of token characters starting at `i`.
pub open spec fn token_run_end(s: Seq<char>, i: int) -> int
    decreases s.len() - i,
{
    if i < 0 || i >= s.len() {
        i
    } else if is_token_char(s[i]) {
        token_run_end(s, i + 1)
    } else {
        i
    }
}

/// Executable form of `digit_run_end`.
pub fn digit_run_end_at(s: &str, n: usize, i: usize) -> (r: usize)
    requires
        n == s@.len(),
        i <= n,
    ensures
        r as int == digit_run_end(s@, i as int),
        i <= r <= n,
    decreases n - i,
{
    if i == n {
        i
    } else {
        let c = s.get_char(i);
        if '0' <= c && c <= '9' {
            digit_run_end_at(s, n, i + 1)
        } else {
            i
        }
    }
}

/// Executable form of `token_run_end`.
pub fn token_run_end_at(s: &str, n: usize, i: usize) -> (r: usize)
    requires
        n == s@.len(),
        i <= n,
    ensures
        r as int == token_run_end(s@, i as int),
        i <= r <= n,
    decreases n - i,
{
    if i == n {
        i
    } else {
        let c = s.get_char(i);
        if c != ' ' && c != '\t' && c != ',' && c != '\r' && c != '\n' {
            token_run_end_at(s, n, i + 1)
        } else {
            i
        }
    }
}

} // verus!
