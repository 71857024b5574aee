//! Substring search: the first (or every) position where a pattern occurs
//! in a text, compared byte for byte or with ASCII case folded.

use vstd::prelude::*;
use vstd::string::StringSliceAdditionalSpecFns;
use crate::base64::has_nul;
use crate::error::Error;
use crate::pool::Pool;
use crate::text::{ascii_lower, str_bytes, to_ascii_lower};

verus! {

/// Whether two bytes are equal, with ASCII case folded when matching is
/// case-insensitive.
pub open spec fn bytes_match(a: u8, b: u8, case_sensitive: bool) -> bool {
    if case_sensitive {
        a == b
    } else {
        ascii_lower(a) == ascii_lower(b)
    }
}

/// Whether `pat` occurs in `text` at byte offset `p`.
pub open spec fn matches_at(text: Seq<u8>, pat: Seq<u8>, case_sensitive: bool, p: int) -> bool {
    &&& 0 <= p
    &&& p + pat.len() <= text.len()
    &&& forall|k: int| 0 <= k < pat.len() ==> bytes_match(#[trigger] text[p + k], pat[k], case_sensitive)
}

/// The first offset at which `pat` occurs in `text`, if any; a text that
/// holds a NUL byte cannot pass to the matcher and gives none.
pub open spec fn spec_find(text: Seq<u8>, pat: Seq<u8>, case_sensitive: bool) -> Option<int> {
    if has_nul(text) || !(exists|p: int| matches_at(text, pat, case_sensitive, p)) {
        None
    } else {
        Some(
            choose|p: int|
                matches_at(text, pat, case_sensitive, p) && forall|q: int|
                    0 <= q < p ==> !matches_at(text, pat, case_sensitive, q),
        )
    }
}

/// A precompiled string pattern.
pub struct StrMatch {
    pattern: Vec<u8>,
    case_sensitive: bool,
}

/// Whether `pat` occurs in `text` at `p`, as code.
fn match_here(text: &Vec<u8>, pat: &Vec<u8>, case_sensitive: bool, p: usize) -> (r: bool)
    requires
        p + pat@.len() <= text@.len(),
    ensures
        r == matches_at(text@, pat@, case_sensitive, p as int),
{
    let mut k: usize = 0;
    while k < pat.len()
        invariant
            p + pat@.len() <= text.len(),
            k <= pat@.len(),
            forall|j: int| 0 <= j < k ==> bytes_match(#[trigger] text@[p + j], pat@[j], case_sensitive),
        decreases pat@.len() - k,
    {
        let a = text[p + k];
        let b = pat[k];
        let same = if case_sensitive {
            a == b
        } else {
            to_ascii_lower(a) == to_ascii_lower(b)
        };
        if !same {
            assert(!bytes_match(text@[p + k], pat@[k as int], case_sensitive));
            return false;
        }
        k = k + 1;
    }
    true
}

/// The first offset at or after `from` where the pattern occurs.
fn search_from(text: &Vec<u8>, pat: &Vec<u8>, case_sensitive: bool, from: usize) -> (r: Option<usize>)
    requires
        from <= text@.len(),
    ensures
        r matches Some(p) ==> from <= p && matches_at(text@, pat@, case_sensitive, p as int)
            && forall|q: int| from <= q < p ==> !matches_at(text@, pat@, case_sensitive, q),
        r is None ==> forall|q: int| from <= q ==> !matches_at(text@, pat@, case_sensitive, q),
{
    if pat.len() > text.len() {
        return None;
    }
    let last = text.len() - pat.len();
    let mut p: usize = from;
    while p <= last
        invariant
            from <= p,
            last == text@.len() - pat@.len(),
            forall|q: int| from <= q < p ==> !matches_at(text@, pat@, case_sensitive, q),
        decreases last + 1 - p,
    {
        if match_here(text, pat, case_sensitive, p) {
            return Some(p);
        }
        if p == last {
            return None;
        }
        p = p + 1;
    }
    None
}

/// Whether the bytes hold a NUL.
pub fn bytes_hold_nul(b: &Vec<u8>) -> (r: bool)
    ensures
        r == has_nul(b@),
{
    let mut i: usize = 0;
    while i < b.len()
        invariant
            i <= b@.len(),
            forall|j: int| 0 <= j < i ==> b@[j] != 0,
        decreases b@.len() - i,
    {
        if b[i] == 0 {
            return true;
        }
        i = i + 1;
    }
    false
}

/// The first match, as the specification states it, from a search result.
proof fn lemma_first_match(text: Seq<u8>, pat: Seq<u8>, cs: bool, r: Option<usize>)
    requires
        !has_nul(text),
        r matches Some(p) ==> matches_at(text, pat, cs, p as int) && forall|q: int|
            0 <= q < p ==> !matches_at(text, pat, cs, q),
        r is None ==> forall|q: int| 0 <= q ==> !matches_at(text, pat, cs, q),
    ensures
        spec_find(text, pat, cs) == match r {
            Some(p) => Some(p as int),
            None => None::<int>,
        },
{
    match r {
        Some(p) => {
            assert(exists|q: int| matches_at(text, pat, cs, q)) by {
                assert(matches_at(text, pat, cs, p as int));
            }
            let c = choose|q: int|
                matches_at(text, pat, cs, q) && forall|j: int| 0 <= j < q ==> !matches_at(text, pat, cs, j);
            assert(matches_at(text, pat, cs, p as int) && forall|j: int| 0 <= j < p ==> !matches_at(text, pat, cs, j));
            if c < p {
                assert(!matches_at(text, pat, cs, c));
            }
            if c > p {
                assert(!matches_at(text, pat, cs, p as int));
            }
        },
        None => {
            assert(!(exists|q: int| matches_at(text, pat, cs, q)));
        },
    }
}

impl StrMatch {
    /// The pattern bytes.
    pub closed spec fn spec_pattern(&self) -> Seq<u8> {
        self.pattern@
    }

    /// Whether matching is case-sensitive.
    pub closed spec fn spec_case_sensitive(&self) -> bool {
        self.case_sensitive
    }

    /// Precompile a case-sensitive pattern. A pattern holding a NUL byte
    /// cannot be copied into the pool, so it is not accepted.
    pub fn new(pattern: &str, _pool: &Pool) -> (r: Result<Self, Error>)
        requires
            !has_nul(pattern.spec_bytes()),
        ensures
            r matches Ok(m) && m.spec_pattern() == pattern.spec_bytes() && m.spec_case_sensitive(),
    {
        Ok(StrMatch { pattern: str_bytes(pattern), case_sensitive: true })
    }

    /// Precompile a case-insensitive pattern.
    pub fn new_case_insensitive(pattern: &str, _pool: &Pool) -> (r: Result<Self, Error>)
        requires
            !has_nul(pattern.spec_bytes()),
        ensures
            r matches Ok(m) && m.spec_pattern() == pattern.spec_bytes() && !m.spec_case_sensitive(),
    {
        Ok(StrMatch { pattern: str_bytes(pattern), case_sensitive: false })
    }

    /// Find the pattern in the given string: the byte offset of the first
    /// match, or None if not found.
    pub fn find(&self, haystack: &str) -> (r: Option<usize>)
        ensures
            match r {
                Some(p) => spec_find(haystack.spec_bytes(), self.spec_pattern(), self.spec_case_sensitive())
                    == Some(p as int),
                None => spec_find(haystack.spec_bytes(), self.spec_pattern(), self.spec_case_sensitive())
                    is None,
            },
    {
        let text = str_bytes(haystack);
        if bytes_hold_nul(&text) {
            return None;
        }
        let r = search_from(&text, &self.pattern, self.case_sensitive, 0);
        proof {
            lemma_first_match(text@, self.pattern@, self.case_sensitive, r);
        }
        r
    }

    /// Check if the pattern exists in the given string.
    pub fn contains(&self, haystack: &str) -> (r: bool)
        ensures
            r == spec_find(haystack.spec_bytes(), self.spec_pattern(), self.spec_case_sensitive()) is Some,
    {
        self.find(haystack).is_some()
    }
}

/// Find the first occurrence of a pattern in a string (pool-less API).
pub fn find(pattern: &str, haystack: &str, case_sensitive: bool) -> (r: Option<usize>)
    requires
        !has_nul(pattern.spec_bytes()),
    ensures
        match r {
            Some(p) => spec_find(haystack.spec_bytes(), pattern.spec_bytes(), case_sensitive) == Some(p as int),
            None => spec_find(haystack.spec_bytes(), pattern.spec_bytes(), case_sensitive) is None,
        },
{
    let pool = Pool::new();
    let matcher = if case_sensitive {
        StrMatch::new(pattern, &pool)
    } else {
        StrMatch::new_case_insensitive(pattern, &pool)
    };
    match matcher {
        Ok(m) => m.find(haystack),
        Err(_) => None,
    }
}

/// Check if a pattern exists in a string (pool-less API).
pub fn contains(pattern: &str, haystack: &str, case_sensitive: bool) -> (r: bool)
    requires
        !has_nul(pattern.spec_bytes()),
    ensures
        r == spec_find(haystack.spec_bytes(), pattern.spec_bytes(), case_sensitive) is Some,
{
    find(pattern, haystack, case_sensitive).is_some()
}

/// Find all occurrences of a pattern in a string: every offset before the
/// end of the text where the pattern occurs, in increasing order. A text
/// that holds a NUL byte gives none. Overlapping matches all count: the
/// search resumes on the bytes one past each match.
pub fn find_all(pattern: &StrMatch, haystack: &str) -> (r: Vec<usize>)
    ensures
        has_nul(haystack.spec_bytes()) ==> r@.len() == 0,
        !has_nul(haystack.spec_bytes()) ==> {
            &&& forall|i: int, j: int| 0 <= i < j < r@.len() ==> r@[i] < r@[j]
            &&& forall|i: int| 0 <= i < r@.len() ==> #[trigger] r@[i] < haystack.spec_bytes().len()
                && matches_at(haystack.spec_bytes(), pattern.spec_pattern(), pattern.spec_case_sensitive(), r@[i] as int)
            &&& forall|p: int|
                0 <= p < haystack.spec_bytes().len() && matches_at(haystack.spec_bytes(), pattern.spec_pattern(), pattern.spec_case_sensitive(), p)
                    ==> r@.contains(p as usize)
        },
{
    let mut matches: Vec<usize> = Vec::new();
    let text = str_bytes(haystack);
    if bytes_hold_nul(&text) {
        return matches;
    }
    let len = text.len();
    let mut offset: usize = 0;
    while offset < len
        invariant
            len == text@.len(),
            text@ == haystack.spec_bytes(),
            offset <= len,
            forall|i: int, j: int| 0 <= i < j < matches@.len() ==> matches@[i] < matches@[j],
            forall|i: int| 0 <= i < matches@.len() ==> #[trigger] matches@[i] < offset
                && matches_at(text@, pattern.pattern@, pattern.case_sensitive, matches@[i] as int),
            forall|p: int|
                0 <= p < offset && matches_at(text@, pattern.pattern@, pattern.case_sensitive, p)
                    ==> matches@.contains(p as usize),
        decreases len - offset,
    {
        match search_from(&text, &pattern.pattern, pattern.case_sensitive, offset) {
            Some(pos) if pos < len => {
                let ghost old_m = matches@;
                matches.push(pos);
                proof {
                    assert forall|p: int|
                        0 <= p < pos + 1 && matches_at(text@, pattern.pattern@, pattern.case_sensitive, p)
                        implies matches@.contains(p as usize) by {
                        if p < offset {
                            let k = choose|k: int| 0 <= k < old_m.len() && old_m[k] == p as usize;
                            assert(matches@[k] == p as usize);
                        } else {
                            assert(p == pos);
                            assert(matches@[old_m.len() as int] == pos);
                        }
                    }
                }
                offset = pos + 1;
            },
            _ => {
                proof {
                    assert forall|p: int|
                        0 <= p < len && matches_at(text@, pattern.pattern@, pattern.case_sensitive, p)
                        implies matches@.contains(p as usize) by {
                    }
                }
                offset = len;
            },
        }
    }
    matches
}

} // verus!
