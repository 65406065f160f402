use vstd::prelude::*;
use vstd::string::StrSliceExecFns;

verus! {

/// `p` occurs in `s` starting at index `i`.
pub open spec fn match_at(s: Seq<char>, p: Seq<char>, i: int) -> bool {
    0 <= i && i + p.len() <= s.len() && s.subrange(i, i + p.len() as int) == p
}

/// `s` begins with `p`.
pub open spec fn spec_starts_with(s: Seq<char>, p: Seq<char>) -> bool {
    match_at(s, p, 0)
}

/// `s` ends with `p`.
pub open spec fn spec_ends_with(s: Seq<char>, p: Seq<char>) -> bool {
    match_at(s, p, s.len() - p.len())
}

/// The last index `<= n` at which `p` occurs in `s`, if any.
pub open spec fn last_match_from(s: Seq<char>, p: Seq<char>, n: int) -> Option<int>
    decreases n + 1 when n >= -1
{
    if n < 0 {
        None
    } else if match_at(s, p, n) {
        Some(n)
    } else {
        last_match_from(s, p, n - 1)
    }
}

/// The last index at which `p` occurs in `s`, if any.
pub open spec fn last_match(s: Seq<char>, p: Seq<char>) -> Option<int> {
    if p.len() <= s.len() {
        last_match_from(s, p, s.len() - p.len())
    } else {
        None
    }
}

/// The first index `>= n` at which `p` occurs in `s`, if any.
pub open spec fn first_match_from(s: Seq<char>, p: Seq<char>, n: int) -> Option<int>
    decreases s.len() + 1 - n when 0 <= n <= s.len() + 1
{
    if n + p.len() > s.len() {
        None
    } else if match_at(s, p, n) {
        Some(n)
    } else {
        first_match_from(s, p, n + 1)
    }
}

/// The first index at which `p` occurs in `s`, if any.
pub open spec fn first_match(s: Seq<char>, p: Seq<char>) -> Option<int> {
    first_match_from(s, p, 0)
}

/// A found `last_match_from` is a real occurrence, and the latest one.
pub proof fn lemma_last_match_from_props(s: Seq<char>, p: Seq<char>, n: int)
    requires
        n >= -1,
    ensures
        match last_match_from(s, p, n) {
            Some(i) => 0 <= i <= n && match_at(s, p, i) && (forall|j: int|
                i < j <= n ==> !match_at(s, p, j)),
            None => forall|j: int| 0 <= j <= n ==> !match_at(s, p, j),
        },
    decreases n + 1,
{
    if n >= 0 && !match_at(s, p, n) {
        lemma_last_match_from_props(s, p, n - 1);
    }
}

/// If `p` occurs at `i` and nowhere later (up to `n`), the last match is `i`.
pub proof fn lemma_last_match_from_found(s: Seq<char>, p: Seq<char>, n: int, i: int)
    requires
        0 <= i <= n,
        match_at(s, p, i),
        forall|j: int| i < j <= n ==> !match_at(s, p, j),
    ensures
        last_match_from(s, p, n) == Some(i),
    decreases n + 1,
{
    if n > i {
        lemma_last_match_from_found(s, p, n - 1, i);
    }
}

/// If `p` occurs nowhere in `s` (up to `n`), there is no last match.
pub proof fn lemma_last_match_from_none(s: Seq<char>, p: Seq<char>, n: int)
    requires
        n >= -1,
        forall|j: int| 0 <= j <= n ==> !match_at(s, p, j),
    ensures
        last_match_from(s, p, n) is None,
    decreases n + 1,
{
    if n >= 0 {
        lemma_last_match_from_none(s, p, n - 1);
    }
}

/// A found `first_match_from` is a real occurrence.
pub proof fn lemma_first_match_from_props(s: Seq<char>, p: Seq<char>, n: int)
    requires
        0 <= n <= s.len() + 1,
    ensures
        match first_match_from(s, p, n) {
            Some(i) => n <= i && match_at(s, p, i),
            None => true,
        },
    decreases s.len() + 1 - n,
{
    if n + p.len() <= s.len() && !match_at(s, p, n) {
        lemma_first_match_from_props(s, p, n + 1);
    }
}

/// Whether `p` occurs in `s` at character index `i`, by character comparison.
pub fn match_at_exec(s: &str, p: &str, i: usize) -> (r: bool)
    requires
        i + p@.len() <= s@.len(),
    ensures
        r == match_at(s@, p@, i as int),
{
    let slen = s.unicode_len();
    let plen = p.unicode_len();
    let mut k: usize = 0;
    while k < plen
        invariant
            k <= plen,
            slen == s@.len(),
            plen == p@.len(),
            i + plen <= slen,
            forall|j: int| 0 <= j < k ==> s@[i + j] == p@[j],
        decreases plen - k,
    {
        if s.get_char(i + k) != p.get_char(k) {
            proof {
                if match_at(s@, p@, i as int) {
                    assert(s@.subrange(i as int, i + p@.len())[k as int] == p@[k as int]);
                }
            }
            return false;
        }
        k += 1;
    }
    proof {
        assert(s@.subrange(i as int, i + p@.len()) =~= p@);
    }
    true
}

/// The last occurrence of `p` in `s`, as a character index.
pub fn str_rfind(s: &str, p: &str) -> (r: Option<usize>)
    ensures
        match r {
            Some(i) => last_match(s@, p@) == Some(i as int),
            None => last_match(s@, p@) is None,
        },
{
    let slen = s.unicode_len();
    let plen = p.unicode_len();
    if plen > slen {
        return None;
    }
    let mut i: usize = slen - plen;
    loop
        invariant
            i <= slen - plen,
            slen == s@.len(),
            plen == p@.len(),
            last_match(s@, p@) == last_match_from(s@, p@, i as int),
        decreases i,
    {
        if match_at_exec(s, p, i) {
            return Some(i);
        }
        if i == 0 {
            proof {
                assert(last_match_from(s@, p@, -1) is None);
                assert(last_match_from(s@, p@, 0) == last_match_from(s@, p@, -1));
            }
            return None;
        }
        i -= 1;
    }
}

/// The first occurrence of `p` in `s`, as a character index.
pub fn str_find(s: &str, p: &str) -> (r: Option<usize>)
    ensures
        match r {
            Some(i) => first_match(s@, p@) == Some(i as int),
            None => first_match(s@, p@) is None,
        },
{
    let slen = s.unicode_len();
    let plen = p.unicode_len();
    if plen > slen {
        proof {
            assert(first_match_from(s@, p@, 0) is None);
        }
        return None;
    }
    if plen == 0 {
        proof {
            assert(s@.subrange(0, 0) =~= p@);
        }
        return Some(0);
    }
    let mut i: usize = 0;
    while i <= slen - plen
        invariant
            1 <= plen <= slen,
            i <= slen - plen + 1,
            slen == s@.len(),
            plen == p@.len(),
            first_match(s@, p@) == first_match_from(s@, p@, i as int),
        decreases slen - i,
    {
        if match_at_exec(s, p, i) {
            return Some(i);
        }
        i += 1;
    }
    None
}

/// Whether two string slices hold the same characters.
pub fn str_eq(a: &str, b: &str) -> (r: bool)
    ensures
        r == (a@ == b@),
{
    let al = a.unicode_len();
    let bl = b.unicode_len();
    proof {
        assert(a@.subrange(0, a@.len() as int) =~= a@);
    }
    if al != bl {
        return false;
    }
    match_at_exec(a, b, 0)
}

/// Whether `s` begins with `p`.
pub fn str_starts_with(s: &str, p: &str) -> (r: bool)
    ensures
        r == spec_starts_with(s@, p@),
{
    let slen = s.unicode_len();
    let plen = p.unicode_len();
    if plen > slen {
        return false;
    }
    match_at_exec(s, p, 0)
}

/// Whether `s` ends with `p`.
pub fn str_ends_with(s: &str, p: &str) -> (r: bool)
    ensures
        r == spec_ends_with(s@, p@),
{
    let slen = s.unicode_len();
    let plen = p.unicode_len();
    if plen > slen {
        return false;
    }
    match_at_exec(s, p, slen - plen)
}

} // verus!
