//! Character-exact string equality and substring search, used for field
//! lookups and row filtering.

use vstd::prelude::*;

verus! {

/// `needle` occurs in `hay` starting at position `k`.
pub open spec fn contains_at(hay: Seq<char>, needle: Seq<char>, k: int) -> bool {
    0 <= k && k + needle.len() <= hay.len() && hay.subrange(k, k + needle.len()) == needle
}

/// `needle` occurs somewhere in `hay` as a contiguous substring.
pub open spec fn contains_sub(hay: Seq<char>, needle: Seq<char>) -> bool {
    exists|k: int| contains_at(hay, needle, k)
}

/// Whether `needle` occurs in `hay` starting at position `k`.
fn match_at(hay: &str, needle: &str, k: usize) -> (r: bool)
    requires
        hay@.len() <= usize::MAX,
        k + needle@.len() <= hay@.len(),
    ensures
        r == contains_at(hay@, needle@, k as int),
{
    let nlen = needle.unicode_len();
    let mut m: usize = 0;
    while m < nlen
        invariant
            m <= nlen,
            nlen == needle@.len(),
            hay@.len() <= usize::MAX,
            k + needle@.len() <= hay@.len(),
            forall|m2: int| 0 <= m2 < m ==> hay@[k + m2] == needle@[m2],
        decreases nlen - m,
    {
        let hc = hay.get_char(k + m);
        let nc = needle.get_char(m);
        if hc != nc {
            proof {
                assert(hay@.subrange(k as int, k + needle@.len())[m as int] == hay@[k + m]);
            }
            return false;
        }
        m = m + 1;
    }
    proof {
        assert(hay@.subrange(k as int, k + needle@.len()) =~= needle@);
    }
    true
}

/// Whether `needle` occurs in `hay` as a contiguous substring; the empty
/// needle occurs in everything.
pub fn str_contains(hay: &str, needle: &str) -> (r: bool)
    ensures
        r == contains_sub(hay@, needle@),
{
    let hlen = hay.unicode_len();
    let nlen = needle.unicode_len();
    if nlen > hlen {
        return false;
    }
    if nlen == 0 {
        proof {
            assert(hay@.subrange(0, 0) =~= needle@);
            assert(contains_at(hay@, needle@, 0));
        }
        return true;
    }
    let mut k: usize = 0;
    while k <= hlen - nlen
        invariant
            1 <= nlen <= hlen,
            hlen == hay@.len(),
            nlen == needle@.len(),
            k <= hlen - nlen + 1,
            forall|k2: int| 0 <= k2 < k ==> !contains_at(hay@, needle@, k2),
        decreases hlen - nlen + 1 - k,
    {
        if match_at(hay, needle, k) {
            return true;
        }
        k = k + 1;
    }
    false
}

/// Whether two strings hold the same characters.
pub fn str_eq(a: &str, b: &str) -> (r: bool)
    ensures
        r == (a@ == b@),
{
    let alen = a.unicode_len();
    let blen = b.unicode_len();
    if alen != blen {
        return false;
    }
    let r = match_at(a, b, 0);
    proof {
        if contains_at(a@, b@, 0) {
            assert(a@.subrange(0, a@.len() as int) =~= a@);
        } else {
            if a@ == b@ {
                assert(a@.subrange(0, b@.len() as int) =~= b@);
            }
        }
    }
    r
}

} // verus!
