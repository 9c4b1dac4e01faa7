//! Contiguous substring containment, under an optional case policy, with a
//! verified executable search.

use vstd::prelude::*;
use crate::casing::char_to_lower;
use crate::casing::lower;
use crate::casing::lower_char;

verus! {

/// `needle` occurs contiguously somewhere in `hay` (vacuously true for an
/// empty `needle`).
pub open spec fn contains_substr(hay: Seq<char>, needle: Seq<char>) -> bool {
    exists|i: int|
        0 <= i && i + needle.len() <= hay.len() && #[trigger] hay.subrange(
            i,
            i + needle.len() as int,
        ) == needle
}

/// The sequence actually compared during matching: folded to lowercase when
/// the search ignores case, unchanged otherwise.
pub open spec fn norm(s: Seq<char>, ignore_case: bool) -> Seq<char> {
    if ignore_case {
        lower(s)
    } else {
        s
    }
}

/// An empty needle is contained in every haystack.
pub proof fn lemma_contains_empty(hay: Seq<char>)
    ensures
        contains_substr(hay, Seq::<char>::empty()),
{
    let e = Seq::<char>::empty();
    assert(hay.subrange(0, 0 + e.len() as int) =~= e);
}

/// Simple case folding preserves substring containment: folding maps each
/// character independently, so a contiguous occurrence stays contiguous.
pub proof fn lemma_contains_substr_lower(hay: Seq<char>, needle: Seq<char>)
    requires
        contains_substr(hay, needle),
    ensures
        contains_substr(lower(hay), lower(needle)),
{
    let i = choose|i: int|
        0 <= i && i + needle.len() <= hay.len() && #[trigger] hay.subrange(
            i,
            i + needle.len() as int,
        ) == needle;
    assert forall|k: int| 0 <= k < needle.len() implies hay[i + k] == needle[k] by {
        assert(hay.subrange(i, i + needle.len() as int)[k] == hay[i + k]);
    }
    assert(lower(hay).subrange(i, i + lower(needle).len() as int) =~= lower(needle));
}

/// Whether the normalized needle occurs in the normalized haystack at
/// position `i`.
fn match_at(hay: &str, needle: &str, i: usize, ignore_case: bool) -> (b: bool)
    requires
        i + needle@.len() <= hay@.len(),
    ensures
        b == (norm(hay@, ignore_case).subrange(i as int, i + needle@.len()) == norm(
            needle@,
            ignore_case,
        )),
{
    let h = hay.unicode_len();
    let n = needle.unicode_len();
    let mut j: usize = 0;
    while j < n
        invariant
            j <= n,
            h == hay@.len(),
            n == needle@.len(),
            i + n <= h,
            forall|k: int|
                0 <= k < j ==> norm(hay@, ignore_case)[i + k] == norm(needle@, ignore_case)[k],
        decreases n - j,
    {
        let hc = hay.get_char(i + j);
        let nc = needle.get_char(j);
        let same = if ignore_case {
            char_to_lower(hc) == char_to_lower(nc)
        } else {
            hc == nc
        };
        if !same {
            proof {
                let a = norm(hay@, ignore_case).subrange(i as int, i + needle@.len());
                if a == norm(needle@, ignore_case) {
                    assert(a[j as int] == norm(hay@, ignore_case)[i + j]);
                }
            }
            return false;
        }
        j += 1;
    }
    proof {
        assert(norm(hay@, ignore_case).subrange(i as int, i + needle@.len()) =~= norm(
            needle@,
            ignore_case,
        ));
    }
    true
}

/// Executable substring containment under a case policy.
pub(crate) fn contains_norm(hay: &str, needle: &str, ignore_case: bool) -> (b: bool)
    ensures
        b == contains_substr(norm(hay@, ignore_case), norm(needle@, ignore_case)),
{
    let h = hay.unicode_len();
    let n = needle.unicode_len();
    if n == 0 {
        proof {
            assert(norm(needle@, ignore_case) =~= Seq::<char>::empty());
            lemma_contains_empty(norm(hay@, ignore_case));
        }
        return true;
    }
    if n > h {
        return false;
    }
    let mut i: usize = 0;
    while i < h - n + 1
        invariant
            i <= h - n + 1,
            1 <= n <= h,
            h == hay@.len(),
            n == needle@.len(),
            forall|k: int|
                0 <= k < i ==> #[trigger] norm(hay@, ignore_case).subrange(
                    k,
                    k + norm(needle@, ignore_case).len() as int,
                ) != norm(needle@, ignore_case),
        decreases h - n + 1 - i,
    {
        if match_at(hay, needle, i, ignore_case) {
            proof {
                assert(norm(hay@, ignore_case).subrange(
                    i as int,
                    i + norm(needle@, ignore_case).len() as int,
                ) == norm(needle@, ignore_case));
            }
            return true;
        }
        i += 1;
    }
    proof {
        assert forall|k: int|
            0 <= k && k + norm(needle@, ignore_case).len() <= norm(hay@, ignore_case).len()
                implies #[trigger] norm(hay@, ignore_case).subrange(
            k,
            k + norm(needle@, ignore_case).len() as int,
        ) != norm(needle@, ignore_case) by {}
    }
    false
}

} // verus!
