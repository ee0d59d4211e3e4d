//! Finding a literal text inside another.

use vstd::prelude::*;

verus! {

/// `needle` stands in `haystack` at position `k`.
pub open spec fn occurs_at(haystack: Seq<char>, needle: Seq<char>, k: int) -> bool {
    &&& 0 <= k
    &&& k + needle.len() <= haystack.len()
    &&& haystack.subrange(k, k + needle.len()) == needle
}

/// `needle` stands in `haystack` at position `k`, and nowhere before it.
pub open spec fn is_first_occurrence(haystack: Seq<char>, needle: Seq<char>, k: int) -> bool {
    &&& occurs_at(haystack, needle, k)
    &&& forall|j: int| 0 <= j < k ==> !occurs_at(haystack, needle, j)
}

/// The first position at which `needle` stands in `haystack`, if it stands in
/// it at all.
pub open spec fn first_occurrence(haystack: Seq<char>, needle: Seq<char>) -> Option<int> {
    if exists|k: int| is_first_occurrence(haystack, needle, k) {
        Some(choose|k: int| is_first_occurrence(haystack, needle, k))
    } else {
        None
    }
}

/// There is only one first occurrence.
pub proof fn lemma_first_occurrence_unique(haystack: Seq<char>, needle: Seq<char>, k: int)
    requires
        is_first_occurrence(haystack, needle, k),
    ensures
        first_occurrence(haystack, needle) == Some(k),
{
}

/// Where the needle stands nowhere, there is no first occurrence.
pub proof fn lemma_first_occurrence_none(haystack: Seq<char>, needle: Seq<char>)
    requires
        forall|k: int| !occurs_at(haystack, needle, k),
    ensures
        first_occurrence(haystack, needle) is None,
{
}

/// The empty text stands at the very beginning of every text.
pub proof fn lemma_empty_needle(haystack: Seq<char>)
    ensures
        first_occurrence(haystack, Seq::<char>::empty()) == Some(0int),
{
    assert(haystack.subrange(0, 0) =~= Seq::<char>::empty());
    lemma_first_occurrence_unique(haystack, Seq::<char>::empty(), 0);
}

/// Whether `needle` stands in `haystack` at position `k`.
pub fn matches_at(haystack: &[char], needle: &[char], k: usize) -> (found: bool)
    ensures
        found == occurs_at(haystack@, needle@, k as int),
{
    if k > haystack.len() || needle.len() > haystack.len() - k {
        return false;
    }
    let mut j: usize = 0;
    while j < needle.len()
        invariant
            j <= needle.len(),
            k + needle.len() <= haystack.len(),
            forall|i: int| 0 <= i < j ==> haystack@[k + i] == needle@[i],
        decreases needle.len() - j,
    {
        if haystack[k + j] != needle[j] {
            return false;
        }
        j = j + 1;
    }
    assert(haystack@.subrange(k as int, k + needle.len()) =~= needle@);
    true
}

/// Searches `haystack` for `needle` from the left and stops at the first
/// position where it stands.
pub fn find_first(haystack: &[char], needle: &[char]) -> (position: Option<usize>)
    ensures
        first_occurrence(haystack@, needle@) == match position {
            Some(k) => Some(k as int),
            None => None,
        },
        position matches Some(k) ==> k + needle.len() <= haystack.len(),
{
    if needle.len() > haystack.len() {
        proof {
            lemma_first_occurrence_none(haystack@, needle@);
        }
        return None;
    }
    let last: usize = haystack.len() - needle.len();
    let mut k: usize = 0;
    loop
        invariant
            last == haystack.len() - needle.len(),
            needle.len() <= haystack.len(),
            k <= last,
            forall|j: int| 0 <= j < k ==> !occurs_at(haystack@, needle@, j),
        ensures
            forall|j: int| !occurs_at(haystack@, needle@, j),
        decreases last - k,
    {
        if matches_at(haystack, needle, k) {
            proof {
                lemma_first_occurrence_unique(haystack@, needle@, k as int);
            }
            return Some(k);
        }
        if k == last {
            break ;
        }
        k = k + 1;
    }
    proof {
        lemma_first_occurrence_none(haystack@, needle@);
    }
    None
}

} // verus!
