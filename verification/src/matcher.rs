//! Occurrence of one sequence inside another.
//!
//! The search is the plain sliding window: no table is built from the
//! pattern, every offset is tried in turn. Its cost grows with the product of
//! the two lengths, which is fine for patterns of a few dozen bytes.

use vstd::laws_eq::obeys_concrete_eq;
use vstd::prelude::*;

verus! {

/// `needle` stands in `haystack` at offset `at`, contiguously.
pub open spec fn occurs_at<T>(haystack: Seq<T>, needle: Seq<T>, at: int) -> bool {
    &&& 0 <= at
    &&& at + needle.len() <= haystack.len()
    &&& haystack.subrange(at, at + needle.len()) == needle
}

/// `needle` stands somewhere in `haystack`.
pub open spec fn occurs<T>(haystack: Seq<T>, needle: Seq<T>) -> bool {
    exists|at: int| occurs_at(haystack, needle, at)
}

/// `at` is the lowest offset at which `needle` stands in `haystack`.
pub open spec fn is_first_occurrence<T>(haystack: Seq<T>, needle: Seq<T>, at: int) -> bool {
    &&& occurs_at(haystack, needle, at)
    &&& forall|earlier: int| 0 <= earlier < at ==> !occurs_at(haystack, needle, earlier)
}

/// The empty sequence stands at offset 0 of every sequence, the empty one
/// included.
pub proof fn lemma_empty_needle_occurs_first<T>(haystack: Seq<T>)
    ensures
        is_first_occurrence(haystack, Seq::<T>::empty(), 0),
{
    assert(haystack.subrange(0, 0) =~= Seq::<T>::empty());
}

/// No sequence has two lowest offsets.
pub proof fn lemma_first_occurrence_unique<T>(haystack: Seq<T>, needle: Seq<T>, a: int, b: int)
    requires
        is_first_occurrence(haystack, needle, a),
        is_first_occurrence(haystack, needle, b),
    ensures
        a == b,
{
}

/// Compares the window of `haystack` that starts at `at` with `needle`.
fn window_equals<T: PartialEq>(haystack: &[T], needle: &[T], at: usize) -> (same: bool)
    requires
        at + needle@.len() <= haystack@.len(),
    ensures
        obeys_concrete_eq::<T>() ==> same == occurs_at(haystack@, needle@, at as int),
{
    let ghost window = haystack@.subrange(at as int, at + needle@.len());
    let len: usize = haystack.len();
    let mut i: usize = 0;
    while i < needle.len()
        invariant
            i <= needle@.len(),
            at + needle@.len() <= haystack@.len() == len,
            window == haystack@.subrange(at as int, at + needle@.len()),
            obeys_concrete_eq::<T>() ==> forall|j: int| 0 <= j < i ==> window[j] == needle@[j],
        decreases needle@.len() - i,
    {
        proof {
            reveal(obeys_concrete_eq);
        }
        if haystack[at + i] != needle[i] {
            assert(obeys_concrete_eq::<T>() ==> window[i as int] != needle@[i as int]);
            return false;
        }
        i += 1;
    }
    assert(obeys_concrete_eq::<T>() ==> window =~= needle@);
    true
}

/// The lowest offset at which `needle` occurs contiguously in `haystack`, or
/// `None` where it occurs nowhere. An empty `needle` is found at offset 0 of
/// any `haystack`.
///
/// Elements are compared with `==`; the answer is the first occurrence
/// whenever `==` on `T` is equality of values, as it is for the integers.
pub fn is_substr<T: PartialEq>(haystack: &[T], needle: &[T]) -> (found: Option<usize>)
    ensures
        needle@.len() == 0 ==> found == Some(0usize),
        found matches Some(at) ==> at + needle@.len() <= haystack@.len(),
        obeys_concrete_eq::<T>() ==> match found {
            Some(at) => is_first_occurrence(haystack@, needle@, at as int),
            None => !occurs(haystack@, needle@),
        },
{
    if needle.len() == 0 {
        proof {
            lemma_empty_needle_occurs_first(haystack@);
            assert(needle@ =~= Seq::<T>::empty());
        }
        return Some(0);
    }
    if needle.len() > haystack.len() {
        return None;
    }
    let last: usize = haystack.len() - needle.len();
    let mut start: usize = 0;
    while start <= last
        invariant
            start <= last + 1,
            0 < needle@.len(),
            last + needle@.len() == haystack@.len() <= usize::MAX,
            obeys_concrete_eq::<T>() ==> forall|earlier: int|
                0 <= earlier < start ==> !occurs_at(haystack@, needle@, earlier),
        decreases last + 1 - start,
    {
        if window_equals(haystack, needle, start) {
            return Some(start);
        }
        start += 1;
    }
    None
}

} // verus!
