//! Finding a string of bytes in another.

use vstd::prelude::*;

verus! {

/// The bytes of `pattern` stand in `data` from position `at` on.
pub open spec fn stands_at(data: Seq<u8>, at: int, pattern: Seq<u8>) -> bool {
    &&& 0 <= at
    &&& at + pattern.len() <= data.len()
    &&& forall|k: int| 0 <= k < pattern.len() ==> data[at + k] == #[trigger] pattern[k]
}

/// The least position from `from` on at which `pattern` stands in `data`.
pub open spec fn first_occurrence(data: Seq<u8>, pattern: Seq<u8>, from: int) -> Option<int>
    decreases data.len() - from,
{
    if from + pattern.len() > data.len() {
        None
    } else if stands_at(data, from, pattern) {
        Some(from)
    } else {
        first_occurrence(data, pattern, from + 1)
    }
}

/// The first occurrence is an occurrence, and none comes before it; there is
/// none only if the pattern does not occur at all.
pub proof fn first_occurrence_is_first(data: Seq<u8>, pattern: Seq<u8>, from: int)
    requires
        0 <= from,
    ensures
        match first_occurrence(data, pattern, from) {
            Some(at) => {
                &&& from <= at
                &&& stands_at(data, at, pattern)
                &&& forall|k: int| from <= k < at ==> !stands_at(data, k, pattern)
            },
            None => forall|k: int| from <= k ==> !stands_at(data, k, pattern),
        },
    decreases data.len() - from,
{
    if from + pattern.len() <= data.len() && !stands_at(data, from, pattern) {
        first_occurrence_is_first(data, pattern, from + 1);
    }
}

/// A pattern is found at the first position from which on the data holds its
/// bytes, and it is missed only if the data holds them nowhere.
pub proof fn first_occurrence_holds_the_pattern(data: Seq<u8>, pattern: Seq<u8>)
    ensures
        match first_occurrence(data, pattern, 0) {
            Some(at) => {
                &&& 0 <= at <= data.len() - pattern.len()
                &&& data.subrange(at, at + pattern.len()) == pattern
                &&& forall|k: int|
                    0 <= k < at ==> #[trigger] data.subrange(k, k + pattern.len()) != pattern
            },
            None => forall|k: int|
                0 <= k <= data.len() - pattern.len() ==> #[trigger] data.subrange(
                    k,
                    k + pattern.len(),
                ) != pattern,
        },
        forall|at: int|
            0 <= at <= data.len() - pattern.len() ==> (#[trigger] stands_at(data, at, pattern)
                <==> data.subrange(at, at + pattern.len()) == pattern),
        forall|at: int| #[trigger]
            stands_at(data, at, pattern) ==> 0 <= at <= data.len() - pattern.len(),
{
    first_occurrence_is_first(data, pattern, 0);
    assert forall|at: int| 0 <= at <= data.len() - pattern.len() implies (#[trigger] stands_at(
        data,
        at,
        pattern,
    ) <==> data.subrange(at, at + pattern.len()) == pattern) by {
        let part = data.subrange(at, at + pattern.len());
        if stands_at(data, at, pattern) {
            assert(part =~= pattern);
        }
        if part == pattern {
            assert forall|k: int| 0 <= k < pattern.len() implies data[at + k]
                == #[trigger] pattern[k] by {
                assert(part[k] == data[at + k]);
            }
        }
    }
    assert forall|k: int|
        0 <= k <= data.len() - pattern.len() && !stands_at(data, k, pattern) implies #[trigger] data.subrange(
        k,
        k + pattern.len(),
    ) != pattern by {
        assert(stands_at(data, k, pattern) <==> data.subrange(k, k + pattern.len()) == pattern);
    }
}

/// Tells whether the bytes of `pattern` stand in `data` from `at` on.
pub fn matches_at(data: &[u8], at: usize, pattern: &[u8]) -> (found: bool)
    ensures
        found == stands_at(data@, at as int, pattern@),
{
    if at > data.len() || pattern.len() > data.len() - at {
        return false;
    }
    let mut k: usize = 0;
    while k < pattern.len()
        invariant
            k <= pattern@.len(),
            at + pattern@.len() <= data.len(),
            forall|j: int| 0 <= j < k ==> data@[at + j] == #[trigger] pattern@[j],
        decreases pattern@.len() - k,
    {
        if data[at + k] != pattern[k] {
            assert(pattern@[k as int] != data@[at + k]);
            return false;
        }
        k += 1;
    }
    true
}

/// Finds the first position at which `pattern` stands in `data`.
pub fn find_bytes(data: &[u8], pattern: &[u8]) -> (found: Option<usize>)
    ensures
        match found {
            Some(at) => first_occurrence(data@, pattern@, 0) == Some(at as int),
            None => first_occurrence(data@, pattern@, 0) is None,
        },
{
    let mut at: usize = 0;
    while at <= data.len() && pattern.len() <= data.len() - at
        invariant
            at <= data.len() + 1,
            first_occurrence(data@, pattern@, 0) == first_occurrence(data@, pattern@, at as int),
        decreases data.len() + 1 - at,
    {
        if matches_at(data, at, pattern) {
            return Some(at);
        }
        if at == data.len() {
            return None;
        }
        at += 1;
    }
    None
}

} // verus!
