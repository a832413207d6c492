//! Thumbnail locator: picks exactly one preview candidate, or reports that
//! none is usable.
//!
//! Policy: prefer the smallest candidate (by pixel area) whose longest edge
//! meets the requested bound, to avoid wasted decode work; if none meets the
//! bound, use the largest available candidate — the downscaler never
//! upscales beyond it.

use vstd::prelude::*;
use crate::container::{Candidate, spec_area, spec_longest};

verus! {

/// A candidate meets the bound when its longest declared edge is at least
/// the bound.
pub open spec fn spec_qualifies(c: Candidate, bound: u32) -> bool {
    spec_longest(c) >= bound
}

/// Index of the last qualifying candidate, or -1 when none qualifies.
/// On a list sorted by descending area, the last qualifying index is the
/// qualifying candidate of smallest area.
pub open spec fn spec_last_qualifying(s: Seq<Candidate>, bound: u32) -> int
    decreases s.len(),
{
    if s.len() == 0 {
        -1
    } else if spec_qualifies(s.last(), bound) {
        s.len() - 1
    } else {
        spec_last_qualifying(s.drop_last(), bound)
    }
}

/// The locator's choice: the smallest qualifying candidate when one
/// exists, else the first (largest-area) candidate, else nothing.
pub open spec fn spec_select(s: Seq<Candidate>, bound: u32) -> Option<int> {
    if s.len() == 0 {
        None
    } else if spec_last_qualifying(s, bound) >= 0 {
        Some(spec_last_qualifying(s, bound))
    } else {
        Some(0int)
    }
}

proof fn lemma_last_qualifying_range(s: Seq<Candidate>, bound: u32)
    ensures
        -1 <= spec_last_qualifying(s, bound) < s.len(),
        spec_last_qualifying(s, bound) >= 0 ==> spec_qualifies(
            s[spec_last_qualifying(s, bound)],
            bound,
        ),
        forall|j: int|
            spec_last_qualifying(s, bound) < j < s.len() ==> !spec_qualifies(#[trigger] s[j], bound),
    decreases s.len(),
{
    if s.len() > 0 && !spec_qualifies(s.last(), bound) {
        lemma_last_qualifying_range(s.drop_last(), bound);
        assert(forall|j: int|
            0 <= j < s.len() - 1 ==> #[trigger] s[j] == s.drop_last()[j]);
    }
}

/// Select a candidate per the locator policy.
///
/// The result is pinned to `spec_select`, and when the list is sorted by
/// descending area the chosen candidate is the smallest qualifying one
/// (or the overall largest when none qualifies): see
/// `lemma_select_properties`.
pub fn select_candidate(cands: &Vec<Candidate>, bound: u32) -> (r: Option<usize>)
    ensures
        r is Some <==> spec_select(cands@, bound) is Some,
        r is Some ==> r->0 as int == spec_select(cands@, bound)->0,
        r is Some ==> r->0 < cands@.len(),
{
    proof {
        lemma_last_qualifying_range(cands@, bound);
        assert(cands@.take(cands@.len() as int) =~= cands@);
    }
    let mut j: usize = cands.len();
    while j > 0
        invariant
            j <= cands@.len(),
            spec_last_qualifying(cands@, bound) == spec_last_qualifying(
                cands@.take(j as int),
                bound,
            ),
        decreases j,
    {
        j = j - 1;
        let c = cands[j];
        if (if c.width >= c.height {
            c.width
        } else {
            c.height
        }) >= bound {
            proof {
                assert(cands@.take(j as int + 1).last() == cands@[j as int]);
                assert(spec_last_qualifying(cands@.take(j as int + 1), bound) == j as int);
            }
            return Some(j);
        }
        proof {
            assert(cands@.take(j as int + 1).drop_last() =~= cands@.take(j as int));
            assert(cands@.take(j as int + 1).last() == cands@[j as int]);
        }
    }
    proof {
        assert(cands@.take(0int).len() == 0);
    }
    if cands.len() > 0 {
        Some(0)
    } else {
        None
    }
}

/// Locator law. On a candidate list sorted by descending area:
/// a candidate is selected if and only if the list is non-empty; when some
/// candidate's longest edge meets the bound, the selected one meets it and
/// has the smallest area among those that do; otherwise the selected one
/// has the largest area of all.
pub proof fn lemma_select_properties(s: Seq<Candidate>, bound: u32)
    requires
        forall|i: int, j: int|
            0 <= i < j < s.len() ==> spec_area(#[trigger] s[i]) >= spec_area(#[trigger] s[j]),
    ensures
        spec_select(s, bound) is Some <==> s.len() > 0,
        spec_select(s, bound) is Some ==> 0 <= spec_select(s, bound)->0 < s.len(),
        (exists|j: int| 0 <= j < s.len() && spec_qualifies(#[trigger] s[j], bound)) ==> {
            let i = spec_select(s, bound)->0;
            &&& spec_qualifies(s[i], bound)
            &&& forall|j: int|
                0 <= j < s.len() && spec_qualifies(#[trigger] s[j], bound) ==> spec_area(s[i])
                    <= spec_area(s[j])
        },
        (s.len() > 0 && forall|j: int| 0 <= j < s.len() ==> !spec_qualifies(#[trigger] s[j], bound))
            ==> {
            let i = spec_select(s, bound)->0;
            &&& i == 0
            &&& forall|j: int| 0 <= j < s.len() ==> spec_area(#[trigger] s[j]) <= spec_area(s[i])
        },
{
    lemma_last_qualifying_range(s, bound);
    if exists|j: int| 0 <= j < s.len() && spec_qualifies(#[trigger] s[j], bound) {
        let w = choose|j: int| 0 <= j < s.len() && spec_qualifies(#[trigger] s[j], bound);
        let i = spec_last_qualifying(s, bound);
        assert(i >= w);
        assert forall|j: int|
            0 <= j < s.len() && spec_qualifies(#[trigger] s[j], bound) implies spec_area(s[i])
            <= spec_area(s[j]) by {
            assert(j <= i);
        }
    }
}

} // verus!
