//! Choice of the route to use among scored candidates.
use vstd::prelude::*;
use crate::{PeerId, RouteScore};

verus! {

/// `i` is the first position holding the lowest score of `candidates`.
pub open spec fn is_first_best(candidates: Seq<(PeerId, RouteScore)>, i: int) -> bool {
    &&& 0 <= i < candidates.len()
    &&& forall|j: int| 0 <= j < candidates.len() ==> candidates[i].1 <= #[trigger] candidates[j].1
    &&& forall|j: int| 0 <= j < i ==> candidates[i].1 < #[trigger] candidates[j].1
}

/// Picks the peer with the lowest score; among equal lowest scores, the one
/// that comes first. `None` for an empty list.
pub fn pick_best(candidates: Vec<(PeerId, RouteScore)>) -> (r: Option<PeerId>)
    ensures
        r is None <==> candidates@.len() == 0,
        r matches Some(id) ==> exists|i: int|
            is_first_best(candidates@, i) && #[trigger] candidates@[i].0@ == id@,
{
    if candidates.len() == 0 {
        return None;
    }
    let mut best: usize = 0;
    let mut k: usize = 1;
    while k < candidates.len()
        invariant
            1 <= k <= candidates@.len(),
            best < k,
            forall|j: int| 0 <= j < k ==> candidates@[best as int].1 <= #[trigger] candidates@[j].1,
            forall|j: int| 0 <= j < best ==> candidates@[best as int].1 < #[trigger] candidates@[j].1,
        decreases candidates@.len() - k,
    {
        if candidates[k].1 < candidates[best].1 {
            best = k;
        }
        k = k + 1;
    }
    let id = candidates[best].0.clone();
    assert(is_first_best(candidates@, best as int));
    assert(candidates@[best as int].0@ == id@);
    Some(id)
}

} // verus!
