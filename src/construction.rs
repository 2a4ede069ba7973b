use vstd::prelude::*;
use crate::errors::EngineError;
use crate::ids::GenericId;

verus! {

/// An immutable workflow: an ordered list of actions, and for each action and
/// each result slot it may produce, the actions that come next and their weights.
#[derive(Clone, Debug)]
pub struct Construction {
    pub actions: Vec<GenericId>,
    /// `next_actions_indices[i][j]`: the positions in `actions` that receive
    /// the `j`-th result of action `i`.
    pub next_actions_indices: Vec<Vec<Vec<u64>>>,
    /// `next_actions_splits[i][j]`: the weights by which that result is split
    /// among them.
    pub next_actions_splits: Vec<Vec<Vec<u128>>>,
}

} // verus!

verus! {

/// The next actions of result slot `j` of action `i`.
pub open spec fn children(c: Construction, i: int, j: int) -> Seq<u64> {
    c.next_actions_indices@[i]@[j]@
}

/// The weights of result slot `j` of action `i`.
pub open spec fn weights(c: Construction, i: int, j: int) -> Seq<u128> {
    c.next_actions_splits@[i]@[j]@
}

/// The number of result slots that action `i` routes.
pub open spec fn slots(c: Construction, i: int) -> int {
    c.next_actions_indices@[i]@.len() as int
}

/// Every action has one routing entry, and every routing entry has as many
/// weights as next actions.
pub open spec fn shape_ok(c: Construction) -> bool {
    &&& c.next_actions_indices@.len() == c.actions@.len()
    &&& c.next_actions_splits@.len() == c.actions@.len()
    &&& forall|i: int|
        0 <= i < c.actions@.len() ==> #[trigger] slots(c, i) == c.next_actions_splits@[i]@.len()
    &&& forall|i: int, j: int|
        0 <= i < c.actions@.len() && 0 <= j < slots(c, i) ==> #[trigger] children(c, i, j).len()
            == weights(c, i, j).len()
}

/// Every routing entry names at least one next action.
pub open spec fn children_nonempty(c: Construction) -> bool {
    forall|i: int, j: int|
        0 <= i < c.actions@.len() && 0 <= j < slots(c, i) ==> #[trigger] children(c, i, j).len() > 0
}

/// What registering `c` is refused with, if anything.
pub open spec fn structural_error(c: Construction) -> Option<EngineError> {
    if !shape_ok(c) {
        Some(EngineError::NumbNodesDneNumbSplits)
    } else if !children_nonempty(c) {
        Some(EngineError::NoChildrenSpecified)
    } else {
        None
    }
}

impl Construction {
    /// Checks the routing tables: a mismatch in number between weights and
    /// next actions anywhere is reported first, then a routing entry without
    /// next actions.
    pub fn check(&self) -> (r: Result<(), EngineError>)
        ensures
            r is Ok <==> structural_error(*self) is None,
            r matches Err(e) ==> structural_error(*self) == Some(e),
    {
        let n = self.actions.len();
        if self.next_actions_indices.len() != n || self.next_actions_splits.len() != n {
            return Err(EngineError::NumbNodesDneNumbSplits);
        }
        let mut i: usize = 0;
        while i < n
            invariant
                i <= n,
                n == self.actions@.len(),
                self.next_actions_indices@.len() == n,
                self.next_actions_splits@.len() == n,
                forall|a: int| 0 <= a < i ==> #[trigger] slots(*self, a) == self.next_actions_splits@[a]@.len(),
                forall|a: int, b: int|
                    0 <= a < i && 0 <= b < slots(*self, a) ==> #[trigger] children(*self, a, b).len()
                        == weights(*self, a, b).len(),
            decreases n - i,
        {
            let idx = &self.next_actions_indices[i];
            let spl = &self.next_actions_splits[i];
            if idx.len() != spl.len() {
                assert(slots(*self, i as int) != self.next_actions_splits@[i as int]@.len());
                return Err(EngineError::NumbNodesDneNumbSplits);
            }
            let mut j: usize = 0;
            while j < idx.len()
                invariant
                    i < n,
                    n == self.actions@.len(),
                    self.next_actions_indices@.len() == n,
                    self.next_actions_splits@.len() == n,
                    idx == self.next_actions_indices@[i as int],
                    spl == self.next_actions_splits@[i as int],
                    idx@.len() == spl@.len(),
                    j <= idx@.len(),
                    forall|b: int| 0 <= b < j ==> #[trigger] children(*self, i as int, b).len()
                        == weights(*self, i as int, b).len(),
                decreases idx@.len() - j,
            {
                if idx[j].len() != spl[j].len() {
                    assert(children(*self, i as int, j as int).len() != weights(*self, i as int, j as int).len());
                    return Err(EngineError::NumbNodesDneNumbSplits);
                }
                j = j + 1;
            }
            i = i + 1;
        }
        assert(shape_ok(*self));
        let mut i: usize = 0;
        while i < n
            invariant
                i <= n,
                n == self.actions@.len(),
                shape_ok(*self),
                forall|a: int, b: int|
                    0 <= a < i && 0 <= b < slots(*self, a) ==> #[trigger] children(*self, a, b).len() > 0,
            decreases n - i,
        {
            let idx = &self.next_actions_indices[i];
            let mut j: usize = 0;
            while j < idx.len()
                invariant
                    i < n,
                    n == self.actions@.len(),
                    shape_ok(*self),
                    idx == self.next_actions_indices@[i as int],
                    j <= idx@.len(),
                    forall|b: int| 0 <= b < j ==> #[trigger] children(*self, i as int, b).len() > 0,
                decreases idx@.len() - j,
            {
                if idx[j].len() == 0 {
                    assert(children(*self, i as int, j as int).len() == 0);
                    return Err(EngineError::NoChildrenSpecified);
                }
                j = j + 1;
            }
            i = i + 1;
        }
        Ok(())
    }
}

} // verus!

verus! {

/// A construction with a routing entry whose weights and next actions differ
/// in number, or that has no next action, is refused.
pub proof fn lemma_malformed_entry_is_refused(c: Construction, i: int, j: int)
    requires
        0 <= i < c.next_actions_indices@.len(),
        0 <= j < c.next_actions_indices@[i]@.len(),
        i < c.next_actions_splits@.len() ==> j < c.next_actions_splits@[i]@.len() ==> (children(
            c,
            i,
            j,
        ).len() != weights(c, i, j).len() || children(c, i, j).len() == 0),
    ensures
        structural_error(c) is Some,
{
    if shape_ok(c) {
        assert(slots(c, i) == c.next_actions_splits@[i]@.len());
        assert(children(c, i, j).len() == weights(c, i, j).len());
        assert(!children_nonempty(c));
    }
}

} // verus!
