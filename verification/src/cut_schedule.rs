//! The order in which the rings of a pocket are cut.
//!
//! The rings of the successive inward offsets of a region form a directed
//! graph: arrows go from a ring to the rings of the next, smaller layer that
//! it encloses (for an exterior ring) or that enclose it (for an interior
//! ring). A ring may be cut once all of its children have been cut.
use vstd::prelude::*;
use std::collections::HashSet;
use crate::jobs::RingKind;

verus! {

broadcast use vstd::std_specs::hash::group_hash_axioms;

pub struct OnionGraphNode {
    pub kind: RingKind,
    pub parent_indices: Vec<usize>,
    pub child_indices: Vec<usize>,
}

pub struct OnionGraph {
    pub items: Vec<OnionGraphNode>,
}

impl OnionGraphNode {
    pub fn from_kind(kind: RingKind) -> (n: Self)
        ensures
            n.kind == kind,
            n.parent_indices@.len() == 0,
            n.child_indices@.len() == 0,
    {
        OnionGraphNode { kind, parent_indices: Vec::new(), child_indices: Vec::new() }
    }
}

impl OnionGraph {
    /// Every index in the graph names an item, and every arrow goes from an
    /// item to a later one (the rings of a layer come after those of the
    /// layer outside it).
    pub open spec fn wf(&self) -> bool {
        forall|i: int, j: int|
            0 <= i < self.items@.len() && 0 <= j < self.items@[i].child_indices@.len() ==> i
                < #[trigger] self.items@[i].child_indices@[j] < self.items@.len()
    }

    /// Records that `parent_index` is a parent of `child_index` (an item may
    /// be recorded as its own parent; it then gets both arrows).
    pub fn add_parent_child_relationship(&mut self, parent_index: usize, child_index: usize)
        requires
            parent_index < old(self).items@.len(),
            child_index < old(self).items@.len(),
        ensures
            final(self).items@.len() == old(self).items@.len(),
            final(self).items@[parent_index as int].child_indices@ == old(self).items@[parent_index as int].child_indices@.push(child_index),
            final(self).items@[parent_index as int].kind == old(self).items@[parent_index as int].kind,
            final(self).items@[child_index as int].parent_indices@ == old(self).items@[child_index as int].parent_indices@.push(parent_index),
            final(self).items@[child_index as int].kind == old(self).items@[child_index as int].kind,
            parent_index != child_index ==> final(self).items@[parent_index as int].parent_indices@ == old(self).items@[parent_index as int].parent_indices@,
            parent_index != child_index ==> final(self).items@[child_index as int].child_indices@ == old(self).items@[child_index as int].child_indices@,
            forall|k: int|
                #![auto]
                0 <= k < old(self).items@.len() && k != parent_index && k != child_index ==> final(self).items@[k] == old(self).items@[k],
    {
        let mut parent = self.items.remove(parent_index);
        parent.child_indices.push(child_index);
        self.items.insert(parent_index, parent);
        let mut child = self.items.remove(child_index);
        child.parent_indices.push(parent_index);
        self.items.insert(child_index, child);
    }
}

pub struct CutGenerationState {
    pub graph: OnionGraph,
    pub existing_cuts: HashSet<usize>,
}

/// All children of the item with these child indices are cut.
pub open spec fn children_done(children: Seq<usize>, cuts: Set<usize>) -> bool {
    forall|j: int| 0 <= j < children.len() ==> cuts.contains(#[trigger] children[j])
}

impl CutGenerationState {
    /// The item may be cut next: it is not cut yet and its children are.
    pub open spec fn candidate(&self, index: int) -> bool {
        &&& !self.existing_cuts@.contains(index as usize)
        &&& children_done(self.graph.items@[index].child_indices@, self.existing_cuts@)
    }

    pub open spec fn candidate_pred(&self) -> spec_fn(usize) -> bool {
        |i: usize| self.candidate(i as int)
    }

    pub fn item_has_children_done(&self, item: &OnionGraphNode) -> (b: bool)
        ensures
            b == children_done(item.child_indices@, self.existing_cuts@),
    {
        let mut j: usize = 0;
        while j < item.child_indices.len()
            invariant
                j <= item.child_indices@.len(),
                forall|k: int| 0 <= k < j ==> self.existing_cuts@.contains(#[trigger] item.child_indices@[k]),
            decreases item.child_indices.len() - j,
        {
            if !self.existing_cuts.contains(&item.child_indices[j]) {
                return false;
            }
            j = j + 1;
        }
        true
    }

    pub fn is_candidate(&self, index: usize) -> (b: bool)
        requires
            index < self.graph.items@.len(),
        ensures
            b == self.candidate(index as int),
    {
        !self.existing_cuts.contains(&index) && self.item_has_children_done(
            &self.graph.items[index],
        )
    }

    /// Every item that may be cut next, in index order.
    pub fn overall_candidates(&self) -> (r: Vec<usize>)
        ensures
            r@ == Seq::new(self.graph.items@.len(), |i: int| i as usize).filter(
                self.candidate_pred(),
            ),
    {
        let n = self.graph.items.len();
        let ghost all = Seq::new(n as nat, |i: int| i as usize);
        let mut r: Vec<usize> = Vec::new();
        let mut i: usize = 0;
        while i < n
            invariant
                n == self.graph.items@.len(),
                all == Seq::new(n as nat, |i: int| i as usize),
                i <= n,
                r@ == all.take(i as int).filter(self.candidate_pred()),
            decreases n - i,
        {
            let ghost t = all.take(i as int + 1);
            assert(t.drop_last() =~= all.take(i as int));
            assert(t.last() == i);
            assert(self.candidate_pred()(i) == self.candidate(i as int));
            reveal(Seq::filter);
            assert(t.filter(self.candidate_pred()) == (if self.candidate_pred()(t.last()) {
                t.drop_last().filter(self.candidate_pred()).push(t.last())
            } else {
                t.drop_last().filter(self.candidate_pred())
            }));
            if self.is_candidate(i) {
                r.push(i);
            }
            i = i + 1;
        }
        assert(all.take(n as int) =~= all);
        r
    }

    /// The parents of `last_index` that may be cut next, in the order recorded.
    pub fn parent_candidates(&self, last_index: usize) -> (r: Vec<usize>)
        requires
            last_index < self.graph.items@.len(),
            forall|j: int|
                0 <= j < self.graph.items@[last_index as int].parent_indices@.len()
                    ==> #[trigger] self.graph.items@[last_index as int].parent_indices@[j]
                    < self.graph.items@.len(),
        ensures
            r@ == self.graph.items@[last_index as int].parent_indices@.filter(
                self.candidate_pred(),
            ),
    {
        let parents = &self.graph.items[last_index].parent_indices;
        let mut r: Vec<usize> = Vec::new();
        let mut i: usize = 0;
        while i < parents.len()
            invariant
                parents@ == self.graph.items@[last_index as int].parent_indices@,
                forall|j: int| 0 <= j < parents@.len() ==> #[trigger] parents@[j] < self.graph.items@.len(),
                i <= parents@.len(),
                r@ == parents@.take(i as int).filter(self.candidate_pred()),
            decreases parents.len() - i,
        {
            let ghost t = parents@.take(i as int + 1);
            assert(t.drop_last() =~= parents@.take(i as int));
            assert(t.last() == parents@[i as int]);
            assert(self.candidate_pred()(parents@[i as int]) == self.candidate(
                parents@[i as int] as int,
            ));
            reveal(Seq::filter);
            assert(t.filter(self.candidate_pred()) == (if self.candidate_pred()(t.last()) {
                t.drop_last().filter(self.candidate_pred()).push(t.last())
            } else {
                t.drop_last().filter(self.candidate_pred())
            }));
            if self.is_candidate(parents[i]) {
                r.push(parents[i]);
            }
            i = i + 1;
        }
        assert(parents@.take(i as int) =~= parents@);
        r
    }
}

proof fn lemma_last_uncut_is_candidate(s: CutGenerationState, k: int)
    requires
        s.graph.wf(),
        0 <= k < s.graph.items@.len(),
        !s.existing_cuts@.contains(k as usize),
    ensures
        exists|c: int| 0 <= c < s.graph.items@.len() && #[trigger] s.candidate(c),
    decreases s.graph.items@.len() - k,
{
    let children = s.graph.items@[k].child_indices@;
    if children_done(children, s.existing_cuts@) {
        assert(s.candidate(k));
    } else {
        let j = choose|j: int| 0 <= j < children.len() && !s.existing_cuts@.contains(#[trigger] children[j]);
        assert(k < children[j] < s.graph.items@.len());
        lemma_last_uncut_is_candidate(s, children[j] as int);
    }
}

/// Law: cutting never gets stuck. While some ring of a well-formed graph is
/// not cut, some ring may be cut next.
pub proof fn law_some_candidate_remains(s: CutGenerationState)
    requires
        s.graph.wf(),
        exists|k: int| 0 <= k < s.graph.items@.len() && !s.existing_cuts@.contains(#[trigger] (k as usize)),
    ensures
        exists|c: int| 0 <= c < s.graph.items@.len() && #[trigger] s.candidate(c),
{
    let k = choose|k: int| 0 <= k < s.graph.items@.len() && !s.existing_cuts@.contains(#[trigger] (k as usize));
    lemma_last_uncut_is_candidate(s, k);
}

} // verus!
