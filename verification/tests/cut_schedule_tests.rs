use std::collections::HashSet;

use cnc_control::cut_schedule::{CutGenerationState, OnionGraph, OnionGraphNode};
use cnc_control::jobs::RingKind;

/// An outer ring (0) around two pockets' rings (1, 2); ring 1 encloses ring 3.
fn graph() -> OnionGraph {
    let mut g = OnionGraph {
        items: vec![
            OnionGraphNode::from_kind(RingKind::Exterior),
            OnionGraphNode::from_kind(RingKind::Exterior),
            OnionGraphNode::from_kind(RingKind::Exterior),
            OnionGraphNode::from_kind(RingKind::Exterior),
        ],
    };
    g.add_parent_child_relationship(0, 1);
    g.add_parent_child_relationship(0, 2);
    g.add_parent_child_relationship(1, 3);
    g
}

#[test]
fn relationships_are_recorded_both_ways() {
    let g = graph();
    assert_eq!(g.items[0].child_indices, vec![1, 2]);
    assert_eq!(g.items[1].parent_indices, vec![0]);
    assert_eq!(g.items[1].child_indices, vec![3]);
    assert_eq!(g.items[3].parent_indices, vec![1]);
}

#[test]
fn innermost_rings_are_cut_first() {
    let mut s = CutGenerationState { graph: graph(), existing_cuts: HashSet::new() };
    assert_eq!(s.overall_candidates(), vec![2, 3]);
    s.existing_cuts.insert(3);
    assert_eq!(s.overall_candidates(), vec![1, 2]);
    assert_eq!(s.parent_candidates(3), vec![1]);
    assert_eq!(s.parent_candidates(1), Vec::<usize>::new());
    s.existing_cuts.insert(1);
    s.existing_cuts.insert(2);
    assert_eq!(s.overall_candidates(), vec![0]);
    assert!(s.is_candidate(0));
}

#[test]
fn cutting_never_gets_stuck() {
    // Cut whatever is a candidate until nothing is left: every ring gets cut.
    let mut s = CutGenerationState { graph: graph(), existing_cuts: HashSet::new() };
    while let Some(&next) = s.overall_candidates().first() {
        s.existing_cuts.insert(next);
    }
    assert_eq!(s.existing_cuts.len(), 4);
}

#[test]
fn an_item_may_be_its_own_parent() {
    let mut g = OnionGraph { items: vec![OnionGraphNode::from_kind(RingKind::Interior)] };
    g.add_parent_child_relationship(0, 0);
    assert_eq!(g.items[0].child_indices, vec![0]);
    assert_eq!(g.items[0].parent_indices, vec![0]);
}
