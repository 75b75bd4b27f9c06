//! What a state must offer to be searched.

use std::cmp::Ordering;
use vstd::prelude::*;
use vstd::std_specs::cmp::{PartialEqSpecImpl, PartialOrdSpecImpl};

pub use vstd::view::View;

verus! {

/// A state of a search. Its view is all that the search depends on: score, key and
/// successors are functions of the view alone.
pub trait SearchNode: Sized + View {
    /// The priority of a state. Higher scores are explored first.
    spec fn score_of(state: Self::V) -> i64;

    /// The fingerprint by which a state is recognised as already explored. Two states
    /// with the same key count as one, whether or not they are equal.
    spec fn key_of(state: Self::V) -> u64;

    /// The states one move away, in the order in which `expand` yields them.
    spec fn successors_of(state: Self::V) -> Successors<Self::V>;

    /// The states one move away from this one. None means that the state is complete or
    /// a dead end.
    fn expand(&self) -> (children: Vec<Self>)
        ensures
            views(children@) == Self::successors_of(self@),
    ;

    /// The priority of this state.
    fn score(&self) -> (score: i64)
        ensures
            score == Self::score_of(self@),
    ;

    /// The fingerprint of this state.
    fn key(&self) -> (key: u64)
        ensures
            key == Self::key_of(self@),
    ;
}

/// A sequence of states, as `successors_of` gives it.
pub type Successors<V> = Seq<V>;

/// The views of a sequence of values, in the same order.
pub open spec fn views<T: View>(items: Seq<T>) -> Seq<T::V> {
    Seq::new(items.len(), |i: int| items[i]@)
}

/// A node ordered by its score alone, so that any two nodes can be compared.
#[derive(Debug)]
pub struct ScoredNode<T: SearchNode>(pub T);

impl<T: SearchNode> View for ScoredNode<T> {
    type V = T::V;

    open spec fn view(&self) -> T::V {
        self.0@
    }
}

impl<T: SearchNode> PartialEq for ScoredNode<T> {
    /// Two nodes are equal when their scores are.
    fn eq(&self, other: &Self) -> (equal: bool) {
        self.0.score() == other.0.score()
    }
}

impl<T: SearchNode> PartialEqSpecImpl for ScoredNode<T> {
    open spec fn obeys_eq_spec() -> bool {
        true
    }

    open spec fn eq_spec(&self, other: &Self) -> bool {
        T::score_of(self.0@) == T::score_of(other.0@)
    }
}

impl<T: SearchNode> PartialOrd for ScoredNode<T> {
    /// Nodes compare as their scores do.
    fn partial_cmp(&self, other: &Self) -> (order: Option<Ordering>) {
        let mine: i64 = self.0.score();
        let theirs: i64 = other.0.score();
        if mine < theirs {
            Some(Ordering::Less)
        } else if mine == theirs {
            Some(Ordering::Equal)
        } else {
            Some(Ordering::Greater)
        }
    }
}

impl<T: SearchNode> PartialOrdSpecImpl for ScoredNode<T> {
    open spec fn obeys_partial_cmp_spec() -> bool {
        true
    }

    open spec fn partial_cmp_spec(&self, other: &Self) -> Option<Ordering> {
        if T::score_of(self.0@) < T::score_of(other.0@) {
            Some(Ordering::Less)
        } else if T::score_of(self.0@) == T::score_of(other.0@) {
            Some(Ordering::Equal)
        } else {
            Some(Ordering::Greater)
        }
    }
}

} // verus!
