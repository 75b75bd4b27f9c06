//! The search loop: take the best open node, skip it if its key was seen, otherwise
//! mark it, expand it and open its unseen children.

use crate::search::frontier::Frontier;
use crate::search::node::{views, SearchNode};
use std::collections::HashSet;
use std::marker::PhantomData;
use vstd::prelude::*;

verus! {

/// The state of a search: the frontier, the keys explored so far, and how many nodes
/// were expanded.
pub struct EngineModel<S> {
    pub frontier: S,
    pub visited: Set<u64>,
    pub steps: nat,
}

/// The keys explored so far, and how many there are.
struct Visited {
    keys: HashSet<u64>,
    step_count: usize,
}

impl Visited {
    /// Every step that was counted marked one new key.
    #[verifier::type_invariant]
    spec fn counted(self) -> bool {
        self.keys@.finite() && self.step_count == self.keys@.len()
    }

    /// No key.
    fn new() -> (visited: Self)
        ensures
            visited.keys@ == Set::<u64>::empty(),
            visited.step_count == 0,
    {
        Visited { keys: HashSet::new(), step_count: 0 }
    }

    /// Whether `key` is marked.
    fn contains(&self, key: u64) -> (marked: bool)
        ensures
            marked == self.keys@.contains(key),
    {
        self.keys.contains(&key)
    }

    /// Marks `key`, which was not marked, and counts the step.
    fn mark(&mut self, key: u64)
        requires
            !old(self).keys@.contains(key),
        ensures
            final(self).keys@ == old(self).keys@.insert(key),
            final(self).step_count == old(self).step_count + 1,
    {
        proof {
            use_type_invariant(&*self);
        }
        let mut taken = Visited::new();
        core::mem::swap(self, &mut taken);
        let Visited { keys, step_count } = taken;
        let mut keys = keys;
        keys.insert(key);
        proof {
            vstd::std_specs::hash::axiom_spec_hash_set_len(&keys);
        }
        *self = Visited { keys, step_count: step_count + 1 };
    }
}

/// A best-first search that the caller drives one step at a time.
pub struct SearchEngine<T, F> where T: SearchNode, F: Frontier<T> {
    frontier: F,
    visited: Visited,
    _marker: PhantomData<T>,
}

impl<T, F> View for SearchEngine<T, F> where T: SearchNode, F: Frontier<T> {
    type V = EngineModel<F::V>;

    closed spec fn view(&self) -> EngineModel<F::V> {
        EngineModel {
            frontier: self.frontier@,
            visited: self.visited.keys@,
            steps: self.visited.step_count as nat,
        }
    }
}

impl<T, F> SearchEngine<T, F> where T: SearchNode, F: Frontier<T> {
    /// The states a search can be in: every expansion marked one new key.
    pub open spec fn valid(state: EngineModel<F::V>) -> bool {
        &&& F::ordered(state.frontier)
        &&& state.visited.finite()
        &&& state.steps == state.visited.len()
    }

    /// The frontier after the children whose key is not in `visited` have been pushed,
    /// first child first.
    pub open spec fn offered(frontier: F::V, children: Seq<T::V>, visited: Set<u64>) -> F::V
        decreases children.len(),
    {
        if children.len() == 0 {
            frontier
        } else {
            let before = Self::offered(frontier, children.drop_last(), visited);
            if visited.contains(T::key_of(children.last())) {
                before
            } else {
                F::after_push(before, children.last())
            }
        }
    }

    /// The state after one step.
    pub open spec fn stepped(state: EngineModel<F::V>) -> EngineModel<F::V> {
        if F::open_set(state.frontier).len() == 0 {
            state
        } else {
            let node = F::best(state.frontier);
            let rest = F::after_pop(state.frontier);
            if state.visited.contains(T::key_of(node)) {
                EngineModel { frontier: rest, visited: state.visited, steps: state.steps }
            } else {
                let visited = state.visited.insert(T::key_of(node));
                EngineModel {
                    frontier: Self::offered(rest, T::successors_of(node), visited),
                    visited,
                    steps: state.steps + 1,
                }
            }
        }
    }

    /// The state after `count` steps.
    pub open spec fn stepped_times(state: EngineModel<F::V>, count: nat) -> EngineModel<F::V>
        decreases count,
    {
        if count == 0 {
            state
        } else {
            Self::stepped(Self::stepped_times(state, (count - 1) as nat))
        }
    }

    /// The node that a step expands: the best open node, unless none is open or its
    /// key is marked.
    pub open spec fn expanded(state: EngineModel<F::V>) -> Option<T::V> {
        if F::open_set(state.frontier).len() > 0 && !state.visited.contains(
            T::key_of(F::best(state.frontier)),
        ) {
            Some(F::best(state.frontier))
        } else {
            None
        }
    }

    /// The nodes that the first `count` steps expand, in the order in which they are
    /// expanded.
    pub open spec fn visit_order(state: EngineModel<F::V>, count: nat) -> Seq<T::V>
        decreases count,
    {
        if count == 0 {
            Seq::empty()
        } else {
            let before = Self::visit_order(state, (count - 1) as nat);
            match Self::expanded(Self::stepped_times(state, (count - 1) as nat)) {
                Some(node) => before.push(node),
                None => before,
            }
        }
    }

    /// The steps that are counted are those that expand a node.
    pub proof fn lemma_steps_count_visits(state: EngineModel<F::V>, count: nat)
        ensures
            Self::stepped_times(state, count).steps == state.steps + Self::visit_order(
                state,
                count,
            ).len(),
        decreases count,
    {
        if count > 0 {
            Self::lemma_steps_count_visits(state, (count - 1) as nat);
        }
    }

    /// Offering children to a frontier leaves it in a state a frontier can be in.
    pub proof fn lemma_offered_ordered(frontier: F::V, children: Seq<T::V>, visited: Set<u64>)
        requires
            F::ordered(frontier),
        ensures
            F::ordered(Self::offered(frontier, children, visited)),
        decreases children.len(),
    {
        if children.len() > 0 {
            Self::lemma_offered_ordered(frontier, children.drop_last(), visited);
            if !visited.contains(T::key_of(children.last())) {
                F::lemma_push(
                    Self::offered(frontier, children.drop_last(), visited),
                    children.last(),
                );
            }
        }
    }

    /// A step takes a search from one state it can be in to another.
    pub proof fn lemma_step_keeps_valid(state: EngineModel<F::V>)
        requires
            Self::valid(state),
        ensures
            Self::valid(Self::stepped(state)),
    {
        if F::open_set(state.frontier).len() > 0 {
            F::lemma_pop(state.frontier);
            let node = F::best(state.frontier);
            if !state.visited.contains(T::key_of(node)) {
                Self::lemma_offered_ordered(
                    F::after_pop(state.frontier),
                    T::successors_of(node),
                    state.visited.insert(T::key_of(node)),
                );
            }
        }
    }

    /// A key that is marked stays marked, however many steps follow.
    pub proof fn lemma_visited_never_shrinks(state: EngineModel<F::V>, count: nat)
        ensures
            state.visited.subset_of(Self::stepped_times(state, count).visited),
        decreases count,
    {
        if count > 0 {
            Self::lemma_visited_never_shrinks(state, (count - 1) as nat);
        }
    }

    /// Once `key` is marked, a later pop of a node with that key only drops the node:
    /// nothing is marked, counted or opened.
    pub proof fn lemma_second_pop_is_discarded(state: EngineModel<F::V>, count: nat, key: u64)
        requires
            state.visited.contains(key),
            F::open_set(Self::stepped_times(state, count).frontier).len() > 0,
            T::key_of(F::best(Self::stepped_times(state, count).frontier)) == key,
        ensures
            ({
                let later = Self::stepped_times(state, count);
                Self::stepped(later) == (EngineModel {
                    frontier: F::after_pop(later.frontier),
                    visited: later.visited,
                    steps: later.steps,
                })
            }),
    {
        Self::lemma_visited_never_shrinks(state, count);
    }

    /// Two searches that start in the same state expand the same nodes in the same
    /// order, and are in the same state after the same number of steps: a run is a
    /// function of its start.
    pub proof fn lemma_same_start_same_run(
        first: EngineModel<F::V>,
        second: EngineModel<F::V>,
        count: nat,
    )
        requires
            first == second,
        ensures
            Self::stepped_times(first, count) == Self::stepped_times(second, count),
            Self::visit_order(first, count) == Self::visit_order(second, count),
            Self::stepped_times(first, count + 1) == Self::stepped(
                Self::stepped_times(second, count),
            ),
    {
    }

    /// Starts a search: opens `root` on `frontier`, with no key explored.
    pub fn with_root(frontier: F, root: T) -> (engine: Self)
        ensures
            Self::valid(engine@),
            engine@ == (EngineModel {
                frontier: F::after_push(frontier@, root@),
                visited: Set::<u64>::empty(),
                steps: 0,
            }),
    {
        let mut frontier = frontier;
        frontier.push(root);
        SearchEngine { frontier, visited: Visited::new(), _marker: PhantomData }
    }

    /// Takes one step. With no open node this does nothing. A node whose key was
    /// explored before is dropped, and the step is not counted. Any other node has its
    /// key marked, is expanded, and has each child with an unmarked key opened.
    pub fn step(&mut self)
        ensures
            final(self)@ == Self::stepped(old(self)@),
            Self::valid(final(self)@),
    {
        proof {
            use_type_invariant(&self.visited);
        }
        let node = match self.frontier.pop() {
            None => {
                return ;
            },
            Some(node) => node,
        };
        let key: u64 = node.key();
        if self.visited.contains(key) {
            return ;
        }
        self.visited.mark(key);
        let children: Vec<T> = node.expand();
        let ghost rest = self.frontier@;
        let ghost all = views(children@);
        for child in it: children
            invariant
                it.seq() == children@,
                all == views(children@),
                F::ordered(self.frontier@),
                self.frontier@ == Self::offered(
                    rest,
                    all.take(it.index() as int),
                    self.visited.keys@,
                ),
                self.visited.keys@ == old(self).visited.keys@.insert(key),
                self.visited.step_count == old(self).visited.step_count + 1,
        {
            proof {
                let upto = all.take(it.index() as int + 1);
                assert(upto.drop_last() =~= all.take(it.index() as int));
                assert(upto.last() == child@);
            }
            let child_key: u64 = child.key();
            if !self.visited.contains(child_key) {
                self.frontier.push(child);
            }
        }
        proof {
            assert(all.take(all.len() as int) =~= all);
            use_type_invariant(&self.visited);
        }
    }

    /// The number of open nodes.
    pub fn frontier_len(&self) -> (count: usize)
        ensures
            count == F::open_set(self@.frontier).len(),
            Self::valid(self@),
    {
        proof {
            use_type_invariant(&self.visited);
        }
        self.frontier.len()
    }

    /// The number of nodes expanded so far.
    pub fn steps(&self) -> (count: usize)
        ensures
            count == self@.steps,
            count == self@.visited.len(),
    {
        proof {
            use_type_invariant(&self.visited);
        }
        self.visited.step_count
    }
}

} // verus!
