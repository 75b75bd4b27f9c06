//! The open set of a search: nodes found and not yet explored, handed back best first.

use crate::search::node::{views, ScoredNode, SearchNode};
use vstd::multiset::Multiset;
use vstd::prelude::*;

verus! {

/// An open set that hands back its best-scoring node first.
///
/// The view of a frontier is its whole state. What `push` and `pop` do to it is given
/// by spec functions of that state, so that a search over a frontier can be replayed.
/// The two laws say what every such frontier owes: a push adds at most the pushed
/// node (a bounded frontier may drop nodes), and a pop takes one node that no other
/// open node outscores.
pub trait Frontier<T: SearchNode>: Sized + View {
    /// The nodes that are open in a given state.
    spec fn open_set(state: Self::V) -> Multiset<T::V>;

    /// The states that a frontier can be in.
    spec fn ordered(state: Self::V) -> bool;

    /// The state after `node` has been pushed.
    spec fn after_push(state: Self::V, node: T::V) -> Self::V;

    /// The node that a pop yields from a state with an open node.
    spec fn best(state: Self::V) -> T::V;

    /// The state after a pop from a state with an open node.
    spec fn after_pop(state: Self::V) -> Self::V;

    /// A push opens no node but the pushed one.
    proof fn lemma_push(state: Self::V, node: T::V)
        requires
            Self::ordered(state),
        ensures
            Self::ordered(Self::after_push(state, node)),
            Self::open_set(Self::after_push(state, node)).subset_of(
                Self::open_set(state).insert(node),
            ),
    ;

    /// A pop takes one open node, and no open node has a higher score.
    proof fn lemma_pop(state: Self::V)
        requires
            Self::ordered(state),
            Self::open_set(state).len() > 0,
        ensures
            Self::ordered(Self::after_pop(state)),
            Self::open_set(state).contains(Self::best(state)),
            forall|other: T::V| #[trigger]
                Self::open_set(state).contains(other) ==> T::score_of(other) <= T::score_of(
                    Self::best(state),
                ),
            Self::open_set(Self::after_pop(state)) == Self::open_set(state).remove(
                Self::best(state),
            ),
    ;

    /// Opens `node`.
    fn push(&mut self, node: T)
        ensures
            final(self)@ == Self::after_push(old(self)@, node@),
            Self::ordered(final(self)@),
    ;

    /// Takes the best open node, or `None` when no node is open.
    fn pop(&mut self) -> (node: Option<T>)
        ensures
            Self::ordered(final(self)@),
            Self::open_set(old(self)@).len() == 0 ==> node is None && final(self)@ == old(self)@,
            Self::open_set(old(self)@).len() > 0 ==> node is Some && node.unwrap()@ == Self::best(
                old(self)@,
            ) && final(self)@ == Self::after_pop(old(self)@),
    ;

    /// The number of open nodes.
    fn len(&self) -> (count: usize)
        ensures
            count == Self::open_set(self@).len(),
            Self::ordered(self@),
    ;

    /// Whether no node is open.
    fn is_empty(&self) -> (empty: bool)
        ensures
            empty == (Self::open_set(self@).len() == 0),
    {
        self.len() == 0
    }
}

/// The score of the node at `index`.
pub open spec fn score_at<T: SearchNode>(nodes: Seq<T::V>, index: int) -> int {
    T::score_of(nodes[index]) as int
}

/// The index of the parent of `index` in a binary heap laid out in a sequence.
pub open spec fn parent(index: int) -> int {
    (index - 1) / 2
}

/// No node outscores its parent.
pub open spec fn is_heap<T: SearchNode>(nodes: Seq<T::V>) -> bool {
    forall|i: int| 0 < i < nodes.len() ==> score_at::<T>(nodes, parent(i)) >= #[trigger] score_at::<T>(nodes, i)
}

/// `nodes` with the entries at `i` and `j` exchanged.
pub open spec fn swapped<V>(nodes: Seq<V>, i: int, j: int) -> Seq<V> {
    nodes.update(i, nodes[j]).update(j, nodes[i])
}

/// Moves the node at `index` towards the root for as long as it outscores its parent.
pub open spec fn sift_up<T: SearchNode>(nodes: Seq<T::V>, index: int) -> Seq<T::V>
    decreases index,
{
    if 0 < index < nodes.len() && score_at::<T>(nodes, index) > score_at::<T>(nodes, parent(index)) {
        sift_up::<T>(swapped(nodes, index, parent(index)), parent(index))
    } else {
        nodes
    }
}

/// The child of `index` with the higher score; the left one when they tie or when it
/// is the only one. Past the end of `nodes` when `index` has no child.
pub open spec fn larger_child<T: SearchNode>(nodes: Seq<T::V>, index: int) -> int {
    let left = 2 * index + 1;
    let right = 2 * index + 2;
    if right < nodes.len() && score_at::<T>(nodes, right) > score_at::<T>(nodes, left) {
        right
    } else {
        left
    }
}

/// Moves the node at `index` away from the root for as long as a child outscores it.
pub open spec fn sift_down<T: SearchNode>(nodes: Seq<T::V>, index: int) -> Seq<T::V>
    decreases nodes.len() - index,
{
    let child = larger_child::<T>(nodes, index);
    if 0 <= index && child < nodes.len() && score_at::<T>(nodes, child) > score_at::<T>(nodes, index) {
        sift_down::<T>(swapped(nodes, index, child), child)
    } else {
        nodes
    }
}

/// A heap but for the node at `index`, which may outscore its parent.
pub open spec fn heap_but_above<T: SearchNode>(nodes: Seq<T::V>, index: int) -> bool {
    &&& forall|j: int|
        0 < j < nodes.len() && j != index ==> score_at::<T>(nodes, parent(j)) >= #[trigger] score_at::<T>(
            nodes,
            j,
        )
    &&& forall|j: int|
        0 < j < nodes.len() && parent(j) == index && index > 0 ==> score_at::<T>(
            nodes,
            parent(index),
        ) >= #[trigger] score_at::<T>(nodes, j)
}

/// A heap but for the node at `index`, which its children may outscore.
pub open spec fn heap_but_below<T: SearchNode>(nodes: Seq<T::V>, index: int) -> bool {
    &&& forall|j: int|
        0 < j < nodes.len() && parent(j) != index ==> score_at::<T>(nodes, parent(j)) >= #[trigger] score_at::<T>(
            nodes,
            j,
        )
    &&& forall|j: int|
        0 < j < nodes.len() && parent(j) == index && index > 0 ==> score_at::<T>(
            nodes,
            parent(index),
        ) >= #[trigger] score_at::<T>(nodes, j)
}

/// Replacing one entry trades it for the new one in the multiset.
pub proof fn lemma_update_multiset<V>(nodes: Seq<V>, index: int, value: V)
    requires
        0 <= index < nodes.len(),
    ensures
        nodes.update(index, value).to_multiset() == nodes.to_multiset().remove(nodes[index]).insert(
            value,
        ),
{
    broadcast use vstd::seq_lib::group_to_multiset_ensures;

    let updated = nodes.update(index, value);
    assert(updated.remove(index) =~= nodes.remove(index));
    assert(updated.remove(index).to_multiset() == updated.to_multiset().remove(value));
    assert(nodes.remove(index).to_multiset() == nodes.to_multiset().remove(nodes[index]));
    assert(updated.contains(value)) by {
        assert(updated[index] == value);
    }
    assert(updated.to_multiset().count(value) > 0);
    assert(updated.to_multiset() =~= updated.to_multiset().remove(value).insert(value));
}

/// Exchanging two entries keeps the multiset.
pub proof fn lemma_swapped_multiset<V>(nodes: Seq<V>, i: int, j: int)
    requires
        0 <= i < nodes.len(),
        0 <= j < nodes.len(),
    ensures
        swapped(nodes, i, j).to_multiset() == nodes.to_multiset(),
        swapped(nodes, i, j).len() == nodes.len(),
{
    broadcast use vstd::seq_lib::group_to_multiset_ensures;

    if i == j {
        assert(swapped(nodes, i, j) =~= nodes);
    } else {
        let first = nodes.update(i, nodes[j]);
        lemma_update_multiset(nodes, i, nodes[j]);
        lemma_update_multiset(first, j, nodes[i]);
        assert(nodes.contains(nodes[i]));
        assert(nodes.contains(nodes[j]));
        assert(nodes.to_multiset().count(nodes[i]) > 0);
        assert(nodes.to_multiset().count(nodes[j]) > 0);
        assert(first[j] == nodes[j]);
        assert(swapped(nodes, i, j).to_multiset() =~= nodes.to_multiset());
    }
}

/// Sifting up keeps the nodes and restores the heap.
pub proof fn lemma_sift_up<T: SearchNode>(nodes: Seq<T::V>, index: int)
    requires
        0 <= index < nodes.len(),
        heap_but_above::<T>(nodes, index),
    ensures
        is_heap::<T>(sift_up::<T>(nodes, index)),
        sift_up::<T>(nodes, index).to_multiset() == nodes.to_multiset(),
        sift_up::<T>(nodes, index).len() == nodes.len(),
    decreases index,
{
    let up = parent(index);
    if 0 < index && score_at::<T>(nodes, index) > score_at::<T>(nodes, up) {
        let next = swapped(nodes, index, up);
        lemma_swapped_multiset(nodes, index, up);
        assert forall|j: int| 0 < j < next.len() && j != up implies score_at::<T>(next, parent(j))
            >= #[trigger] score_at::<T>(next, j) by {
            if j == index {
            } else if parent(j) == index {
                assert(score_at::<T>(nodes, up) >= score_at::<T>(nodes, j));
            } else if parent(j) == up {
                assert(score_at::<T>(nodes, up) >= score_at::<T>(nodes, j));
            } else {
                assert(score_at::<T>(nodes, parent(j)) >= score_at::<T>(nodes, j));
            }
        }
        assert forall|j: int| 0 < j < next.len() && parent(j) == up && up > 0 implies score_at::<T>(
            next,
            parent(up),
        ) >= #[trigger] score_at::<T>(next, j) by {
            assert(score_at::<T>(nodes, parent(up)) >= score_at::<T>(nodes, up));
            if j != index {
                assert(score_at::<T>(nodes, up) >= score_at::<T>(nodes, j));
            }
        }
        lemma_sift_up::<T>(next, up);
    } else {
        assert forall|j: int| 0 < j < nodes.len() implies score_at::<T>(nodes, parent(j))
            >= #[trigger] score_at::<T>(nodes, j) by {
            if j != index {
                assert(score_at::<T>(nodes, parent(j)) >= score_at::<T>(nodes, j));
            }
        }
    }
}

/// Sifting down keeps the nodes and restores the heap.
pub proof fn lemma_sift_down<T: SearchNode>(nodes: Seq<T::V>, index: int)
    requires
        0 <= index,
        heap_but_below::<T>(nodes, index),
    ensures
        is_heap::<T>(sift_down::<T>(nodes, index)),
        sift_down::<T>(nodes, index).to_multiset() == nodes.to_multiset(),
        sift_down::<T>(nodes, index).len() == nodes.len(),
    decreases nodes.len() - index,
{
    let child = larger_child::<T>(nodes, index);
    if child < nodes.len() && score_at::<T>(nodes, child) > score_at::<T>(nodes, index) {
        let next = swapped(nodes, index, child);
        lemma_swapped_multiset(nodes, index, child);
        assert(parent(child) == index);
        assert forall|j: int| 0 < j < next.len() && parent(j) != child implies score_at::<T>(
            next,
            parent(j),
        ) >= #[trigger] score_at::<T>(next, j) by {
            if j == child {
            } else if j == index {
                assert(score_at::<T>(nodes, parent(index)) >= score_at::<T>(nodes, child));
            } else if parent(j) == index {
                assert(j == 2 * index + 1 || j == 2 * index + 2);
                assert(score_at::<T>(nodes, child) >= score_at::<T>(nodes, j));
            } else {
                assert(score_at::<T>(nodes, parent(j)) >= score_at::<T>(nodes, j));
            }
        }
        assert forall|j: int| 0 < j < next.len() && parent(j) == child && child > 0 implies score_at::<T>(
            next,
            parent(child),
        ) >= #[trigger] score_at::<T>(next, j) by {
            assert(score_at::<T>(nodes, child) >= score_at::<T>(nodes, j));
        }
        lemma_sift_down::<T>(next, child);
    } else {
        assert forall|j: int| 0 < j < nodes.len() implies score_at::<T>(nodes, parent(j))
            >= #[trigger] score_at::<T>(nodes, j) by {
            if parent(j) == index {
                assert(j == 2 * index + 1 || j == 2 * index + 2);
                assert(child < nodes.len());
                assert(score_at::<T>(nodes, child) >= score_at::<T>(nodes, j));
            } else {
                assert(score_at::<T>(nodes, parent(j)) >= score_at::<T>(nodes, j));
            }
        }
    }
}

/// No node of a heap outscores the root.
pub proof fn lemma_root_is_best<T: SearchNode>(nodes: Seq<T::V>, index: int)
    requires
        is_heap::<T>(nodes),
        0 <= index < nodes.len(),
    ensures
        score_at::<T>(nodes, index) <= score_at::<T>(nodes, 0),
    decreases index,
{
    if index > 0 {
        assert(score_at::<T>(nodes, parent(index)) >= score_at::<T>(nodes, index));
        lemma_root_is_best::<T>(nodes, parent(index));
    }
}

/// The heap after `node` has been pushed onto `nodes`.
pub open spec fn heap_after_push<T: SearchNode>(nodes: Seq<T::V>, node: T::V) -> Seq<T::V> {
    sift_up::<T>(nodes.push(node), nodes.len() as int)
}

/// The heap after the root has been taken from `nodes`.
pub open spec fn heap_after_pop<T: SearchNode>(nodes: Seq<T::V>) -> Seq<T::V> {
    if nodes.len() <= 1 {
        Seq::empty()
    } else {
        sift_down::<T>(nodes.drop_last().update(0, nodes.last()), 0)
    }
}

/// A push onto a heap gives a heap that holds the old nodes and the new one.
pub proof fn lemma_heap_push<T: SearchNode>(nodes: Seq<T::V>, node: T::V)
    requires
        is_heap::<T>(nodes),
    ensures
        is_heap::<T>(heap_after_push::<T>(nodes, node)),
        heap_after_push::<T>(nodes, node).to_multiset() == nodes.to_multiset().insert(node),
        heap_after_push::<T>(nodes, node).len() == nodes.len() + 1,
{
    broadcast use vstd::seq_lib::group_to_multiset_ensures;

    let grown = nodes.push(node);
    let last = nodes.len() as int;
    assert forall|j: int| 0 < j < grown.len() && j != last implies score_at::<T>(grown, parent(j))
        >= #[trigger] score_at::<T>(grown, j) by {
        assert(score_at::<T>(nodes, parent(j)) >= score_at::<T>(nodes, j));
    }
    lemma_sift_up::<T>(grown, last);
}

/// A pop from a heap takes the root and gives a heap of the other nodes.
pub proof fn lemma_heap_pop<T: SearchNode>(nodes: Seq<T::V>)
    requires
        is_heap::<T>(nodes),
        nodes.len() > 0,
    ensures
        is_heap::<T>(heap_after_pop::<T>(nodes)),
        heap_after_pop::<T>(nodes).to_multiset() == nodes.to_multiset().remove(nodes[0]),
        heap_after_pop::<T>(nodes).len() == nodes.len() - 1,
{
    broadcast use vstd::seq_lib::group_to_multiset_ensures;

    if nodes.len() == 1 {
        assert(nodes.remove(0) =~= Seq::<T::V>::empty());
        assert(nodes.remove(0).to_multiset() == nodes.to_multiset().remove(nodes[0]));
    } else {
        let shorter = nodes.drop_last();
        let moved = shorter.update(0, nodes.last());
        assert forall|j: int| 0 < j < moved.len() && parent(j) != 0 implies score_at::<T>(
            moved,
            parent(j),
        ) >= #[trigger] score_at::<T>(moved, j) by {
            assert(score_at::<T>(nodes, parent(j)) >= score_at::<T>(nodes, j));
        }
        lemma_sift_down::<T>(moved, 0);
        lemma_update_multiset(shorter, 0, nodes.last());
        assert(shorter.push(nodes.last()) =~= nodes);
        assert(nodes.to_multiset() == shorter.to_multiset().insert(nodes.last()));
        assert(shorter.contains(shorter[0]));
        assert(shorter.to_multiset().count(nodes[0]) > 0);
        assert(moved.to_multiset() =~= nodes.to_multiset().remove(nodes[0]));
    }
}

/// Exchanges the entries at `i` and `j`.
fn swap_entries<T>(entries: &mut Vec<T>, i: usize, j: usize)
    requires
        i < j < old(entries).len(),
    ensures
        final(entries)@ == swapped(old(entries)@, i as int, j as int),
{
    let (low, high) = entries.as_mut_slice().split_at_mut(j);
    core::mem::swap(&mut low[i], &mut high[0]);
}

/// Restores the heap after the entry at `start` has been raised.
fn sift_up_entries<T: SearchNode>(entries: &mut Vec<ScoredNode<T>>, start: usize)
    requires
        start < old(entries).len(),
    ensures
        views(final(entries)@) == sift_up::<T>(views(old(entries)@), start as int),
{
    let mut index: usize = start;
    let mut done: bool = false;
    while index > 0 && !done
        invariant
            index < entries.len(),
            sift_up::<T>(views(entries@), index as int) == sift_up::<T>(
                views(old(entries)@),
                start as int,
            ),
            done ==> sift_up::<T>(views(entries@), index as int) == views(entries@),
        decreases index + (if done { 0int } else { 1int }),
    {
        let up: usize = (index - 1) / 2;
        if entries[up] < entries[index] {
            let ghost before = views(entries@);
            swap_entries(entries, up, index);
            assert(views(entries@) =~= swapped(before, index as int, up as int));
            index = up;
        } else {
            done = true;
        }
    }
}

/// Restores the heap after the entry at `start` has been lowered.
fn sift_down_entries<T: SearchNode>(entries: &mut Vec<ScoredNode<T>>, start: usize)
    requires
        start < old(entries).len(),
    ensures
        views(final(entries)@) == sift_down::<T>(views(old(entries)@), start as int),
{
    let count: usize = entries.len();
    let mut index: usize = start;
    let mut done: bool = false;
    while !done
        invariant
            entries.len() == count,
            index < count,
            sift_down::<T>(views(entries@), index as int) == sift_down::<T>(
                views(old(entries)@),
                start as int,
            ),
            done ==> sift_down::<T>(views(entries@), index as int) == views(entries@),
        decreases count - index + (if done { 0int } else { 1int }),
    {
        if index < count / 2 {
            let left: usize = 2 * index + 1;
            let right: usize = left + 1;
            let child: usize = if right < count && entries[left] < entries[right] {
                right
            } else {
                left
            };
            assert(child as int == larger_child::<T>(views(entries@), index as int));
            if entries[index] < entries[child] {
                let ghost before = views(entries@);
                swap_entries(entries, index, child);
                assert(views(entries@) =~= swapped(before, index as int, child as int));
                index = child;
            } else {
                done = true;
            }
        } else {
            done = true;
        }
    }
}

/// A frontier kept as a binary max-heap on the nodes' scores.
pub struct HeapFrontier<T: SearchNode> {
    heap: Vec<ScoredNode<T>>,
}

impl<T: SearchNode> View for HeapFrontier<T> {
    type V = Seq<T::V>;

    /// The open nodes in the order in which the heap stores them, root first.
    closed spec fn view(&self) -> Seq<T::V> {
        views(self.heap@)
    }
}

impl<T: SearchNode> HeapFrontier<T> {
    /// No stored node outscores its parent.
    #[verifier::type_invariant]
    spec fn heap_ordered(self) -> bool {
        is_heap::<T>(views(self.heap@))
    }

    /// A frontier with no open node.
    pub fn new() -> (frontier: Self)
        ensures
            frontier@ == Seq::<T::V>::empty(),
    {
        let frontier = HeapFrontier { heap: Vec::new() };
        assert(views(frontier.heap@) =~= Seq::<T::V>::empty());
        frontier
    }
}

impl<T: SearchNode> Default for HeapFrontier<T> {
    fn default() -> (frontier: Self)
        ensures
            frontier@ == Seq::<T::V>::empty(),
    {
        Self::new()
    }
}

impl<T: SearchNode> Frontier<T> for HeapFrontier<T> {
    open spec fn open_set(state: Seq<T::V>) -> Multiset<T::V> {
        state.to_multiset()
    }

    open spec fn ordered(state: Seq<T::V>) -> bool {
        is_heap::<T>(state)
    }

    open spec fn after_push(state: Seq<T::V>, node: T::V) -> Seq<T::V> {
        heap_after_push::<T>(state, node)
    }

    open spec fn best(state: Seq<T::V>) -> T::V {
        state[0]
    }

    open spec fn after_pop(state: Seq<T::V>) -> Seq<T::V> {
        heap_after_pop::<T>(state)
    }

    proof fn lemma_push(state: Seq<T::V>, node: T::V) {
        lemma_heap_push::<T>(state, node);
    }

    proof fn lemma_pop(state: Seq<T::V>) {
        broadcast use vstd::seq_lib::group_to_multiset_ensures;

        lemma_heap_pop::<T>(state);
        assert(state.contains(state[0]));
        assert forall|other: T::V| #[trigger]
            state.to_multiset().contains(other) implies T::score_of(other) <= T::score_of(
            state[0],
        ) by {
            assert(state.contains(other));
            let i = choose|i: int| 0 <= i < state.len() && state[i] == other;
            lemma_root_is_best::<T>(state, i);
        }
    }

    fn push(&mut self, node: T)
        ensures
            final(self)@.to_multiset() == old(self)@.to_multiset().insert(node@),
            final(self)@.len() == old(self)@.len() + 1,
    {
        proof {
            use_type_invariant(&*self);
            lemma_heap_push::<T>(self@, node@);
        }
        let mut heap: Vec<ScoredNode<T>> = Vec::new();
        core::mem::swap(&mut heap, &mut self.heap);
        let last: usize = heap.len();
        heap.push(ScoredNode(node));
        assert(views(heap@) =~= old(self)@.push(node@));
        sift_up_entries(&mut heap, last);
        self.heap = heap;
    }

    fn pop(&mut self) -> (node: Option<T>)
        ensures
            old(self)@.len() > 0 ==> final(self)@.to_multiset() == old(self)@.to_multiset().remove(
                old(self)@[0],
            ) && final(self)@.len() == old(self)@.len() - 1,
            node is Some ==> forall|i: int|
                0 <= i < old(self)@.len() ==> T::score_of(#[trigger] old(self)@[i]) <= T::score_of(
                    node.unwrap()@,
                ),
    {
        proof {
            use_type_invariant(&*self);
            self@.to_multiset_ensures();
            if self@.len() > 0 {
                lemma_heap_pop::<T>(self@);
                assert forall|i: int| 0 <= i < self@.len() implies T::score_of(
                    #[trigger] self@[i],
                ) <= T::score_of(self@[0]) by {
                    lemma_root_is_best::<T>(self@, i);
                }
            }
        }
        let mut heap: Vec<ScoredNode<T>> = Vec::new();
        core::mem::swap(&mut heap, &mut self.heap);
        let taken = match heap.pop() {
            None => {
                assert(views(heap@) =~= old(self)@);
                None
            },
            Some(last) => {
                if heap.len() == 0 {
                    assert(views(heap@) =~= Seq::<T::V>::empty());
                    Some(last.0)
                } else {
                    let mut root = last;
                    core::mem::swap(&mut heap[0], &mut root);
                    assert(views(heap@) =~= old(self)@.drop_last().update(0, old(self)@.last()));
                    sift_down_entries(&mut heap, 0);
                    Some(root.0)
                }
            },
        };
        self.heap = heap;
        taken
    }

    fn len(&self) -> (count: usize)
        ensures
            count == self@.len(),
    {
        let count = self.heap.len();
        proof {
            use_type_invariant(self);
            self@.to_multiset_ensures();
            assert(Self::ordered(self@));
        }
        count
    }
}

} // verus!
