//! What holds of every layout that a search can reach.

use crate::layout::geometry::{clear_of, spec_footprint_at};
use crate::layout::placement::{Placement, Pose2D};
use crate::layout::state::LayoutModel;
use crate::models::placement_region::RegionClass;
use vstd::prelude::*;

verus! {

/// How many of the placements are of kind `kind`.
pub open spec fn count_of(placed: Seq<Placement>, kind: u32) -> nat
    decreases placed.len(),
{
    if placed.len() == 0 {
        0
    } else if placed.last().item_id == kind {
        count_of(placed.drop_last(), kind) + 1
    } else {
        count_of(placed.drop_last(), kind)
    }
}

/// Each layout but the first is a successor of the one before it.
pub open spec fn is_path(path: Seq<LayoutModel>) -> bool {
    forall|i: int|
        0 <= i < path.len() - 1 ==> (#[trigger] path[i]).successors().contains(path[i + 1])
}

impl LayoutModel {
    /// How many items of kind `kind` the layout accounts for: those placed and those
    /// left to place.
    pub open spec fn total(self, kind: u32) -> nat {
        count_of(self.placed, kind) + self.remaining(kind)
    }

    /// Whether the placement at `index` is sound: its kind exists, the item fits on
    /// the grid and rests on a surface open to its category, and it shares no cell
    /// with a forbidden region of its kind or with an item placed before it.
    pub open spec fn sound_at(self, index: int) -> bool {
        let placement = self.placed[index];
        &&& placement.item_id < self.scene.items@.len()
        &&& spec_footprint_at(
            self.scene.items@[placement.item_id as int].visual.footprint_2d,
            placement.pose,
        ) is Some
        &&& self.scene.space.spec_supports(
            self.footprint_of(placement),
            self.scene.items@[placement.item_id as int].semantics.regions_type,
        )
        &&& !self.scene.items@[placement.item_id as int].spec_hits(
            RegionClass::Forbidden,
            self.footprint_of(placement),
        )
        &&& forall|earlier: int|
            0 <= earlier < index ==> !self.footprint_of(#[trigger] self.placed[earlier]).overlaps(
                self.footprint_of(placement),
            )
    }

    /// Every placement of the layout is sound.
    pub open spec fn legal(self) -> bool {
        forall|index: int| 0 <= index < self.placed.len() ==> #[trigger] self.sound_at(index)
    }

    /// Each of the layouts that `children` gives is this layout with one item of the
    /// kind placed at a candidate pose that accepts it.
    pub proof fn lemma_children_are_placements(self, kind: u32, upto: int, index: int)
        requires
            upto <= self.scene.candidates@.len(),
            0 <= index < self.children(kind, upto).len(),
        ensures
            exists|candidate: int|
                0 <= candidate < upto && self.accepts(
                    kind,
                    #[trigger] self.scene.candidates@[candidate],
                ) && self.children(kind, upto)[index] == self.with_placed(
                    kind,
                    self.scene.candidates@[candidate],
                ),
        decreases upto,
    {
        let pose = self.scene.candidates@[upto - 1];
        let before = self.children(kind, upto - 1);
        if self.accepts(kind, pose) && index == before.len() {
            assert(self.children(kind, upto)[index] == self.with_placed(
                kind,
                self.scene.candidates@[upto - 1],
            ));
        } else {
            self.lemma_children_are_placements(kind, upto - 1, index);
        }
    }

    /// Two layouts with the same placements in the same order and the same inventory,
    /// over scenes with as many kinds, have the same key, whatever they occupy and
    /// whatever their scores.
    pub proof fn lemma_key_reads_placements_and_inventory(self, other: LayoutModel)
        requires
            self.placed == other.placed,
            self.inventory == other.inventory,
            self.scene.items@.len() == other.scene.items@.len(),
        ensures
            self.key() == other.key(),
    {
    }

    /// There are at most as many successors as candidate poses.
    pub proof fn lemma_successors_bounded(self)
        ensures
            self.successors().len() <= self.scene.candidates@.len(),
    {
        if self.pending() is Some {
            self.lemma_children_bounded(
                self.pending().unwrap(),
                self.scene.candidates@.len() as int,
            );
        }
    }

    /// The first `upto` candidates give at most `upto` layouts.
    pub proof fn lemma_children_bounded(self, kind: u32, upto: int)
        requires
            0 <= upto,
        ensures
            self.children(kind, upto).len() <= upto,
        decreases upto,
    {
        if upto > 0 {
            self.lemma_children_bounded(kind, upto - 1);
        }
    }

    /// Every successor places one item of the pending kind, of which an item was
    /// left, at a candidate pose that accepts it: a kind of which none is left is
    /// never placed.
    pub proof fn lemma_successor_places_pending(self, index: int)
        requires
            0 <= index < self.successors().len(),
        ensures
            self.pending() is Some,
            self.remaining(self.pending().unwrap()) > 0,
            exists|candidate: int|
                0 <= candidate < self.scene.candidates@.len() && self.accepts(
                    self.pending().unwrap(),
                    #[trigger] self.scene.candidates@[candidate],
                ) && self.successors()[index] == self.with_placed(
                    self.pending().unwrap(),
                    self.scene.candidates@[candidate],
                ),
    {
        self.lemma_pending_is_kind(0);
        self.lemma_children_are_placements(
            self.pending().unwrap(),
            self.scene.candidates@.len() as int,
            index,
        );
    }

    /// A layout in which no item is left to place has no successor.
    pub proof fn lemma_complete_has_no_successor(self)
        requires
            forall|kind: u32| self.remaining(kind) == 0,
        ensures
            self.successors().len() == 0,
    {
        self.lemma_pending_is_kind(0);
    }

    /// Placing an item of a kind of which one is left moves one item of that kind from
    /// the inventory to the placements, and no other.
    pub proof fn lemma_with_placed_conserves(self, kind: u32, pose: Pose2D, other: u32)
        requires
            self.remaining(kind) > 0,
        ensures
            self.with_placed(kind, pose).total(other) == self.total(other),
    {
        let child = self.with_placed(kind, pose);
        assert(child.placed.drop_last() =~= self.placed);
        assert(child.placed.last().item_id == kind);
    }

    /// Every successor accounts for as many items of each kind as the layout does,
    /// over the same scene.
    pub proof fn lemma_successor_conserves(self, index: int, kind: u32)
        requires
            0 <= index < self.successors().len(),
        ensures
            self.successors()[index].total(kind) == self.total(kind),
            self.successors()[index].scene == self.scene,
    {
        let pending = self.pending().unwrap();
        self.lemma_pending_is_kind(0);
        self.lemma_children_are_placements(pending, self.scene.candidates@.len() as int, index);
        let candidate = choose|candidate: int|
            0 <= candidate < self.scene.candidates@.len() && self.accepts(
                pending,
                #[trigger] self.scene.candidates@[candidate],
            ) && self.successors()[index] == self.with_placed(
                pending,
                self.scene.candidates@[candidate],
            );
        self.lemma_with_placed_conserves(pending, self.scene.candidates@[candidate], kind);
    }

    /// Placing an item where the layout accepts it keeps the layout legal: the new
    /// item shares no cell with a forbidden region of its kind nor with any item
    /// placed before.
    pub proof fn lemma_with_placed_legal(self, kind: u32, pose: Pose2D)
        requires
            self.legal(),
            self.accepts(kind, pose),
        ensures
            self.with_placed(kind, pose).legal(),
    {
        let child = self.with_placed(kind, pose);
        let added = Placement { item_id: kind, pose };
        let footprint = self.footprint_of(added);
        assert(clear_of(self.footprints(), footprint));
        assert forall|at: int| 0 <= at < child.placed.len() implies #[trigger] child.sound_at(
            at,
        ) by {
            if at < self.placed.len() {
                assert(self.sound_at(at));
                assert(child.placed[at] == self.placed[at]);
                assert forall|earlier: int| 0 <= earlier < at implies !child.footprint_of(
                    #[trigger] child.placed[earlier],
                ).overlaps(child.footprint_of(child.placed[at])) by {
                    assert(child.placed[earlier] == self.placed[earlier]);
                }
            } else {
                assert(child.placed[at] == added);
                assert forall|earlier: int| 0 <= earlier < at implies !child.footprint_of(
                    #[trigger] child.placed[earlier],
                ).overlaps(child.footprint_of(child.placed[at])) by {
                    assert(child.placed[earlier] == self.placed[earlier]);
                    assert(self.footprints()[earlier] == self.footprint_of(self.placed[earlier]));
                }
            }
        }
    }

    /// Every successor of a legal layout is legal.
    pub proof fn lemma_successor_legal(self, index: int)
        requires
            self.legal(),
            0 <= index < self.successors().len(),
        ensures
            self.successors()[index].legal(),
    {
        self.lemma_successor_places_pending(index);
        let pending = self.pending().unwrap();
        let candidate = choose|candidate: int|
            0 <= candidate < self.scene.candidates@.len() && self.accepts(
                pending,
                #[trigger] self.scene.candidates@[candidate],
            ) && self.successors()[index] == self.with_placed(
                pending,
                self.scene.candidates@[candidate],
            );
        self.lemma_with_placed_legal(pending, self.scene.candidates@[candidate]);
    }

    /// In a legal layout no two placed items share a cell.
    pub proof fn lemma_legal_is_disjoint(self)
        requires
            self.legal(),
        ensures
            forall|i: int, j: int|
                0 <= i < self.placed.len() && 0 <= j < self.placed.len() && i != j
                    ==> !self.footprint_of(#[trigger] self.placed[i]).overlaps(
                    self.footprint_of(#[trigger] self.placed[j]),
                ),
    {
        assert forall|i: int, j: int|
            0 <= i < self.placed.len() && 0 <= j < self.placed.len() && i != j implies !self.footprint_of(
            #[trigger] self.placed[i],
        ).overlaps(self.footprint_of(#[trigger] self.placed[j])) by {
            if i < j {
                assert(self.sound_at(j));
            } else {
                assert(self.sound_at(i));
                assert(!self.footprint_of(self.placed[j]).overlaps(
                    self.footprint_of(self.placed[i]),
                ));
                if self.footprint_of(self.placed[i]).overlaps(self.footprint_of(self.placed[j])) {
                    let (x, y) = choose|x: int, y: int|
                        self.footprint_of(self.placed[i]).covers_cell(x, y) && self.footprint_of(
                            self.placed[j],
                        ).covers_cell(x, y);
                    assert(self.footprint_of(self.placed[j]).covers_cell(x, y)
                        && self.footprint_of(self.placed[i]).covers_cell(x, y));
                }
            }
        }
    }
}

/// Items are neither made nor lost: in every layout reached from a layout in which
/// nothing is placed, the items of a kind that are placed and those that are left to place are
/// together as many as were left at the start.
pub proof fn lemma_inventory_conserved(path: Seq<LayoutModel>, kind: u32)
    requires
        path.len() > 0,
        is_path(path),
        path[0].placed.len() == 0,
    ensures
        count_of(path.last().placed, kind) + path.last().remaining(kind) == path[0].remaining(
            kind,
        ),
        path.last().scene == path[0].scene,
    decreases path.len(),
{
    if path.len() > 1 {
        let shorter = path.drop_last();
        assert forall|i: int| 0 <= i < shorter.len() - 1 implies (#[trigger] shorter[i]).successors().contains(
            shorter[i + 1],
        ) by {
            assert(path[i].successors().contains(path[i + 1]));
        }
        lemma_inventory_conserved(shorter, kind);
        let from = path[path.len() - 2];
        assert(from.successors().contains(path[path.len() - 2 + 1]));
        let index = choose|index: int|
            0 <= index < from.successors().len() && from.successors()[index] == path.last();
        from.lemma_successor_conserves(index, kind);
    }
}

/// Placed items keep apart: in every layout reached from a layout in which nothing is
/// placed, no placed item shares a cell with a forbidden region of its kind, and no two placed
/// items share a cell.
pub proof fn lemma_reachable_is_legal(path: Seq<LayoutModel>)
    requires
        path.len() > 0,
        is_path(path),
        path[0].placed.len() == 0,
    ensures
        path.last().legal(),
        forall|i: int, j: int|
            0 <= i < path.last().placed.len() && 0 <= j < path.last().placed.len() && i != j
                ==> !path.last().footprint_of(#[trigger] path.last().placed[i]).overlaps(
                path.last().footprint_of(#[trigger] path.last().placed[j]),
            ),
    decreases path.len(),
{
    if path.len() > 1 {
        let shorter = path.drop_last();
        assert forall|i: int| 0 <= i < shorter.len() - 1 implies (#[trigger] shorter[i]).successors().contains(
            shorter[i + 1],
        ) by {
            assert(path[i].successors().contains(path[i + 1]));
        }
        lemma_reachable_is_legal(shorter);
        let from = path[path.len() - 2];
        assert(from.successors().contains(path[path.len() - 2 + 1]));
        let index = choose|index: int|
            0 <= index < from.successors().len() && from.successors()[index] == path.last();
        from.lemma_successor_legal(index);
    }
    path.last().lemma_legal_is_disjoint();
}

} // verus!
