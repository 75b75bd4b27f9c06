//! A layout as a search state.

use crate::layout::geometry::{footprint_at, spec_footprint_at, GeometryCache, GeometryModel};
use crate::layout::placement::{Placement, Pose2D};
use crate::layout::scene::{Scene, SceneError};
use crate::models::rect::Rect;
use crate::search::node::{views, SearchNode};
use std::collections::hash_map::DefaultHasher;
use std::collections::HashMap;
use std::hash::Hasher;
use vstd::bytes::{spec_u32_to_le_bytes, spec_u64_to_le_bytes, u32_to_le_bytes, u64_to_le_bytes};
use vstd::prelude::*;
use vstd::std_specs::hash::DefaultHasherAdditionalSpecFns;

verus! {

/// `sum`, or the nearest score when `sum` is not one.
pub open spec fn spec_saturate(sum: int) -> i64 {
    if sum > i64::MAX {
        i64::MAX
    } else if sum < i64::MIN {
        i64::MIN
    } else {
        sum as i64
    }
}

/// `score + gain`, or the nearest score when the sum is not one.
pub fn saturating_sum(score: i64, gain: i64) -> (sum: i64)
    ensures
        sum == spec_saturate(score + gain),
{
    if gain >= 0 {
        if score > i64::MAX - gain {
            i64::MAX
        } else {
            score + gain
        }
    } else {
        if score < i64::MIN - gain {
            i64::MIN
        } else {
            score + gain
        }
    }
}

/// What hashing a sequence of placements writes: each placement in turn.
pub open spec fn placed_writes(placed: Seq<Placement>) -> Seq<Seq<u8>>
    decreases placed.len(),
{
    if placed.len() == 0 {
        Seq::empty()
    } else {
        placed_writes(placed.drop_last()) + placed.last().spec_writes()
    }
}

/// What hashing an inventory writes: for each of the first `kinds` identifiers that
/// has an entry, the identifier and its count. The order is that of the identifiers,
/// whatever order the inventory is stored in.
pub open spec fn inventory_writes(inventory: Map<u32, u32>, kinds: nat) -> Seq<Seq<u8>>
    decreases kinds,
{
    if kinds == 0 {
        Seq::empty()
    } else {
        let kind = (kinds - 1) as u32;
        let before = inventory_writes(inventory, (kinds - 1) as nat);
        if inventory.contains_key(kind) {
            before + seq![spec_u32_to_le_bytes(kind), spec_u32_to_le_bytes(inventory[kind])]
        } else {
            before
        }
    }
}

/// A layout: the scene, the items placed so far in the order in which they were
/// placed, how many items of each kind are left to place, and the score.
pub struct LayoutModel {
    pub scene: Scene,
    pub placed: Seq<Placement>,
    pub inventory: Map<u32, u32>,
    pub score: i64,
}

impl LayoutModel {
    /// How many items of kind `kind` are left to place.
    pub open spec fn remaining(self, kind: u32) -> nat {
        if self.inventory.contains_key(kind) {
            self.inventory[kind] as nat
        } else {
            0
        }
    }

    /// The lowest kind from `from` on of which an item is left to place.
    pub open spec fn pending_from(self, from: int) -> Option<u32>
        decreases self.scene.items@.len() - from,
    {
        if from < 0 || from >= self.scene.items@.len() || from > u32::MAX {
            None
        } else if self.remaining(from as u32) > 0 {
            Some(from as u32)
        } else {
            self.pending_from(from + 1)
        }
    }

    /// The kind that is placed next: the lowest of which an item is left.
    pub open spec fn pending(self) -> Option<u32> {
        self.pending_from(0)
    }

    /// The cells that a placement takes up. Arbitrary when the scene does not have
    /// the placement's kind or the item does not fit on the grid.
    pub open spec fn footprint_of(self, placement: Placement) -> Rect {
        spec_footprint_at(
            self.scene.items@[placement.item_id as int].visual.footprint_2d,
            placement.pose,
        ).unwrap()
    }

    /// The cells that the placed items take up, in the order of placement.
    pub open spec fn footprints(self) -> Seq<Rect> {
        Seq::new(self.placed.len(), |i: int| self.footprint_of(self.placed[i]))
    }

    /// What the layout occupies.
    pub open spec fn occupancy(self) -> GeometryModel {
        GeometryModel { scene: self.scene, footprints: self.footprints() }
    }

    /// Whether an item of kind `kind` may be placed at `pose`: it fits on the grid,
    /// rests on a surface open to its category, and shares no cell with a forbidden
    /// region of its kind or with an item placed before.
    pub open spec fn accepts(self, kind: u32, pose: Pose2D) -> bool {
        &&& kind < self.scene.items@.len()
        &&& spec_footprint_at(self.scene.items@[kind as int].visual.footprint_2d, pose) is Some
        &&& self.occupancy().admits(
            kind,
            spec_footprint_at(self.scene.items@[kind as int].visual.footprint_2d, pose).unwrap(),
        )
    }

    /// What placing an item of kind `kind` at `pose` adds to the score.
    pub open spec fn gain(self, kind: u32, pose: Pose2D) -> int {
        self.scene.scoring.spec_gain(
            self.occupancy().restricts(
                kind,
                spec_footprint_at(self.scene.items@[kind as int].visual.footprint_2d, pose).unwrap(),
            ),
        )
    }

    /// The layout with one more item, of kind `kind`, placed at `pose`.
    pub open spec fn with_placed(self, kind: u32, pose: Pose2D) -> LayoutModel {
        LayoutModel {
            scene: self.scene,
            placed: self.placed.push(Placement { item_id: kind, pose }),
            inventory: self.inventory.insert(kind, (self.remaining(kind) - 1) as u32),
            score: spec_saturate(self.score + self.gain(kind, pose)),
        }
    }

    /// The layouts that come of placing an item of kind `kind` at one of the first
    /// `upto` candidate poses, in the order of the candidates.
    pub open spec fn children(self, kind: u32, upto: int) -> Seq<LayoutModel>
        decreases upto,
    {
        if upto <= 0 {
            Seq::empty()
        } else {
            let before = self.children(kind, upto - 1);
            let pose = self.scene.candidates@[upto - 1];
            if self.accepts(kind, pose) {
                before.push(self.with_placed(kind, pose))
            } else {
                before
            }
        }
    }

    /// The layouts one placement away: an item of the pending kind at each candidate
    /// pose that accepts it. None when no item is left to place, and none when no
    /// candidate accepts the pending kind.
    pub open spec fn successors(self) -> Seq<LayoutModel> {
        match self.pending() {
            None => Seq::empty(),
            Some(kind) => self.children(kind, self.scene.candidates@.len() as int),
        }
    }

    /// What hashing the layout writes: the number of placements, the placements, the
    /// inventory. The occupancy has no part in it.
    pub open spec fn key_writes(self) -> Seq<Seq<u8>> {
        seq![spec_u64_to_le_bytes(self.placed.len() as u64)] + placed_writes(self.placed)
            + inventory_writes(self.inventory, self.scene.items@.len())
    }

    /// The layout's key.
    pub open spec fn key(self) -> u64 {
        DefaultHasher::spec_finish(self.key_writes())
    }
}

/// A partial or complete layout. A layout is never changed: placing an item gives a
/// new layout with its own occupancy and inventory.
pub struct LayoutState<'a> {
    placed: Vec<Placement>,
    occupancy: GeometryCache<'a>,
    inventory: HashMap<u32, u32>,
    score: i64,
}

impl<'a> View for LayoutState<'a> {
    type V = LayoutModel;

    closed spec fn view(&self) -> LayoutModel {
        LayoutModel {
            scene: self.occupancy@.scene,
            placed: self.placed@,
            inventory: self.inventory@,
            score: self.score,
        }
    }
}

impl<'a> LayoutState<'a> {
    /// The scene is well formed, the layout is legal, and the occupancy holds the
    /// footprint of each placed item.
    #[verifier::type_invariant]
    spec fn consistent(self) -> bool {
        &&& self.occupancy@.scene.well_formed()
        &&& self@.legal()
        &&& self.occupancy@.footprints.len() == self.placed@.len()
        &&& forall|i: int|
            0 <= i < self.placed@.len() ==> {
                &&& (#[trigger] self.placed@[i]).item_id < self.occupancy@.scene.items@.len()
                &&& spec_footprint_at(
                    self.occupancy@.scene.items@[self.placed@[i].item_id as int].visual.footprint_2d,
                    self.placed@[i].pose,
                ) == Some(self.occupancy@.footprints[i])
            }
    }

    /// The layout a search starts from: nothing placed, of each kind as many items
    /// left as the kind asks for, score 0. A scene that cannot be searched is refused.
    pub fn root(scene: &'a Scene) -> (result: Result<Self, SceneError>)
        ensures
            result is Ok <==> scene.well_formed(),
            result is Err ==> Some(result->Err_0) == scene.fault(),
            result is Ok ==> result->Ok_0@ == (LayoutModel {
                scene: *scene,
                placed: Seq::empty(),
                inventory: Map::new(
                    |kind: u32| kind < scene.items@.len(),
                    |kind: u32| scene.items@[kind as int].semantics.count,
                ),
                score: 0,
            }),
    {
        match scene.validate() {
            Err(fault) => {
                return Err(fault);
            },
            Ok(()) => {},
        }
        let mut inventory: HashMap<u32, u32> = HashMap::new();
        let mut kind: usize = 0;
        while kind < scene.items.len()
            invariant
                scene.well_formed(),
                kind <= scene.items@.len(),
                inventory@ =~= Map::new(
                    |k: u32| k < kind,
                    |k: u32| scene.items@[k as int].semantics.count,
                ),
            decreases scene.items@.len() - kind,
        {
            inventory.insert(kind as u32, scene.items[kind].semantics.count);
            kind += 1;
        }
        let state = LayoutState {
            placed: Vec::new(),
            occupancy: GeometryCache::new(scene),
            inventory,
            score: 0,
        };
        assert(state.inventory@ =~= Map::new(
            |k: u32| k < scene.items@.len(),
            |k: u32| scene.items@[k as int].semantics.count,
        ));
        Ok(state)
    }

    /// The items placed so far, in the order in which they were placed. No item
    /// shares a cell with a forbidden region of its kind or with another item.
    pub fn placed(&self) -> (placed: &Vec<Placement>)
        ensures
            placed@ == self@.placed,
            self@.legal(),
    {
        proof {
            use_type_invariant(self);
        }
        &self.placed
    }

    /// What the layout occupies.
    pub fn occupancy(&self) -> (occupancy: &GeometryCache<'a>)
        ensures
            occupancy@ == self@.occupancy(),
    {
        proof {
            use_type_invariant(self);
            assert(self.occupancy@.footprints =~= self@.footprints());
        }
        &self.occupancy
    }

    /// How many items of kind `kind` are left to place.
    pub fn remaining(&self, kind: u32) -> (count: u32)
        ensures
            count == self@.remaining(kind),
    {
        match self.inventory.get(&kind) {
            Some(count) => *count,
            None => 0,
        }
    }

    /// The kind that is placed next, or `None` when no item is left to place.
    pub fn pending(&self) -> (kind: Option<u32>)
        ensures
            kind == self@.pending(),
    {
        proof {
            use_type_invariant(self);
        }
        let kinds: usize = self.occupancy.scene().items.len();
        let mut kind: usize = 0;
        while kind < kinds
            invariant
                kinds == self@.scene.items@.len(),
                kinds <= u32::MAX,
                kind <= kinds,
                self@.pending_from(kind as int) == self@.pending(),
            decreases kinds - kind,
        {
            if self.remaining(kind as u32) > 0 {
                return Some(kind as u32);
            }
            kind += 1;
        }
        None
    }

    /// Whether no item is left to place.
    pub fn is_complete(&self) -> (complete: bool)
        ensures
            complete == (self@.pending() is None),
    {
        self.pending().is_none()
    }

    /// The layout's key: a hash of the placements in their order and of the
    /// inventory.
    fn hash_layout(&self) -> (key: u64)
        ensures
            key == self@.key(),
    {
        proof {
            use_type_invariant(self);
        }
        let mut hasher = DefaultHasher::new();
        let count = u64_to_le_bytes(self.placed.len() as u64);
        hasher.write(count.as_slice());
        let mut index: usize = 0;
        while index < self.placed.len()
            invariant
                index <= self.placed@.len(),
                hasher@ == seq![spec_u64_to_le_bytes(self.placed@.len() as u64)] + placed_writes(
                    self.placed@.take(index as int),
                ),
            decreases self.placed@.len() - index,
        {
            proof {
                let upto = self.placed@.take(index as int + 1);
                assert(upto.drop_last() =~= self.placed@.take(index as int));
                assert(upto.last() == self.placed@[index as int]);
            }
            self.placed[index].hash(&mut hasher);
            index += 1;
        }
        assert(self.placed@.take(self.placed@.len() as int) =~= self.placed@);
        let kinds: usize = self.occupancy.scene().items.len();
        let mut kind: usize = 0;
        while kind < kinds
            invariant
                kinds == self@.scene.items@.len(),
                kinds <= u32::MAX,
                kind <= kinds,
                hasher@ == seq![spec_u64_to_le_bytes(self.placed@.len() as u64)] + placed_writes(
                    self.placed@,
                ) + inventory_writes(self.inventory@, kind as nat),
            decreases kinds - kind,
        {
            let id: u32 = kind as u32;
            match self.inventory.get(&id) {
                Some(left) => {
                    let id_bytes = u32_to_le_bytes(id);
                    hasher.write(id_bytes.as_slice());
                    let left_bytes = u32_to_le_bytes(*left);
                    hasher.write(left_bytes.as_slice());
                },
                None => {},
            }
            kind += 1;
        }
        hasher.finish()
    }
}

impl<'a> SearchNode for LayoutState<'a> {
    open spec fn score_of(state: LayoutModel) -> i64 {
        state.score
    }

    open spec fn key_of(state: LayoutModel) -> u64 {
        state.key()
    }

    open spec fn successors_of(state: LayoutModel) -> Seq<LayoutModel> {
        state.successors()
    }

    /// One layout for each candidate pose at which an item of the pending kind may
    /// stand, in the order of the candidates. This layout is left as it is.
    fn expand(&self) -> (children: Vec<Self>)
        ensures
            (forall|kind: u32| self@.remaining(kind) == 0) ==> children@.len() == 0,
            children@.len() <= self@.scene.candidates@.len(),
    {
        proof {
            use_type_invariant(self);
            assert(self.occupancy@.footprints =~= self@.footprints());
            if forall|kind: u32| self@.remaining(kind) == 0 {
                self@.lemma_pending_is_kind(0);
            }
        }
        let mut children: Vec<Self> = Vec::new();
        let kind: u32 = match self.pending() {
            None => {
                assert(views(children@) =~= self@.successors());
                return children;
            },
            Some(kind) => kind,
        };
        let scene: &'a Scene = self.occupancy.scene();
        assert(kind < scene.items@.len()) by {
            self@.lemma_pending_is_kind(0);
        }
        let left: u32 = self.remaining(kind);
        assert(left > 0) by {
            self@.lemma_pending_is_kind(0);
        }
        let shape = scene.items[kind as usize].visual.footprint_2d;
        let mut index: usize = 0;
        while index < scene.candidates.len()
            invariant
                *scene == self@.scene,
                self.occupancy@ == self@.occupancy(),
                scene.well_formed(),
                kind < scene.items@.len(),
                shape == scene.items@[kind as int].visual.footprint_2d,
                left == self@.remaining(kind),
                left > 0,
                index <= scene.candidates@.len(),
                children@.len() <= index,
                views(children@) == self@.children(kind, index as int),
            decreases scene.candidates@.len() - index,
        {
            let pose: Pose2D = scene.candidates[index];
            let ghost before = views(children@);
            match footprint_at(&shape, &pose) {
                None => {},
                Some(footprint) => {
                    if self.occupancy.is_valid(kind, &footprint) {
                        let restricted = self.occupancy.is_restricted(kind, &footprint);
                        let mut placed = self.placed.clone();
                        assert(placed@ =~= self.placed@);
                        placed.push(Placement { item_id: kind, pose });
                        let mut occupancy = self.occupancy.clone();
                        occupancy.insert(footprint);
                        let mut inventory = self.inventory.clone();
                        inventory.insert(kind, left - 1);
                        let score = saturating_sum(self.score, scene.scoring.gain(restricted));
                        proof {
                            use_type_invariant(self);
                            self@.lemma_with_placed_legal(kind, pose);
                            assert((LayoutModel {
                                scene: occupancy@.scene,
                                placed: placed@,
                                inventory: inventory@,
                                score,
                            }) == self@.with_placed(kind, pose));
                        }
                        let child = LayoutState { placed, occupancy, inventory, score };
                        assert(child@ == self@.with_placed(kind, pose));
                        children.push(child);
                        assert(views(children@) =~= before.push(self@.with_placed(kind, pose)));
                    }
                },
            }
            index += 1;
        }
        children
    }

    fn score(&self) -> (score: i64) {
        self.score
    }

    fn key(&self) -> (key: u64) {
        self.hash_layout()
    }
}

impl LayoutModel {
    /// A pending kind is a kind of the scene of which an item is left, and no lower
    /// kind from `from` on has one left.
    pub proof fn lemma_pending_is_kind(self, from: int)
        requires
            0 <= from,
        ensures
            self.pending_from(from) is Some ==> {
                &&& from <= self.pending_from(from).unwrap() < self.scene.items@.len()
                &&& self.remaining(self.pending_from(from).unwrap()) > 0
                &&& forall|lower: u32|
                    from <= lower < self.pending_from(from).unwrap() ==> self.remaining(lower)
                        == 0
            },
            self.pending_from(from) is None ==> forall|kind: u32|
                from <= kind < self.scene.items@.len() ==> self.remaining(kind) == 0,
        decreases self.scene.items@.len() - from,
    {
        if from < self.scene.items@.len() && from <= u32::MAX && self.remaining(from as u32) == 0 {
            self.lemma_pending_is_kind(from + 1);
        }
    }
}

} // verus!
