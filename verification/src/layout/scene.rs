//! Everything a layout search is given and never changes.

use crate::layout::placement::Pose2D;
use crate::models::placement_region::PlacementRegion;
use crate::models::space::Space;
use crate::types::RegionsType;
use vstd::prelude::*;

verus! {

/// What a placement adds to a layout's score.
#[derive(Debug, Clone, Copy, PartialEq, Eq, Structural)]
pub struct Scoring {
    /// Added for every item placed.
    pub placement_reward: i32,
    /// Taken off when the item shares a cell with a restricted region of its kind.
    pub restricted_penalty: i32,
}

impl Scoring {
    /// What placing one item adds to the score.
    pub open spec fn spec_gain(self, restricted: bool) -> int {
        if restricted {
            self.placement_reward - self.restricted_penalty
        } else {
            self.placement_reward as int
        }
    }

    /// What placing one item adds to the score.
    pub fn gain(&self, restricted: bool) -> (gain: i64)
        ensures
            gain == self.spec_gain(restricted),
    {
        let reward: i64 = self.placement_reward as i64;
        if restricted {
            reward - self.restricted_penalty as i64
        } else {
            reward
        }
    }
}

/// Why a scene cannot be searched.
#[derive(Debug, Clone, Copy, PartialEq, Eq, Structural)]
pub enum SceneError {
    /// There are more kinds of item than identifiers for them.
    TooManyKinds,
    /// The kind `kind` asks for a placement category that no mask can hold.
    RegionsTypeOutOfRange { kind: u32, regions_type: RegionsType },
}

/// The room, the kinds of item to place, the poses to try, and the scoring. The kind
/// with identifier `k` is `items[k]`.
#[derive(Debug, Clone)]
pub struct Scene {
    pub space: Space,
    pub items: Vec<PlacementRegion>,
    /// The poses tried for every item, in the order in which they are tried.
    pub candidates: Vec<Pose2D>,
    pub scoring: Scoring,
}

impl Scene {
    /// Whether the kind at `index` asks for a category that no mask can hold.
    pub open spec fn misfit(&self, index: int) -> bool {
        0 <= index < self.items@.len() && self.items@[index].semantics.regions_type >= 32
    }

    /// Every kind has an identifier, and asks for a category that a mask can hold.
    pub open spec fn well_formed(&self) -> bool {
        &&& self.items@.len() <= u32::MAX
        &&& forall|index: int| !#[trigger] self.misfit(index)
    }

    /// The first fault among the kinds from `from` on, if there is one.
    pub open spec fn fault_from(&self, from: int) -> Option<SceneError>
        decreases self.items@.len() - from,
    {
        if from < 0 || from >= self.items@.len() || from > u32::MAX {
            None
        } else if self.misfit(from) {
            Some(
                SceneError::RegionsTypeOutOfRange {
                    kind: from as u32,
                    regions_type: self.items@[from].semantics.regions_type,
                },
            )
        } else {
            self.fault_from(from + 1)
        }
    }

    /// Why the scene cannot be searched, if it cannot. Of several faults, the number
    /// of kinds comes first, then the kind with the lowest identifier.
    pub open spec fn fault(&self) -> Option<SceneError> {
        if self.items@.len() > u32::MAX {
            Some(SceneError::TooManyKinds)
        } else {
            self.fault_from(0)
        }
    }

    /// From `from` on there is no fault exactly when no kind misfits.
    pub proof fn lemma_fault_from(&self, from: int)
        requires
            0 <= from,
            self.items@.len() <= u32::MAX,
        ensures
            self.fault_from(from) is None <==> forall|index: int|
                from <= index ==> !#[trigger] self.misfit(index),
        decreases self.items@.len() - from,
    {
        if from < self.items@.len() && !self.misfit(from) {
            self.lemma_fault_from(from + 1);
            assert forall|index: int| from <= index && (forall|later: int|
                from + 1 <= later ==> !#[trigger] self.misfit(later)) implies !self.misfit(
                index,
            ) by {
                if index > from {
                    assert(!self.misfit(index));
                }
            }
        } else if from < self.items@.len() {
            assert(self.misfit(from));
        }
    }

    /// A scene has no fault exactly when it is well formed.
    pub proof fn lemma_fault(&self)
        ensures
            self.fault() is None <==> self.well_formed(),
    {
        if self.items@.len() <= u32::MAX {
            self.lemma_fault_from(0);
        }
    }

    /// Checks that the scene can be searched.
    pub fn validate(&self) -> (result: Result<(), SceneError>)
        ensures
            result is Ok <==> self.well_formed(),
            result == match self.fault() {
                None => Ok::<(), SceneError>(()),
                Some(fault) => Err::<(), SceneError>(fault),
            },
    {
        proof {
            self.lemma_fault();
        }
        if self.items.len() > u32::MAX as usize {
            return Err(SceneError::TooManyKinds);
        }
        let mut index: usize = 0;
        while index < self.items.len()
            invariant
                self.items@.len() <= u32::MAX,
                index <= self.items@.len(),
                self.fault_from(index as int) == self.fault(),
            decreases self.items@.len() - index,
        {
            let regions_type = self.items[index].semantics.regions_type;
            if regions_type >= 32 {
                return Err(
                    SceneError::RegionsTypeOutOfRange { kind: index as u32, regions_type },
                );
            }
            index += 1;
        }
        Ok(())
    }
}

} // verus!
