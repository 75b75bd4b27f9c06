//! Where an item stands.

use std::collections::hash_map::DefaultHasher;
use std::hash::Hasher;
use vstd::bytes::{spec_u32_to_le_bytes, u32_to_le_bytes};
use vstd::prelude::*;

verus! {

/// A position on the grid and a number of quarter turns. Two poses are the same pose
/// exactly when the three fields are the same.
#[derive(Clone, Copy, Debug, PartialEq, Eq, Structural)]
pub struct Pose2D {
    /// The column of the item's lowest corner.
    pub x: i32,
    /// The row of the item's lowest corner.
    pub y: i32,
    /// Quarter turns; an odd number exchanges the item's width and depth.
    pub theta: u32,
}

/// One item committed to a layout.
#[derive(Clone, Copy, Debug, PartialEq, Eq, Structural)]
pub struct Placement {
    /// The kind of the item: an index into the scene's kinds.
    pub item_id: u32,
    pub pose: Pose2D,
}

/// The four bytes of a coordinate, lowest first.
pub open spec fn coordinate_bytes(value: i32) -> Seq<u8> {
    spec_u32_to_le_bytes(value as u32)
}

impl Pose2D {
    /// What hashing a pose writes: the bit patterns of `x`, `y` and `theta`, in this
    /// order.
    pub open spec fn spec_writes(self) -> Seq<Seq<u8>> {
        seq![coordinate_bytes(self.x), coordinate_bytes(self.y), spec_u32_to_le_bytes(self.theta)]
    }

    /// Feeds the pose to `state`.
    pub fn hash(&self, state: &mut DefaultHasher)
        ensures
            final(state)@ == old(state)@ + self.spec_writes(),
    {
        let x = u32_to_le_bytes(#[verifier::truncate] (self.x as u32));
        state.write(x.as_slice());
        let y = u32_to_le_bytes(#[verifier::truncate] (self.y as u32));
        state.write(y.as_slice());
        let theta = u32_to_le_bytes(self.theta);
        state.write(theta.as_slice());
        assert(state@ =~= old(state)@ + self.spec_writes());
    }
}

impl Placement {
    /// What hashing a placement writes: the item's kind, then the pose.
    pub open spec fn spec_writes(self) -> Seq<Seq<u8>> {
        seq![spec_u32_to_le_bytes(self.item_id)] + self.pose.spec_writes()
    }

    /// Feeds the placement to `state`.
    pub fn hash(&self, state: &mut DefaultHasher)
        ensures
            final(state)@ == old(state)@ + self.spec_writes(),
    {
        let id = u32_to_le_bytes(self.item_id);
        state.write(id.as_slice());
        self.pose.hash(state);
        assert(state@ =~= old(state)@ + self.spec_writes());
    }
}

} // verus!
