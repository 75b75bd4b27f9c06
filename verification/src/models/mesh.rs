//! Planar meshes of axis-aligned quads.

use crate::models::rect::Rect;
use vstd::prelude::*;

verus! {

/// A part of the plane, given as the quads that make it up.
#[derive(Debug, Clone)]
pub struct Mesh {
    pub quads: Vec<Rect>,
}

impl Mesh {
    /// Whether a quad of the mesh shares a cell with `footprint`.
    pub open spec fn spec_touches(&self, footprint: Rect) -> bool {
        exists|q: int| 0 <= q < self.quads@.len() && (#[trigger] self.quads@[q]).overlaps(footprint)
    }

    /// Whether a quad of the mesh shares a cell with `footprint`.
    pub fn touches(&self, footprint: &Rect) -> (hit: bool)
        ensures
            hit == self.spec_touches(*footprint),
    {
        let mut q: usize = 0;
        while q < self.quads.len()
            invariant
                q <= self.quads@.len(),
                forall|p: int| 0 <= p < q ==> !(#[trigger] self.quads@[p]).overlaps(*footprint),
            decreases self.quads@.len() - q,
        {
            if self.quads[q].intersects(footprint) {
                return true;
            }
            q += 1;
        }
        false
    }
}

} // verus!
