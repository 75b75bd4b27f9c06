//! The room: a mesh of surfaces, each open to some placement categories.

use crate::models::rect::Rect;
use crate::types::{RegionsType, RegionsTypeMask};
use vstd::prelude::*;

pub use crate::models::mesh::Mesh;

verus! {

/// What a surface is to the room.
#[derive(Debug, Clone, Copy, PartialEq, Eq, Structural)]
pub enum SurfaceKind {
    Floor,
    Wall,
    Ceiling,
}

/// What is known of one surface.
#[derive(Debug, Clone, Copy)]
pub struct SurfaceMeta {
    pub kind: SurfaceKind,
    /// The placement categories that may stand on the surface.
    pub regions_type_mask: RegionsTypeMask,
}

/// The room. The quad at index `i` of the mesh is the surface that `surfaces[i]`
/// describes; a quad that has no description is open to no category.
#[derive(Debug, Clone)]
pub struct Space {
    pub mesh: Mesh,
    pub surfaces: Vec<SurfaceMeta>,
}

impl Space {
    /// Whether the surface at `index` exists, is open to `regions_type` and holds all
    /// of `footprint`.
    pub open spec fn surface_holds(&self, index: int, footprint: Rect, regions_type: RegionsType) -> bool {
        &&& 0 <= index < self.mesh.quads@.len()
        &&& index < self.surfaces@.len()
        &&& self.surfaces@[index].regions_type_mask@.contains(regions_type)
        &&& footprint.within(self.mesh.quads@[index])
    }

    /// Whether some surface open to `regions_type` holds all of `footprint`.
    pub open spec fn spec_supports(&self, footprint: Rect, regions_type: RegionsType) -> bool {
        exists|index: int| #[trigger] self.surface_holds(index, footprint, regions_type)
    }

    /// Whether some surface open to `regions_type` holds all of `footprint`.
    pub fn supports(&self, footprint: &Rect, regions_type: RegionsType) -> (held: bool)
        ensures
            held == self.spec_supports(*footprint, regions_type),
    {
        let mut index: usize = 0;
        while index < self.surfaces.len() && index < self.mesh.quads.len()
            invariant
                forall|seen: int|
                    0 <= seen < index ==> !#[trigger] self.surface_holds(
                        seen,
                        *footprint,
                        regions_type,
                    ),
            decreases self.surfaces@.len() - index,
        {
            if self.surfaces[index].regions_type_mask.contains_id(regions_type) && footprint.fits_in(
                &self.mesh.quads[index],
            ) {
                assert(self.surface_holds(index as int, *footprint, regions_type));
                return true;
            }
            index += 1;
        }
        false
    }
}

} // verus!
