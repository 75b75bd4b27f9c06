//! Where items of one kind may stand, and what such an item is.

use crate::furniture_types::FurnitureType;
use crate::models::rect::Rect;
use crate::types::RegionsType;
use vstd::prelude::*;

pub use crate::models::mesh::Mesh;

verus! {

/// How strictly a region keeps items out.
#[derive(Debug, Clone, Copy, PartialEq, Eq, Structural)]
pub enum RegionClass {
    /// No item of the kind may share a cell with the region.
    Forbidden,
    /// An item of the kind may share a cell with the region, at a cost to the score.
    Restricted,
}

/// A part of the room that keeps items out.
#[derive(Debug, Clone)]
pub struct Region {
    pub class: RegionClass,
    pub mesh: Mesh,
}

/// The surface an item is mounted on.
#[derive(Debug, Clone, Copy, PartialEq, Eq, Structural)]
pub enum AttachSurface {
    Floor,
    Wall,
    Ceiling,
}

/// The rules by which items of a kind are placed.
#[derive(Debug, Clone, Copy)]
pub struct PlacementSemantics {
    pub attach: AttachSurface,
    pub furniture_type: FurnitureType,
    /// The placement category; an item stands only on a surface open to it.
    pub regions_type: RegionsType,
    /// How many items of the kind a complete layout holds.
    pub count: u32,
}

/// The outline of an item seen from above, in cells, before any turn.
#[derive(Debug, Clone, Copy, PartialEq, Eq, Structural)]
pub struct Shape2D {
    pub width: u32,
    pub depth: u32,
}

/// The heights an item takes up.
#[derive(Debug, Clone, Copy, PartialEq, Eq, Structural)]
pub struct HeightRange {
    pub min_y: i32,
    pub max_y: i32,
}

/// What an item of a kind looks like.
#[derive(Debug, Clone, Copy)]
pub struct Visual {
    pub footprint_2d: Shape2D,
    pub height_range: HeightRange,
}

/// One kind of item: the regions that keep it out, its placement rules and its looks.
#[derive(Debug, Clone)]
pub struct PlacementRegion {
    pub regions: Vec<Region>,
    pub semantics: PlacementSemantics,
    pub visual: Visual,
}

impl PlacementRegion {
    /// Whether the region at `index` exists, is of class `class` and shares a cell with
    /// `footprint`.
    pub open spec fn region_hits(&self, index: int, class: RegionClass, footprint: Rect) -> bool {
        &&& 0 <= index < self.regions@.len()
        &&& self.regions@[index].class == class
        &&& self.regions@[index].mesh.spec_touches(footprint)
    }

    /// Whether a region of class `class` shares a cell with `footprint`.
    pub open spec fn spec_hits(&self, class: RegionClass, footprint: Rect) -> bool {
        exists|index: int| #[trigger] self.region_hits(index, class, footprint)
    }

    /// Whether a region of class `class` shares a cell with `footprint`.
    pub fn hits(&self, class: RegionClass, footprint: &Rect) -> (hit: bool)
        ensures
            hit == self.spec_hits(class, *footprint),
    {
        let mut index: usize = 0;
        while index < self.regions.len()
            invariant
                forall|seen: int|
                    0 <= seen < index ==> !#[trigger] self.region_hits(seen, class, *footprint),
            decreases self.regions@.len() - index,
        {
            if self.regions[index].class == class && self.regions[index].mesh.touches(footprint) {
                assert(self.region_hits(index as int, class, *footprint));
                return true;
            }
            index += 1;
        }
        false
    }
}

} // verus!
