//! What the placed items occupy, and whether one more item may stand at a pose.

use crate::layout::placement::Pose2D;
use crate::layout::scene::Scene;
use crate::models::placement_region::{RegionClass, Shape2D};
use crate::models::rect::Rect;
use vstd::prelude::*;

verus! {

/// The cells that an item of outline `shape` takes up at `pose`: a box with its lowest
/// corner at the pose, with width and depth exchanged by an odd number of quarter
/// turns. `None` when the box would reach past the grid.
pub open spec fn spec_footprint_at(shape: Shape2D, pose: Pose2D) -> Option<Rect> {
    let turned = pose.theta % 2 == 1;
    let width = if turned { shape.depth } else { shape.width };
    let depth = if turned { shape.width } else { shape.depth };
    if pose.x + width <= i32::MAX && pose.y + depth <= i32::MAX {
        Some(
            Rect {
                min_x: pose.x,
                min_y: pose.y,
                max_x: (pose.x + width) as i32,
                max_y: (pose.y + depth) as i32,
            },
        )
    } else {
        None
    }
}

/// The cells that an item of outline `shape` takes up at `pose`.
pub fn footprint_at(shape: &Shape2D, pose: &Pose2D) -> (footprint: Option<Rect>)
    ensures
        footprint == spec_footprint_at(*shape, *pose),
{
    let turned = pose.theta % 2 == 1;
    let width: u32 = if turned { shape.depth } else { shape.width };
    let depth: u32 = if turned { shape.width } else { shape.depth };
    let max_x: i64 = pose.x as i64 + width as i64;
    let max_y: i64 = pose.y as i64 + depth as i64;
    if max_x <= i32::MAX as i64 && max_y <= i32::MAX as i64 {
        Some(Rect { min_x: pose.x, min_y: pose.y, max_x: max_x as i32, max_y: max_y as i32 })
    } else {
        None
    }
}

/// What a cache answers from: the scene and the footprints of the items placed so
/// far, in the order in which they were placed.
pub struct GeometryModel {
    pub scene: Scene,
    pub footprints: Seq<Rect>,
}

/// Whether `footprint` shares no cell with any of `footprints`.
pub open spec fn clear_of(footprints: Seq<Rect>, footprint: Rect) -> bool {
    forall|i: int| 0 <= i < footprints.len() ==> !(#[trigger] footprints[i]).overlaps(footprint)
}

impl GeometryModel {
    /// Whether an item of kind `kind` may take up `footprint`: the kind exists, a
    /// surface open to its category holds the whole footprint, no forbidden region of
    /// the kind shares a cell with it, and neither does any placed item.
    pub open spec fn admits(self, kind: u32, footprint: Rect) -> bool {
        &&& kind < self.scene.items@.len()
        &&& self.scene.space.spec_supports(
            footprint,
            self.scene.items@[kind as int].semantics.regions_type,
        )
        &&& !self.scene.items@[kind as int].spec_hits(RegionClass::Forbidden, footprint)
        &&& clear_of(self.footprints, footprint)
    }

    /// Whether an item of kind `kind` that takes up `footprint` shares a cell with a
    /// restricted region of the kind.
    pub open spec fn restricts(self, kind: u32, footprint: Rect) -> bool {
        &&& kind < self.scene.items@.len()
        &&& self.scene.items@[kind as int].spec_hits(RegionClass::Restricted, footprint)
    }
}

/// The occupancy of one layout. The scene is shared; the footprints are the cache's
/// own, and only ever grow.
#[derive(Debug)]
pub struct GeometryCache<'a> {
    scene: &'a Scene,
    footprints: Vec<Rect>,
}

impl<'a> View for GeometryCache<'a> {
    type V = GeometryModel;

    closed spec fn view(&self) -> GeometryModel {
        GeometryModel { scene: *self.scene, footprints: self.footprints@ }
    }
}

impl<'a> Clone for GeometryCache<'a> {
    /// A cache of its own for a layout that branches off: it answers as this one does,
    /// and what is inserted into either does not reach the other.
    fn clone(&self) -> (copy: Self)
        ensures
            copy@ == self@,
    {
        let footprints = self.footprints.clone();
        assert(footprints@ =~= self.footprints@);
        GeometryCache { scene: self.scene, footprints }
    }
}

impl<'a> GeometryCache<'a> {
    /// The cache of a layout in which nothing is placed.
    pub fn new(scene: &'a Scene) -> (cache: Self)
        ensures
            cache@ == (GeometryModel { scene: *scene, footprints: Seq::empty() }),
    {
        GeometryCache { scene, footprints: Vec::new() }
    }

    /// The scene the cache answers from.
    pub fn scene(&self) -> (scene: &'a Scene)
        ensures
            *scene == self@.scene,
    {
        self.scene
    }

    /// The number of footprints inserted.
    pub fn len(&self) -> (count: usize)
        ensures
            count == self@.footprints.len(),
    {
        self.footprints.len()
    }

    /// The footprint inserted as number `index`.
    pub fn footprint(&self, index: usize) -> (footprint: Option<Rect>)
        ensures
            index < self@.footprints.len() ==> footprint == Some(self@.footprints[index as int]),
            index >= self@.footprints.len() ==> footprint is None,
    {
        if index < self.footprints.len() {
            Some(self.footprints[index])
        } else {
            None
        }
    }

    /// Whether `footprint` shares a cell with a footprint in the cache.
    pub fn collides(&self, footprint: &Rect) -> (hit: bool)
        ensures
            hit == !clear_of(self@.footprints, *footprint),
    {
        let mut index: usize = 0;
        while index < self.footprints.len()
            invariant
                index <= self.footprints@.len(),
                forall|i: int| 0 <= i < index ==> !(#[trigger] self.footprints@[i]).overlaps(*footprint),
            decreases self.footprints@.len() - index,
        {
            if self.footprints[index].intersects(footprint) {
                return true;
            }
            index += 1;
        }
        false
    }

    /// Whether an item of kind `kind` may take up `footprint`.
    pub fn is_valid(&self, kind: u32, footprint: &Rect) -> (valid: bool)
        ensures
            valid == self@.admits(kind, *footprint),
    {
        if kind as usize >= self.scene.items.len() {
            return false;
        }
        let item = &self.scene.items[kind as usize];
        self.scene.space.supports(footprint, item.semantics.regions_type) && !item.hits(
            RegionClass::Forbidden,
            footprint,
        ) && !self.collides(footprint)
    }

    /// Whether an item of kind `kind` that takes up `footprint` shares a cell with a
    /// restricted region of the kind.
    pub fn is_restricted(&self, kind: u32, footprint: &Rect) -> (restricted: bool)
        ensures
            restricted == self@.restricts(kind, *footprint),
    {
        if kind as usize >= self.scene.items.len() {
            return false;
        }
        self.scene.items[kind as usize].hits(RegionClass::Restricted, footprint)
    }

    /// Records that `footprint` is taken. What was recorded before stays, in its
    /// order.
    pub fn insert(&mut self, footprint: Rect)
        ensures
            final(self)@ == (GeometryModel {
                scene: old(self)@.scene,
                footprints: old(self)@.footprints.push(footprint),
            }),
    {
        self.footprints.push(footprint);
    }
}

} // verus!
