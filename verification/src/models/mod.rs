//! The geometry a search is given: the room's surfaces and, for each kind of item,
//! where it may stand.

pub mod mesh;
pub mod placement_region;
pub mod rect;
pub mod space;
