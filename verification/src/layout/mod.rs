//! Layouts as search states: what is placed, what is left to place, and what the
//! placed items occupy.

pub mod geometry;
pub mod laws;
pub mod placement;
pub mod sampling;
pub mod scene;
pub mod state;

pub use geometry::GeometryCache;
pub use placement::Placement;
pub use state::LayoutState;
