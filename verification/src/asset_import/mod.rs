//! Reading scene descriptions: the text is handled as bytes, and what the text says
//! of meshes is turned into triangles and masks.

pub mod faces;
pub mod region_import;
pub mod scan;
pub mod space_import;
pub mod usda_common;
