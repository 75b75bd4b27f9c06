//! The kinds of furniture a layout can hold.

use vstd::prelude::*;

verus! {

/// A kind of furniture.
#[derive(Debug, Clone, Copy, PartialEq, Eq, Structural)]
pub enum FurnitureType {
    Sofa,
    Table,
    Lamp,
}

} // verus!
