//! What a surface of the room is open to.

use crate::asset_import::usda_common::{
    mask_from_names, spec_mask_from_names, MaskError, RegistryEntry,
};
use crate::types::{RegionsType, RegionsTypeMask};
use vstd::prelude::*;

verus! {

/// The categories that a surface with the category names `names` is open to: those
/// that the names stand for, and `unnamed` when the surface names none.
pub open spec fn spec_surface_mask(
    names: Seq<Vec<u8>>,
    registry: Seq<RegistryEntry>,
    unnamed: Set<RegionsType>,
) -> Result<Set<RegionsType>, MaskError> {
    if names.len() == 0 {
        Ok(unnamed)
    } else {
        spec_mask_from_names(names, registry, names.len() as int)
    }
}

/// The mask of a surface with the category names `names`. A surface that names no
/// category gets the mask `unnamed`.
pub fn surface_mask(names: &[Vec<u8>], registry: &[RegistryEntry], unnamed: RegionsTypeMask) -> (result:
    Result<RegionsTypeMask, MaskError>)
    ensures
        result is Ok <==> spec_surface_mask(names@, registry@, unnamed@) is Ok,
        result is Ok ==> result->Ok_0@ == spec_surface_mask(names@, registry@, unnamed@)->Ok_0,
        result is Err ==> result->Err_0 == spec_surface_mask(names@, registry@, unnamed@)->Err_0,
        names@.len() == 0 ==> result == Ok::<RegionsTypeMask, MaskError>(unnamed),
{
    if names.len() == 0 {
        Ok(unnamed)
    } else {
        mask_from_names(names, registry)
    }
}

} // verus!
