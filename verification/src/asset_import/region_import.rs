//! What the name of a mesh says of the region it bounds.

use crate::asset_import::scan::{find, spec_find};
use crate::models::placement_region::RegionClass;
use vstd::prelude::*;

verus! {

/// `byte` with a capital letter of ASCII turned into its small letter.
pub open spec fn spec_lower(byte: u8) -> u8 {
    if 0x41 <= byte <= 0x5a {
        (byte + 0x20) as u8
    } else {
        byte
    }
}

/// `text` with every capital letter of ASCII turned into its small letter.
pub open spec fn spec_to_ascii_lowercase(text: Seq<u8>) -> Seq<u8> {
    Seq::new(text.len(), |i: int| spec_lower(text[i]))
}

/// `text` with every capital letter of ASCII turned into its small letter.
pub fn to_ascii_lowercase(text: &[u8]) -> (lower: Vec<u8>)
    ensures
        lower@ == spec_to_ascii_lowercase(text@),
{
    let mut lower: Vec<u8> = Vec::new();
    let mut at: usize = 0;
    while at < text.len()
        invariant
            at <= text@.len(),
            lower@ == spec_to_ascii_lowercase(text@.take(at as int)),
        decreases text@.len() - at,
    {
        let byte: u8 = text[at];
        lower.push(if 0x41 <= byte && byte <= 0x5a { byte + 0x20 } else { byte });
        assert(lower@ =~= spec_to_ascii_lowercase(text@.take(at + 1)));
        at += 1;
    }
    assert(text@.take(text@.len() as int) =~= text@);
    lower
}

/// The bytes of `forbidden`.
pub open spec fn spec_forbidden_word() -> Seq<u8> {
    seq![0x66, 0x6f, 0x72, 0x62, 0x69, 0x64, 0x64, 0x65, 0x6e]
}

/// The bytes of `restricted`.
pub open spec fn spec_restricted_word() -> Seq<u8> {
    seq![0x72, 0x65, 0x73, 0x74, 0x72, 0x69, 0x63, 0x74, 0x65, 0x64]
}

/// The class of the region that a mesh named `name` bounds: forbidden when the name
/// holds `forbidden`, else restricted when it holds `restricted`, in capital or small
/// letters; `None` when it holds neither.
pub open spec fn spec_region_class(name: Seq<u8>) -> Option<RegionClass> {
    let lower = spec_to_ascii_lowercase(name);
    if spec_find(lower, spec_forbidden_word(), 0) is Some {
        Some(RegionClass::Forbidden)
    } else if spec_find(lower, spec_restricted_word(), 0) is Some {
        Some(RegionClass::Restricted)
    } else {
        None
    }
}

/// The class of the region that a mesh named `name` bounds.
pub fn region_class(name: &[u8]) -> (class: Option<RegionClass>)
    ensures
        class == spec_region_class(name@),
{
    let lower = to_ascii_lowercase(name);
    let forbidden: Vec<u8> = vec![0x66, 0x6f, 0x72, 0x62, 0x69, 0x64, 0x64, 0x65, 0x6e];
    assert(forbidden@ =~= spec_forbidden_word());
    let restricted: Vec<u8> = vec![0x72, 0x65, 0x73, 0x74, 0x72, 0x69, 0x63, 0x74, 0x65, 0x64];
    assert(restricted@ =~= spec_restricted_word());
    if find(lower.as_slice(), forbidden.as_slice(), 0).is_some() {
        Some(RegionClass::Forbidden)
    } else if find(lower.as_slice(), restricted.as_slice(), 0).is_some() {
        Some(RegionClass::Restricted)
    } else {
        None
    }
}

} // verus!
