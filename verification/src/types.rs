//! Placement categories and the 32-bit sets of them.

use vstd::prelude::*;

verus! {

/// Identifier of a placement category. A mask can hold the identifiers in `[0, 32)`.
pub type RegionsType = u32;

/// A set of placement categories, one bit per category.
#[derive(Debug, Clone, Copy, PartialEq, Eq, Structural)]
pub struct RegionsTypeMask {
    bits: u32,
}

impl View for RegionsTypeMask {
    type V = Set<RegionsType>;

    /// The categories the mask holds: those whose bit is set.
    open spec fn view(&self) -> Set<RegionsType> {
        Set::new(|id: RegionsType| id < 32 && (self.spec_bits() >> id) & 1 == 1)
    }
}

impl RegionsTypeMask {
    /// The raw bit pattern: bit `id` stands for the category `id`.
    pub closed spec fn spec_bits(self) -> u32 {
        self.bits
    }

    /// The mask that holds no category.
    pub fn none() -> (mask: Self)
        ensures
            mask@ == Set::<RegionsType>::empty(),
            mask.spec_bits() == 0,
    {
        let mask = RegionsTypeMask { bits: 0 };
        proof {
            assert forall|id: RegionsType| !mask@.contains(id) by {
                assert((0u32 >> id) & 1 != 1) by (bit_vector);
            }
            assert(mask@ =~= Set::<RegionsType>::empty());
        }
        mask
    }

    /// The mask that holds every category.
    pub fn all() -> (mask: Self)
        ensures
            mask@ == Set::new(|id: RegionsType| id < 32),
            mask.spec_bits() == u32::MAX,
    {
        let mask = RegionsTypeMask { bits: u32::MAX };
        proof {
            assert forall|id: RegionsType| id < 32 implies mask@.contains(id) by {
                assert(id < 32 ==> (0xffff_ffffu32 >> id) & 1 == 1) by (bit_vector);
            }
            assert(mask@ =~= Set::new(|id: RegionsType| id < 32));
        }
        mask
    }

    /// The raw bit pattern.
    pub fn bits(&self) -> (bits: u32)
        ensures
            bits == self.spec_bits(),
    {
        self.bits
    }

    /// The mask with the given bit pattern. Every bit names a category, so none is dropped.
    pub fn from_bits_truncate(bits: u32) -> (mask: Self)
        ensures
            mask.spec_bits() == bits,
    {
        RegionsTypeMask { bits }
    }

    /// The mask that holds `id` alone, or `None` when `id` does not fit in a mask.
    pub fn from_id(id: RegionsType) -> (result: Option<Self>)
        ensures
            id >= 32 <==> result is None,
            id < 32 ==> result.unwrap()@ == set![id] && result.unwrap().spec_bits() == 1u32 << id,
    {
        if id >= 32 {
            return None;
        }
        let mask = RegionsTypeMask { bits: 1u32 << id };
        proof {
            assert forall|other: RegionsType| mask@.contains(other) <==> other == id by {
                assert(id < 32 && other < 32 ==> (((1u32 << id) >> other) & 1 == 1 <==> other == id))
                    by (bit_vector);
            }
            assert(mask@ =~= set![id]);
        }
        Some(mask)
    }

    /// Whether the mask holds `id`. An identifier that does not fit is never held.
    pub fn contains_id(self, id: RegionsType) -> (held: bool)
        ensures
            held == self@.contains(id),
    {
        if id >= 32 {
            return false;
        }
        let bit: u32 = 1u32 << id;
        let bits: u32 = self.bits;
        proof {
            assert(id < 32 ==> ((bits & (1u32 << id)) == (1u32 << id) <==> (bits >> id) & 1 == 1))
                by (bit_vector);
        }
        self.bits & bit == bit
    }

    /// Adds `id` to the mask. Returns `false`, and leaves the mask as it was, when `id`
    /// does not fit.
    pub fn insert_id(&mut self, id: RegionsType) -> (inserted: bool)
        ensures
            inserted == (id < 32),
            inserted ==> final(self)@ == old(self)@.insert(id) && final(self).spec_bits() == old(
                self,
            ).spec_bits() | (1u32 << id),
            !inserted ==> *final(self) == *old(self),
    {
        if id >= 32 {
            return false;
        }
        let before: u32 = self.bits;
        self.bits = before | (1u32 << id);
        proof {
            assert forall|other: RegionsType|
                self@.contains(other) <==> (other == id || old(self)@.contains(other)) by {
                assert(id < 32 && other < 32 ==> ((((before | (1u32 << id)) >> other) & 1 == 1) <==> (
                other == id || (before >> other) & 1 == 1))) by (bit_vector);
            }
            assert(self@ =~= old(self)@.insert(id));
        }
        true
    }
    /// Two masks that hold the same categories are the same mask.
    pub proof fn lemma_same_categories_same_mask(self, other: Self)
        requires
            self@ == other@,
        ensures
            self == other,
    {
        let x = self.bits;
        let y = other.bits;
        assert(self@.contains(0) == ((x >> 0u32) & 1 == 1) && other@.contains(0) == ((y >> 0u32) & 1 == 1));
        assert(self@.contains(1) == ((x >> 1u32) & 1 == 1) && other@.contains(1) == ((y >> 1u32) & 1 == 1));
        assert(self@.contains(2) == ((x >> 2u32) & 1 == 1) && other@.contains(2) == ((y >> 2u32) & 1 == 1));
        assert(self@.contains(3) == ((x >> 3u32) & 1 == 1) && other@.contains(3) == ((y >> 3u32) & 1 == 1));
        assert(self@.contains(4) == ((x >> 4u32) & 1 == 1) && other@.contains(4) == ((y >> 4u32) & 1 == 1));
        assert(self@.contains(5) == ((x >> 5u32) & 1 == 1) && other@.contains(5) == ((y >> 5u32) & 1 == 1));
        assert(self@.contains(6) == ((x >> 6u32) & 1 == 1) && other@.contains(6) == ((y >> 6u32) & 1 == 1));
        assert(self@.contains(7) == ((x >> 7u32) & 1 == 1) && other@.contains(7) == ((y >> 7u32) & 1 == 1));
        assert(self@.contains(8) == ((x >> 8u32) & 1 == 1) && other@.contains(8) == ((y >> 8u32) & 1 == 1));
        assert(self@.contains(9) == ((x >> 9u32) & 1 == 1) && other@.contains(9) == ((y >> 9u32) & 1 == 1));
        assert(self@.contains(10) == ((x >> 10u32) & 1 == 1) && other@.contains(10) == ((y >> 10u32) & 1 == 1));
        assert(self@.contains(11) == ((x >> 11u32) & 1 == 1) && other@.contains(11) == ((y >> 11u32) & 1 == 1));
        assert(self@.contains(12) == ((x >> 12u32) & 1 == 1) && other@.contains(12) == ((y >> 12u32) & 1 == 1));
        assert(self@.contains(13) == ((x >> 13u32) & 1 == 1) && other@.contains(13) == ((y >> 13u32) & 1 == 1));
        assert(self@.contains(14) == ((x >> 14u32) & 1 == 1) && other@.contains(14) == ((y >> 14u32) & 1 == 1));
        assert(self@.contains(15) == ((x >> 15u32) & 1 == 1) && other@.contains(15) == ((y >> 15u32) & 1 == 1));
        assert(self@.contains(16) == ((x >> 16u32) & 1 == 1) && other@.contains(16) == ((y >> 16u32) & 1 == 1));
        assert(self@.contains(17) == ((x >> 17u32) & 1 == 1) && other@.contains(17) == ((y >> 17u32) & 1 == 1));
        assert(self@.contains(18) == ((x >> 18u32) & 1 == 1) && other@.contains(18) == ((y >> 18u32) & 1 == 1));
        assert(self@.contains(19) == ((x >> 19u32) & 1 == 1) && other@.contains(19) == ((y >> 19u32) & 1 == 1));
        assert(self@.contains(20) == ((x >> 20u32) & 1 == 1) && other@.contains(20) == ((y >> 20u32) & 1 == 1));
        assert(self@.contains(21) == ((x >> 21u32) & 1 == 1) && other@.contains(21) == ((y >> 21u32) & 1 == 1));
        assert(self@.contains(22) == ((x >> 22u32) & 1 == 1) && other@.contains(22) == ((y >> 22u32) & 1 == 1));
        assert(self@.contains(23) == ((x >> 23u32) & 1 == 1) && other@.contains(23) == ((y >> 23u32) & 1 == 1));
        assert(self@.contains(24) == ((x >> 24u32) & 1 == 1) && other@.contains(24) == ((y >> 24u32) & 1 == 1));
        assert(self@.contains(25) == ((x >> 25u32) & 1 == 1) && other@.contains(25) == ((y >> 25u32) & 1 == 1));
        assert(self@.contains(26) == ((x >> 26u32) & 1 == 1) && other@.contains(26) == ((y >> 26u32) & 1 == 1));
        assert(self@.contains(27) == ((x >> 27u32) & 1 == 1) && other@.contains(27) == ((y >> 27u32) & 1 == 1));
        assert(self@.contains(28) == ((x >> 28u32) & 1 == 1) && other@.contains(28) == ((y >> 28u32) & 1 == 1));
        assert(self@.contains(29) == ((x >> 29u32) & 1 == 1) && other@.contains(29) == ((y >> 29u32) & 1 == 1));
        assert(self@.contains(30) == ((x >> 30u32) & 1 == 1) && other@.contains(30) == ((y >> 30u32) & 1 == 1));
        assert(self@.contains(31) == ((x >> 31u32) & 1 == 1) && other@.contains(31) == ((y >> 31u32) & 1 == 1));
        assert(x == y) by (bit_vector)
            requires
                ((x >> 0u32) & 1 == 1) == ((y >> 0u32) & 1 == 1),
                ((x >> 1u32) & 1 == 1) == ((y >> 1u32) & 1 == 1),
                ((x >> 2u32) & 1 == 1) == ((y >> 2u32) & 1 == 1),
                ((x >> 3u32) & 1 == 1) == ((y >> 3u32) & 1 == 1),
                ((x >> 4u32) & 1 == 1) == ((y >> 4u32) & 1 == 1),
                ((x >> 5u32) & 1 == 1) == ((y >> 5u32) & 1 == 1),
                ((x >> 6u32) & 1 == 1) == ((y >> 6u32) & 1 == 1),
                ((x >> 7u32) & 1 == 1) == ((y >> 7u32) & 1 == 1),
                ((x >> 8u32) & 1 == 1) == ((y >> 8u32) & 1 == 1),
                ((x >> 9u32) & 1 == 1) == ((y >> 9u32) & 1 == 1),
                ((x >> 10u32) & 1 == 1) == ((y >> 10u32) & 1 == 1),
                ((x >> 11u32) & 1 == 1) == ((y >> 11u32) & 1 == 1),
                ((x >> 12u32) & 1 == 1) == ((y >> 12u32) & 1 == 1),
                ((x >> 13u32) & 1 == 1) == ((y >> 13u32) & 1 == 1),
                ((x >> 14u32) & 1 == 1) == ((y >> 14u32) & 1 == 1),
                ((x >> 15u32) & 1 == 1) == ((y >> 15u32) & 1 == 1),
                ((x >> 16u32) & 1 == 1) == ((y >> 16u32) & 1 == 1),
                ((x >> 17u32) & 1 == 1) == ((y >> 17u32) & 1 == 1),
                ((x >> 18u32) & 1 == 1) == ((y >> 18u32) & 1 == 1),
                ((x >> 19u32) & 1 == 1) == ((y >> 19u32) & 1 == 1),
                ((x >> 20u32) & 1 == 1) == ((y >> 20u32) & 1 == 1),
                ((x >> 21u32) & 1 == 1) == ((y >> 21u32) & 1 == 1),
                ((x >> 22u32) & 1 == 1) == ((y >> 22u32) & 1 == 1),
                ((x >> 23u32) & 1 == 1) == ((y >> 23u32) & 1 == 1),
                ((x >> 24u32) & 1 == 1) == ((y >> 24u32) & 1 == 1),
                ((x >> 25u32) & 1 == 1) == ((y >> 25u32) & 1 == 1),
                ((x >> 26u32) & 1 == 1) == ((y >> 26u32) & 1 == 1),
                ((x >> 27u32) & 1 == 1) == ((y >> 27u32) & 1 == 1),
                ((x >> 28u32) & 1 == 1) == ((y >> 28u32) & 1 == 1),
                ((x >> 29u32) & 1 == 1) == ((y >> 29u32) & 1 == 1),
                ((x >> 30u32) & 1 == 1) == ((y >> 30u32) & 1 == 1),
                ((x >> 31u32) & 1 == 1) == ((y >> 31u32) & 1 == 1),
        ;
    }
}

} // verus!
