//! Lookup keys: a pattern projected to what a phase cares about, with the
//! auxiliary invariant that the projection loses.
use vstd::prelude::*;

use crate::puzzle::{mask, mask_spec, maskable, parity, parity_spec};

verus! {

/// A key as mathematical values: the masked pattern and the auxiliary invariant.
pub type KeyView = (Seq<u8>, u8);

/// What a phase supplies: which masked patterns belong to it.
pub trait PatternValidityChecker {
    /// The masked patterns that belong to the phase.
    spec fn valid_spec(masked: Seq<u8>) -> bool;

    fn is_valid(masked: &Vec<u8>) -> (r: bool)
        ensures
            r == Self::valid_spec(masked@),
    ;
}

/// Accepts every masked pattern.
pub struct AlwaysValid;

impl PatternValidityChecker for AlwaysValid {
    open spec fn valid_spec(masked: Seq<u8>) -> bool {
        true
    }

    fn is_valid(masked: &Vec<u8>) -> (r: bool) {
        true
    }
}

/// Accepts the masked patterns whose first slot holds 0.
pub struct FirstSlotZero;

impl PatternValidityChecker for FirstSlotZero {
    open spec fn valid_spec(masked: Seq<u8>) -> bool {
        masked.len() > 0 && masked[0] == 0
    }

    fn is_valid(masked: &Vec<u8>) -> (r: bool) {
        masked.len() > 0 && masked[0] == 0
    }
}

/// The key of `full` in the phase given by `mask` and `C`, or `None` where the
/// masked pattern is outside the phase. The auxiliary invariant is the parity
/// of the full pattern, whatever the phase.
pub open spec fn key_spec<C: PatternValidityChecker>(full: Seq<u8>, mask: Seq<u8>) -> Option<
    KeyView,
> {
    let masked = mask_spec(full, mask);
    if C::valid_spec(masked) {
        Some((masked, parity_spec(full)))
    } else {
        None
    }
}

/// A pattern's identity within a phase.
#[derive(Debug)]
pub struct LookupPattern {
    pub masked_pattern: Vec<u8>,
    pub parity: u8,
}

impl View for LookupPattern {
    type V = KeyView;

    open spec fn view(&self) -> KeyView {
        (self.masked_pattern@, self.parity)
    }
}

impl Clone for LookupPattern {
    fn clone(&self) -> (r: Self)
        ensures
            r@ == self@,
    {
        LookupPattern { masked_pattern: self.masked_pattern.clone(), parity: self.parity }
    }
}

impl LookupPattern {
    /// The key of `full_pattern` under `phase_mask`, or `None` where the masked
    /// pattern does not belong to the phase.
    pub fn try_new<C: PatternValidityChecker>(full_pattern: &Vec<u8>, phase_mask: &Vec<u8>) -> (r:
        Option<Self>)
        requires
            maskable(full_pattern@, phase_mask@),
        ensures
            r matches Some(k) ==> key_spec::<C>(full_pattern@, phase_mask@) == Some(k@),
            r matches Some(k) ==> k@ == (mask_spec(full_pattern@, phase_mask@), parity_spec(
                full_pattern@,
            )),
            r is None ==> key_spec::<C>(full_pattern@, phase_mask@) is None,
    {
        let masked_pattern = mask(full_pattern, phase_mask);
        if !C::is_valid(&masked_pattern) {
            return None;
        }
        let parity = parity(full_pattern);
        Some(LookupPattern { masked_pattern, parity })
    }

    /// Structural equality over both parts of the key.
    pub fn same_key(&self, other: &Self) -> (r: bool)
        ensures
            r == (self@ == other@),
    {
        if self.parity != other.parity || self.masked_pattern.len() != other.masked_pattern.len() {
            return false;
        }
        let mut i: usize = 0;
        while i < self.masked_pattern.len()
            invariant
                i <= self.masked_pattern@.len(),
                self.masked_pattern@.len() == other.masked_pattern@.len(),
                self.masked_pattern@.take(i as int) == other.masked_pattern@.take(i as int),
            decreases self.masked_pattern.len() - i,
        {
            if self.masked_pattern[i] != other.masked_pattern[i] {
                assert(self.masked_pattern@[i as int] != other.masked_pattern@[i as int]);
                return false;
            }
            assert(self.masked_pattern@.take(i + 1) =~= self.masked_pattern@.take(i as int).push(
                self.masked_pattern@[i as int],
            ));
            assert(other.masked_pattern@.take(i + 1) =~= other.masked_pattern@.take(
                i as int,
            ).push(other.masked_pattern@[i as int]));
            i += 1;
        }
        assert(self.masked_pattern@ =~= self.masked_pattern@.take(i as int));
        assert(other.masked_pattern@ =~= other.masked_pattern@.take(i as int));
        true
    }
}

} // verus!
