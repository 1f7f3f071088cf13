//! Items at each stability level (deprecated, unstable, stable), with and
//! without an explanatory text, for exercising stability lints on callers.
use vstd::prelude::*;

verus! {

pub fn deprecated() {
}

pub fn deprecated_text() {
}

pub fn deprecated_future() {
}

pub fn deprecated_unstable() {
}

pub fn deprecated_unstable_text() {
}

pub fn unstable() {
}

pub fn unstable_text() {
}

pub fn stable() {
}

pub fn stable_text() {
}

pub struct MethodTester;

impl MethodTester {
    pub fn method_deprecated(&self) {
    }

    pub fn method_deprecated_text(&self) {
    }

    pub fn method_deprecated_unstable(&self) {
    }

    pub fn method_deprecated_unstable_text(&self) {
    }

    pub fn method_unstable(&self) {
    }

    pub fn method_unstable_text(&self) {
    }

    pub fn method_stable(&self) {
    }

    pub fn method_stable_text(&self) {
    }
}

pub trait Trait {
    fn trait_deprecated(&self) {
    }

    fn trait_deprecated_text(&self) {
    }

    fn trait_deprecated_unstable(&self) {
    }

    fn trait_deprecated_unstable_text(&self) {
    }

    fn trait_unstable(&self) {
    }

    fn trait_unstable_text(&self) {
    }

    fn trait_stable(&self) {
    }

    fn trait_stable_text(&self) {
    }
}

pub trait TraitWithAssociatedTypes {
    type TypeUnstable;

    type TypeDeprecated;
}

impl Trait for MethodTester {
}

pub trait UnstableTrait {
    fn dummy(&self) {
    }
}

pub trait DeprecatedTrait {
    fn dummy(&self) {
    }
}

pub struct DeprecatedStruct {
    pub i: isize,
}

pub struct DeprecatedUnstableStruct {
    pub i: isize,
}

pub struct UnstableStruct {
    pub i: isize,
}

pub struct StableStruct {
    pub i: isize,
}

// The empty enums `UnstableEnum` and `StableEnum` have no counterpart here:
// Verus refuses a datatype without a variant.

pub struct DeprecatedUnitStruct;

pub struct DeprecatedUnstableUnitStruct;

pub struct UnstableUnitStruct;

pub struct StableUnitStruct;

pub enum Enum {
    DeprecatedVariant,
    DeprecatedUnstableVariant,
    UnstableVariant,
    StableVariant,
}

pub struct DeprecatedTupleStruct(pub isize);

pub struct DeprecatedUnstableTupleStruct(pub isize);

pub struct UnstableTupleStruct(pub isize);

pub struct StableTupleStruct(pub isize);

} // verus!
