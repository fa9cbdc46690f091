use vstd::prelude::*;
use crate::ast::BuiltinType;

verus! {

/// The three-way representability verdict for an ordered pair of types:
/// whether every value of the source type can be expressed, without loss, as
/// a value of the target type. It is defined for every ordered pair and never
/// fails.
#[derive(Clone, Copy, Debug, PartialEq, Eq, Structural)]
pub enum RepEquality {
    /// The two types have identical representation.
    Eq,
    /// The target type's value space strictly contains the source's: the
    /// mapping is safe and lossless, but not symmetric.
    Superset,
    /// No safe mapping exists.
    NotEq,
}

/// Strict widenings: every value of `from` fits in `to`, and `to` has values
/// that `from` lacks.
pub open spec fn widens_to(from: BuiltinType, to: BuiltinType) -> bool {
    match (from, to) {
        (BuiltinType::U8, BuiltinType::U16) => true,
        (BuiltinType::U8, BuiltinType::U32) => true,
        (BuiltinType::U8, BuiltinType::U64) => true,
        (BuiltinType::U16, BuiltinType::U32) => true,
        (BuiltinType::U16, BuiltinType::U64) => true,
        (BuiltinType::U32, BuiltinType::U64) => true,
        (BuiltinType::S8, BuiltinType::S16) => true,
        (BuiltinType::S8, BuiltinType::S32) => true,
        (BuiltinType::S8, BuiltinType::S64) => true,
        (BuiltinType::S16, BuiltinType::S32) => true,
        (BuiltinType::S16, BuiltinType::S64) => true,
        (BuiltinType::S32, BuiltinType::S64) => true,
        _ => false,
    }
}

/// The representability verdict for values of `from` against target type `to`.
pub open spec fn representable_spec(from: BuiltinType, to: BuiltinType) -> RepEquality {
    if from == to {
        RepEquality::Eq
    } else if widens_to(from, to) {
        RepEquality::Superset
    } else {
        RepEquality::NotEq
    }
}

impl BuiltinType {
    /// Classifies whether every value of `self` is representable by `by`.
    pub fn representable(&self, by: &BuiltinType) -> (r: RepEquality)
        ensures
            r == representable_spec(*self, *by),
    {
        if *self == *by {
            RepEquality::Eq
        } else if self.widens_to(by) {
            RepEquality::Superset
        } else {
            RepEquality::NotEq
        }
    }

    fn widens_to(&self, by: &BuiltinType) -> (r: bool)
        ensures
            r == widens_to(*self, *by),
    {
        match (self, by) {
            (BuiltinType::U8, BuiltinType::U16) => true,
            (BuiltinType::U8, BuiltinType::U32) => true,
            (BuiltinType::U8, BuiltinType::U64) => true,
            (BuiltinType::U16, BuiltinType::U32) => true,
            (BuiltinType::U16, BuiltinType::U64) => true,
            (BuiltinType::U32, BuiltinType::U64) => true,
            (BuiltinType::S8, BuiltinType::S16) => true,
            (BuiltinType::S8, BuiltinType::S32) => true,
            (BuiltinType::S8, BuiltinType::S64) => true,
            (BuiltinType::S16, BuiltinType::S32) => true,
            (BuiltinType::S16, BuiltinType::S64) => true,
            (BuiltinType::S32, BuiltinType::S64) => true,
            _ => false,
        }
    }
}

/// Representability is reflexive: classifying a type against itself always
/// yields `Eq`.
pub proof fn lemma_representable_reflexive(t: BuiltinType)
    ensures
        representable_spec(t, t) == RepEquality::Eq,
{
}

} // verus!
