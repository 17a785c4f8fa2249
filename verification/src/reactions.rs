//! The reaction table: a fixed mapping from unordered pairs of element
//! kinds to a product kind.  A pair is canonicalised by sorting its two
//! kinds in the total order over kinds, so lookups are symmetric.

use vstd::prelude::*;
use crate::elements::ElementType;

verus! {

/// A canonical unordered pair of kinds: the two kinds sorted by rank.
#[derive(Clone, Copy, Debug, PartialEq, Eq, Structural)]
pub struct ReactionKey(pub ElementType, pub ElementType);

/// The canonical key of the unordered pair `{a, b}`.
pub open spec fn spec_key(a: ElementType, b: ElementType) -> ReactionKey {
    if a.spec_rank() <= b.spec_rank() {
        ReactionKey(a, b)
    } else {
        ReactionKey(b, a)
    }
}

impl ReactionKey {
    /// Sorts the two kinds into their canonical order.
    pub fn new(a: ElementType, b: ElementType) -> (k: ReactionKey)
        ensures
            k == spec_key(a, b),
    {
        if a.rank() <= b.rank() {
            ReactionKey(a, b)
        } else {
            ReactionKey(b, a)
        }
    }
}

/// One entry of the reaction table: the kind that replaces the initiating
/// cell (the reacted-with neighbour becomes air).
#[derive(Clone, Copy, Debug, PartialEq, Eq, Structural)]
pub struct ChemicalReaction {
    pub result: ElementType,
}

/// The fixed reaction table, as a function of the canonical pair: sand and
/// stone react to bendium; every other pair is inert.
pub open spec fn spec_reaction(a: ElementType, b: ElementType) -> Option<ElementType> {
    if spec_key(a, b) == ReactionKey(ElementType::Sand, ElementType::Stone) {
        Some(ElementType::Bendium)
    } else {
        None
    }
}

/// Looks the unordered pair `{a, b}` up in the reaction table.
pub fn check_reaction(a: &ElementType, b: &ElementType) -> (r: Option<ChemicalReaction>)
    ensures
        match r {
            Some(c) => spec_reaction(*a, *b) == Some(c.result),
            None => spec_reaction(*a, *b) is None,
        },
{
    let key = ReactionKey::new(*a, *b);
    if key.0 == ElementType::Sand && key.1 == ElementType::Stone {
        Some(ChemicalReaction { result: ElementType::Bendium })
    } else {
        None
    }
}

/// The reaction table is keyed by unordered pairs: looking a pair up in
/// either order gives the same product.
pub proof fn lemma_reaction_symmetric(a: ElementType, b: ElementType)
    ensures
        spec_reaction(a, b) == spec_reaction(b, a),
{
}

/// The shape of the reaction table: the only reactive pair is sand with
/// stone, and its product is bendium.
pub proof fn lemma_reaction_table_shape(a: ElementType, b: ElementType)
    ensures
        spec_reaction(a, b) is Some ==> ((a == ElementType::Sand && b == ElementType::Stone) || (a
            == ElementType::Stone && b == ElementType::Sand)) && spec_reaction(a, b) == Some(
            ElementType::Bendium,
        ),
{
}

/// A kind is a reaction product if some pair of kinds produces it.
pub open spec fn is_reaction_product(t: ElementType) -> bool {
    exists|a: ElementType, b: ElementType| spec_reaction(a, b) == Some(t)
}

} // verus!
