//! The recipe domain model, and the ghost byte-level models that the parser
//! contracts are stated over.

use vstd::prelude::*;

use crate::events::lossy_decode;

verus! {

/// The numerical part of an [`Amount`].
///
/// A decimal numeral is kept exactly: the digits of its integral and
/// fractional parts joined by a `.` byte, as they stood in the source.
#[derive(Debug, Clone, PartialEq)]
pub enum Factor {
    Integer(u32),
    Fraction(u16, u16),
    Decimal(Vec<u8>),
}

/// An amount used for ingredients and yields. `factor` is `None` only when
/// no numeric pattern matched at all; the whole trimmed text then becomes
/// the unit.
#[derive(Debug, Clone, PartialEq)]
pub struct Amount {
    pub factor: Option<Factor>,
    pub unit: Option<String>,
}

/// One ingredient entry.
#[derive(Debug, Clone, PartialEq)]
pub struct Ingredient {
    pub amount: Option<Amount>,
    pub name: String,
    pub link: Option<String>,
}

/// A named or anonymous bucket of ingredient entries.
#[derive(Debug, Clone, PartialEq)]
pub struct IngredientGroup {
    pub title: Option<String>,
    pub ingredients: Vec<Ingredient>,
}

/// A parsed recipe.
#[derive(Debug, Clone, PartialEq)]
pub struct Recipe {
    pub title: String,
    pub description: Option<String>,
    pub tags: Vec<String>,
    pub yields: Vec<Amount>,
    pub ingredients: Vec<IngredientGroup>,
    pub instructions: Option<String>,
}

/// Byte-level model of a [`Factor`].
pub ghost enum FactorM {
    Integer(u32),
    Fraction(u16, u16),
    Decimal(Seq<u8>),
}

/// Byte-level model of an [`Amount`].
pub ghost struct AmountM {
    pub factor: Option<FactorM>,
    pub unit: Option<Seq<u8>>,
}

/// Byte-level model of an [`Ingredient`]. The link is already escaped text,
/// so it is modelled at the character level.
pub ghost struct IngredientM {
    pub amount: Option<AmountM>,
    pub name: Seq<u8>,
    pub link: Option<Seq<char>>,
}

/// Byte-level model of an [`IngredientGroup`].
pub ghost struct GroupM {
    pub title: Option<Seq<u8>>,
    pub ingredients: Seq<IngredientM>,
}

/// Byte-level model of a [`Recipe`].
pub ghost struct RecipeM {
    pub title: Seq<u8>,
    pub description: Option<Seq<u8>>,
    pub tags: Seq<Seq<u8>>,
    pub yields: Seq<AmountM>,
    pub ingredients: Seq<GroupM>,
    pub instructions: Option<Seq<u8>>,
}

pub open spec fn factor_matches(f: Factor, m: FactorM) -> bool {
    match (f, m) {
        (Factor::Integer(a), FactorM::Integer(b)) => a == b,
        (Factor::Fraction(n, d), FactorM::Fraction(n2, d2)) => n == n2 && d == d2,
        (Factor::Decimal(v), FactorM::Decimal(b)) => v@ == b,
        _ => false,
    }
}

/// An optional owned text equals the decoding of an optional byte range.
pub open spec fn opt_text_matches(s: Option<String>, m: Option<Seq<u8>>) -> bool {
    match (s, m) {
        (Option::None, Option::None) => true,
        (Option::Some(t), Option::Some(b)) => t@ == lossy_decode(b),
        _ => false,
    }
}

pub open spec fn amount_matches(a: Amount, m: AmountM) -> bool {
    &&& opt_text_matches(a.unit, m.unit)
    &&& match (a.factor, m.factor) {
        (Option::None, Option::None) => true,
        (Option::Some(f), Option::Some(fm)) => factor_matches(f, fm),
        _ => false,
    }
}

pub open spec fn ingredient_matches(x: Ingredient, m: IngredientM) -> bool {
    &&& x.name@ == lossy_decode(m.name)
    &&& match (x.amount, m.amount) {
        (Option::None, Option::None) => true,
        (Option::Some(a), Option::Some(am)) => amount_matches(a, am),
        _ => false,
    }
    &&& match (x.link, m.link) {
        (Option::None, Option::None) => true,
        (Option::Some(l), Option::Some(lm)) => l@ == lm,
        _ => false,
    }
}

pub open spec fn group_matches(g: IngredientGroup, m: GroupM) -> bool {
    &&& opt_text_matches(g.title, m.title)
    &&& g.ingredients@.len() == m.ingredients.len()
    &&& forall|i: int|
        0 <= i < m.ingredients.len() ==> ingredient_matches(
            #[trigger] g.ingredients@[i],
            m.ingredients[i],
        )
}

pub open spec fn recipe_matches(r: Recipe, m: RecipeM) -> bool {
    &&& r.title@ == lossy_decode(m.title)
    &&& opt_text_matches(r.description, m.description)
    &&& r.tags@.len() == m.tags.len()
    &&& forall|i: int| 0 <= i < m.tags.len() ==> (#[trigger] r.tags@[i])@ == lossy_decode(m.tags[i])
    &&& r.yields@.len() == m.yields.len()
    &&& forall|i: int|
        0 <= i < m.yields.len() ==> amount_matches(#[trigger] r.yields@[i], m.yields[i])
    &&& r.ingredients@.len() == m.ingredients.len()
    &&& forall|i: int|
        0 <= i < m.ingredients.len() ==> group_matches(#[trigger] r.ingredients@[i], m.ingredients[i])
    &&& opt_text_matches(r.instructions, m.instructions)
}

} // verus!
