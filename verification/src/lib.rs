pub mod amount;
pub mod ast;
pub mod error;
pub mod events;
pub mod models;
pub mod parser;
pub mod text;

pub use error::{Error, ErrorKind};
pub use models::{Amount, Factor, Ingredient, IngredientGroup, Recipe};
pub use parser::RecipeParser;

use vstd::prelude::*;
use vstd::string::StringSliceAdditionalSpecFns;
use vstd::string::StringExecFns;

verus! {

/// A half-open byte range into the source text.
#[derive(Clone, Copy, Debug, PartialEq, Eq, Structural)]
pub struct Span {
    pub start: usize,
    pub end: usize,
}

impl Span {
    pub fn new(start: usize, end: usize) -> (s: Span)
        ensures
            s.start == start,
            s.end == end,
    {
        Span { start, end }
    }
}

impl Recipe {
    /// Parses a recipe from a markdown string. On failure the error
    /// carries the source text, for diagnostics.
    pub fn parse(src: &str) -> (r: Result<Recipe, Error>)
        ensures
            match (r, crate::parser::spec_parse_recipe(
                src.spec_bytes(),
                crate::events::md_events(src.spec_bytes()),
            )) {
                (Result::Ok(rec), Result::Ok(m)) => crate::models::recipe_matches(rec, m),
                (Result::Err(e), Result::Err(em)) => crate::error::error_matches(e, em, src@),
                _ => false,
            },
    {
        let mut p = RecipeParser::new(src);
        match p.parse_recipe() {
            Ok(rec) => Ok(rec),
            Err(e) => Err(e.with_src(String::from_str(src))),
        }
    }
}

impl std::str::FromStr for Recipe {
    type Err = Error;

    fn from_str(src: &str) -> Result<Recipe, Error> {
        Recipe::parse(src)
    }
}

} // verus!
