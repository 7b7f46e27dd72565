//! Starting decks.

use vstd::prelude::*;

verus! {

#[derive(Clone, Debug)]
pub struct Deck {
    pub id: String,
    pub name_zh: String,
    pub name_en: String,
    pub description_zh: String,
    pub starting_artifacts: Vec<String>,
}

} // verus!
