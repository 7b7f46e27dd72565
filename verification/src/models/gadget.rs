//! Gadgets: consumable items that manipulate tiles, the wall or the run.

use vstd::prelude::*;

verus! {

#[derive(Clone, Debug)]
pub struct Gadget {
    pub id: String,
    pub name_zh: String,
    pub name_en: String,
    pub description_zh: String,
    pub effect: GadgetEffect,
}

#[derive(Clone, Copy, Debug, PartialEq, Eq, Structural)]
pub enum GadgetEffect {
    DestroyTiles { count: usize },
    SwapTiles,
    PeekWall { count: usize },
    TransformTile,
    BuffTile { fu_bonus: i32, mult_bonus: i32 },
    DrawExtra { count: usize },
    DisableBoss,
    GainCurrency { amount: u32 },
}

impl Gadget {
    /// A copy of this gadget, field for field.
    pub fn duplicate(&self) -> (g: Gadget)
        ensures
            g == *self,
    {
        Gadget {
            id: self.id.clone(),
            name_zh: self.name_zh.clone(),
            name_en: self.name_en.clone(),
            description_zh: self.description_zh.clone(),
            effect: self.effect,
        }
    }
}

} // verus!
