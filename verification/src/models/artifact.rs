//! Artifacts: permanent items that change how plays are scored.

use vstd::prelude::*;

use crate::models::scoring::FloatBits;

verus! {

#[derive(Clone, Copy, Debug, PartialEq, Eq, Hash, Structural)]
pub enum Rarity {
    Common,
    Uncommon,
    Rare,
    Legendary,
}

#[derive(Clone, Debug)]
pub struct Artifact {
    pub id: String,
    pub name_zh: String,
    pub name_en: String,
    pub description_zh: String,
    pub rarity: Rarity,
    pub cost: u32,
    pub sell_value: u32,
    pub effect: ArtifactEffect,
}

/// What an artifact does. Fan and multiplier amounts are fractional
/// numbers; the library carries them (see `FloatBits`) and leaves the
/// arithmetic on them to the caller.
#[derive(Clone, Debug)]
pub enum ArtifactEffect {
    AddFu(u64),
    AddFan(FloatBits),
    MultiplyMult(FloatBits),
    ConditionalAddFan { condition: String, value: FloatBits },
    ScalingAddFu { per_round: u64, current: u64 },
    ScalingAddFan { per_round: FloatBits, current: FloatBits },
    PatternBonus { pattern_id: String, bonus: FloatBits },
}

impl ArtifactEffect {
    /// A copy of this effect.
    pub fn duplicate(&self) -> (e: ArtifactEffect)
        ensures
            e == *self,
    {
        match self {
            ArtifactEffect::AddFu(v) => ArtifactEffect::AddFu(*v),
            ArtifactEffect::AddFan(v) => ArtifactEffect::AddFan(*v),
            ArtifactEffect::MultiplyMult(v) => ArtifactEffect::MultiplyMult(*v),
            ArtifactEffect::ConditionalAddFan { condition, value } => {
                ArtifactEffect::ConditionalAddFan { condition: condition.clone(), value: *value }
            },
            ArtifactEffect::ScalingAddFu { per_round, current } => {
                ArtifactEffect::ScalingAddFu { per_round: *per_round, current: *current }
            },
            ArtifactEffect::ScalingAddFan { per_round, current } => {
                ArtifactEffect::ScalingAddFan { per_round: *per_round, current: *current }
            },
            ArtifactEffect::PatternBonus { pattern_id, bonus } => {
                ArtifactEffect::PatternBonus { pattern_id: pattern_id.clone(), bonus: *bonus }
            },
        }
    }
}

impl Artifact {
    /// A copy of this artifact, field for field.
    pub fn duplicate(&self) -> (a: Artifact)
        ensures
            a == *self,
    {
        Artifact {
            id: self.id.clone(),
            name_zh: self.name_zh.clone(),
            name_en: self.name_en.clone(),
            description_zh: self.description_zh.clone(),
            rarity: self.rarity,
            cost: self.cost,
            sell_value: self.sell_value,
            effect: self.effect.duplicate(),
        }
    }
}

} // verus!
