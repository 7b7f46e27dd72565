//! Bosses: a round's special rule.

use vstd::prelude::*;

use crate::models::tile::TileSuit;

verus! {

/// A boss. Its score multiplier is given in percent (150 stands for 1.5).
#[derive(Clone, Debug)]
pub struct Boss {
    pub id: String,
    pub name_zh: String,
    pub name_en: String,
    pub gimmick: BossGimmick,
    pub score_multiplier_percent: u32,
}

/// A boss's rule. The threshold scale is given in percent.
#[derive(Clone, Debug)]
pub enum BossGimmick {
    BlindSuit(TileSuit),
    ReducedPlays(u8),
    NoDiscard,
    TaxPerPlay(u32),
    ScoreThresholdScale(u32),
    ForcedPattern(String),
}

impl BossGimmick {
    /// A copy of this rule.
    pub fn duplicate(&self) -> (g: BossGimmick)
        ensures
            g == *self,
    {
        match self {
            BossGimmick::BlindSuit(s) => BossGimmick::BlindSuit(*s),
            BossGimmick::ReducedPlays(n) => BossGimmick::ReducedPlays(*n),
            BossGimmick::NoDiscard => BossGimmick::NoDiscard,
            BossGimmick::TaxPerPlay(t) => BossGimmick::TaxPerPlay(*t),
            BossGimmick::ScoreThresholdScale(p) => BossGimmick::ScoreThresholdScale(*p),
            BossGimmick::ForcedPattern(p) => BossGimmick::ForcedPattern(p.clone()),
        }
    }
}

impl Boss {
    /// A copy of this boss, field for field.
    pub fn duplicate(&self) -> (b: Boss)
        ensures
            b == *self,
    {
        Boss {
            id: self.id.clone(),
            name_zh: self.name_zh.clone(),
            name_en: self.name_en.clone(),
            gimmick: self.gimmick.duplicate(),
            score_multiplier_percent: self.score_multiplier_percent,
        }
    }
}

} // verus!
