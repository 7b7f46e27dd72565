//! The boss catalog and how a boss changes a round.

use vstd::prelude::*;

use crate::models::boss::{Boss, BossGimmick};
use crate::models::tile::TileSuit;

verus! {

/// The catalog entry at position `i`: id, Chinese name, English name and
/// score multiplier in percent.
pub open spec fn catalog_boss(i: int) -> (Seq<char>, Seq<char>, Seq<char>, u32) {
    if i == 0 {
        ("the_blind"@, "盲目之风"@, "The Blind Wind"@, 100)
    } else if i == 1 {
        ("the_hungry"@, "饥饿之鬼"@, "The Hungry Ghost"@, 100)
    } else if i == 2 {
        ("the_miser"@, "吝啬之徒"@, "The Miser"@, 100)
    } else if i == 3 {
        ("the_wall"@, "铁壁之将"@, "The Iron General"@, 150)
    } else if i == 4 {
        ("the_thief"@, "无影之贼"@, "The Shadow Thief"@, 100)
    } else if i == 5 {
        ("the_fusion"@, "融合之龙"@, "The Fusion Dragon"@, 120)
    } else if i == 6 {
        ("the_storm"@, "暴风之神"@, "The Storm God"@, 100)
    } else {
        ("the_emperor"@, "天帝"@, "The Emperor"@, 130)
    }
}

/// The rule of catalog entry `i`.
pub open spec fn catalog_gimmick(g: BossGimmick, i: int) -> bool {
    if i == 0 {
        g == BossGimmick::BlindSuit(TileSuit::Souzu)
    } else if i == 1 {
        g == BossGimmick::ReducedPlays(3)
    } else if i == 2 {
        g == BossGimmick::TaxPerPlay(30)
    } else if i == 3 {
        g == BossGimmick::ScoreThresholdScale(150)
    } else if i == 4 {
        g == BossGimmick::NoDiscard
    } else if i == 5 {
        g matches BossGimmick::ForcedPattern(p) && p@ == "honitsu"@
    } else if i == 6 {
        g == BossGimmick::BlindSuit(TileSuit::Pinzu)
    } else {
        g == BossGimmick::ReducedPlays(3)
    }
}

/// `b` is catalog entry `i`.
pub open spec fn boss_is(b: Boss, i: int) -> bool {
    &&& b.id@ == catalog_boss(i).0
    &&& b.name_zh@ == catalog_boss(i).1
    &&& b.name_en@ == catalog_boss(i).2
    &&& b.score_multiplier_percent == catalog_boss(i).3
    &&& catalog_gimmick(b.gimmick, i)
}

fn make_boss(id: &str, name_zh: &str, name_en: &str, gimmick: BossGimmick, percent: u32) -> (b: Boss)
    ensures
        b.id@ == id@,
        b.name_zh@ == name_zh@,
        b.name_en@ == name_en@,
        b.gimmick == gimmick,
        b.score_multiplier_percent == percent,
{
    Boss {
        id: String::from_str(id),
        name_zh: String::from_str(name_zh),
        name_en: String::from_str(name_en),
        gimmick,
        score_multiplier_percent: percent,
    }
}

/// The 8 bosses, one per round.
pub fn all_bosses() -> (bosses: Vec<Boss>)
    ensures
        bosses@.len() == 8,
        forall|i: int| 0 <= i < 8 ==> boss_is(#[trigger] bosses@[i], i),
{
    let mut bosses: Vec<Boss> = Vec::new();
    bosses.push(make_boss("the_blind", "盲目之风", "The Blind Wind", BossGimmick::BlindSuit(TileSuit::Souzu), 100));
    bosses.push(make_boss("the_hungry", "饥饿之鬼", "The Hungry Ghost", BossGimmick::ReducedPlays(3), 100));
    bosses.push(make_boss("the_miser", "吝啬之徒", "The Miser", BossGimmick::TaxPerPlay(30), 100));
    bosses.push(make_boss("the_wall", "铁壁之将", "The Iron General", BossGimmick::ScoreThresholdScale(150), 150));
    bosses.push(make_boss("the_thief", "无影之贼", "The Shadow Thief", BossGimmick::NoDiscard, 100));
    let forced = String::from_str("honitsu");
    bosses.push(make_boss("the_fusion", "融合之龙", "The Fusion Dragon", BossGimmick::ForcedPattern(forced), 120));
    bosses.push(make_boss("the_storm", "暴风之神", "The Storm God", BossGimmick::BlindSuit(TileSuit::Pinzu), 100));
    bosses.push(make_boss("the_emperor", "天帝", "The Emperor", BossGimmick::ReducedPlays(3), 130));
    bosses
}

/// The boss of a round: the 8 bosses are assigned in sequence, East 1-4,
/// South 1-4, then again for West and North.
pub fn get_boss_for_round(wind_index: u32, round: u8) -> (b: Boss)
    requires
        round >= 1,
        wind_index * 4 + round - 1 <= u32::MAX,
    ensures
        boss_is(b, (wind_index * 4 + round - 1) % 8),
{
    let idx = ((wind_index * 4) + (round - 1) as u32) % 8;
    let bosses = all_bosses();
    bosses[idx as usize].duplicate()
}

/// What a boss does to a round: (max plays, target score, tax per play).
/// A reduced-plays boss caps the plays, a threshold boss scales the
/// target by its percentage (rounded down, capped at `u64::MAX`), a miser
/// boss taxes each play; the other rules act elsewhere.
pub open spec fn boss_effects(g: BossGimmick, base_max_plays: u8, base_target: u64) -> (u8, u64, u32) {
    match g {
        BossGimmick::ReducedPlays(n) => (if base_max_plays < n { base_max_plays } else { n }, base_target, 0),
        BossGimmick::ScoreThresholdScale(p) => {
            let t = base_target * p / 100;
            (base_max_plays, if t > u64::MAX { u64::MAX } else { t as u64 }, 0)
        },
        BossGimmick::TaxPerPlay(t) => (base_max_plays, base_target, t),
        _ => (base_max_plays, base_target, 0),
    }
}

/// Apply boss gimmick to game parameters. Returns (adjusted_max_plays,
/// adjusted_target, tax_per_play).
pub fn apply_boss_effects(boss: &Boss, base_max_plays: u8, base_target: u64) -> (r: (u8, u64, u32))
    ensures
        r == boss_effects(boss.gimmick, base_max_plays, base_target),
{
    let mut max_plays = base_max_plays;
    let mut target = base_target;
    let mut tax = 0u32;
    match &boss.gimmick {
        BossGimmick::ReducedPlays(n) => {
            if *n < max_plays {
                max_plays = *n;
            }
        },
        BossGimmick::ScoreThresholdScale(scale) => {
            assert((target as u128) * (*scale as u128) <= u64::MAX * u32::MAX) by (nonlinear_arith)
                requires
                    target <= u64::MAX,
                    *scale <= u32::MAX,
            ;
            let scaled: u128 = (target as u128) * (*scale as u128) / 100;
            target = if scaled > u64::MAX as u128 {
                u64::MAX
            } else {
                scaled as u64
            };
        },
        BossGimmick::TaxPerPlay(t) => {
            tax = *t;
        },
        BossGimmick::BlindSuit(_) => {},
        BossGimmick::NoDiscard => {},
        BossGimmick::ForcedPattern(_) => {},
    }
    (max_plays, target, tax)
}

/// Some id of `matched` equals `id`.
pub open spec fn names_pattern(matched: Seq<String>, id: Seq<char>) -> bool {
    exists|i: int| 0 <= i < matched.len() && (#[trigger] matched[i])@ == id
}

/// Bonus fan (whole fan) when a forced-pattern boss is satisfied: 3 if the
/// boss forces a pattern and that pattern is among `matched_patterns`,
/// else 0.
pub fn boss_pattern_bonus(boss: &Boss, matched_patterns: &[String]) -> (bonus: u32)
    ensures
        bonus == (if boss.gimmick matches BossGimmick::ForcedPattern(p) && names_pattern(matched_patterns@, p@) {
            3u32
        } else {
            0u32
        }),
{
    if let BossGimmick::ForcedPattern(pattern_id) = &boss.gimmick {
        assert(boss.gimmick == BossGimmick::ForcedPattern(*pattern_id));
        let mut i: usize = 0;
        while i < matched_patterns.len()
            invariant
                boss.gimmick == BossGimmick::ForcedPattern(*pattern_id),
                i <= matched_patterns@.len(),
                forall|j: int| 0 <= j < i ==> (#[trigger] matched_patterns@[j])@ != pattern_id@,
            decreases matched_patterns@.len() - i,
        {
            if matched_patterns[i] == *pattern_id {
                assert(names_pattern(matched_patterns@, pattern_id@));
                return 3;
            }
            i = i + 1;
        }
    }
    0
}

/// Bosses repeat every eight rounds: round `round` of wind `w` and of
/// the wind two later meet the same boss (West and North repeat East and
/// South).
pub proof fn law_bosses_repeat_every_two_winds(w: u32, round: u8)
    requires
        round >= 1,
    ensures
        (w * 4 + round - 1) % 8 == ((w + 2) * 4 + round - 1) % 8,
{
    assert((w + 2) * 4 + round - 1 == (w * 4 + round - 1) + 8);
}

/// The 8 rounds of East and South meet 8 different bosses.
pub proof fn law_eight_rounds_eight_bosses(a: int, b: int)
    requires
        0 <= a < b < 8,
    ensures
        catalog_boss(a).0 != catalog_boss(b).0,
{
    reveal_strlit("the_blind");
    reveal_strlit("the_hungry");
    reveal_strlit("the_miser");
    reveal_strlit("the_wall");
    reveal_strlit("the_thief");
    reveal_strlit("the_fusion");
    reveal_strlit("the_storm");
    reveal_strlit("the_emperor");
    assert(catalog_boss(a).0[4] != catalog_boss(b).0[4]);
}

/// A boss never grants more plays than the round had, and only a
/// threshold boss changes the target.
pub proof fn law_boss_never_adds_plays(g: BossGimmick, base_max_plays: u8, base_target: u64)
    ensures
        boss_effects(g, base_max_plays, base_target).0 <= base_max_plays,
        !(g is ScoreThresholdScale) ==> boss_effects(g, base_max_plays, base_target).1 == base_target,
{
}

} // verus!
