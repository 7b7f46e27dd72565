use aotenjo::game::scoring_engine::{tally_score, ScoreTally};
use aotenjo::models::artifact::{Artifact, ArtifactEffect, Rarity};
use aotenjo::models::hand::{Meld, MeldKind, Play};
use aotenjo::models::scoring::FloatBits;
use aotenjo::models::tile::{Tile, TileSuit};

fn bits(x: f64) -> FloatBits {
    FloatBits { bits: x.to_bits() }
}

/// The final score from a tally, combining fractional fan and multipliers
/// in artifact order.
fn final_score(t: &ScoreTally, artifacts: &[Artifact]) -> (u64, u64, f64, f64) {
    let fu = t.tile_fu + t.artifact_fu;
    let mut artifact_fan = 0.0f64;
    let mut mult = 1.0f64;
    for (a, fired) in artifacts.iter().zip(t.fired.iter()) {
        match &a.effect {
            ArtifactEffect::AddFan(v) => artifact_fan += f64::from_bits(v.bits),
            ArtifactEffect::MultiplyMult(v) => mult *= f64::from_bits(v.bits),
            ArtifactEffect::ConditionalAddFan { value, .. } if *fired => {
                artifact_fan += f64::from_bits(value.bits)
            }
            ArtifactEffect::ScalingAddFan { current, .. } => artifact_fan += f64::from_bits(current.bits),
            ArtifactEffect::PatternBonus { bonus, .. } if *fired => artifact_fan += f64::from_bits(bonus.bits),
            _ => {}
        }
    }
    let fan = t.structure_half_fan as f64 / 2.0 + t.pattern_fan as f64 + artifact_fan;
    ((fu as f64 * fan * mult) as u64, fu, fan, mult)
}

fn make_chi_play() -> Play {
    Play::new(
        vec![Meld::new(
            MeldKind::Chi,
            vec![
                Tile::new(TileSuit::Manzu, 1, 0),
                Tile::new(TileSuit::Manzu, 2, 1),
                Tile::new(TileSuit::Manzu, 3, 2),
            ],
        )],
        Some(Meld::new(
            MeldKind::Pair,
            vec![Tile::new(TileSuit::Pinzu, 5, 3), Tile::new(TileSuit::Pinzu, 5, 4)],
        )),
    )
}

fn artifact(effect: ArtifactEffect) -> Artifact {
    Artifact {
        id: "test".into(),
        name_zh: "测试遗物".into(),
        name_en: "Test".into(),
        description_zh: "test".into(),
        rarity: Rarity::Common,
        cost: 50,
        sell_value: 25,
        effect,
    }
}

#[test]
fn test_basic_scoring_no_artifacts() {
    let play = make_chi_play();
    let tally = tally_score(&play, &[], &[], &[]);
    let (final_score, fu, fan, mult) = final_score(&tally, &[]);
    assert!(final_score > 0);
    assert!(fu > 0);
    assert!(fan > 0.0);
    assert!(mult == 1.0);
}

#[test]
fn test_scoring_with_add_fu_artifact() {
    let play = make_chi_play();
    let base = final_score(&tally_score(&play, &[], &[], &[]), &[]).0;
    let arts = [artifact(ArtifactEffect::AddFu(20))];
    let with_artifact = final_score(&tally_score(&play, &arts, &[], &[]), &arts).0;
    assert!(with_artifact > base);
}

#[test]
fn test_scoring_with_multiply_artifact() {
    let play = make_chi_play();
    let base = final_score(&tally_score(&play, &[], &[], &[]), &[]).0;
    let arts = [artifact(ArtifactEffect::MultiplyMult(bits(2.0)))];
    let with_mult = final_score(&tally_score(&play, &arts, &[], &[]), &arts).0;
    assert!(with_mult >= base * 2);
}

#[test]
fn chi_play_tally_values() {
    let play = make_chi_play();
    let tally = tally_score(&play, &[], &[], &[]);
    // 1m 2m 3m 5p 5p: 6 + 3 + 3 + 3 + 3
    assert_eq!(tally.tile_fu, 18);
    // base 1 + chi 0.5, in halves
    assert_eq!(tally.structure_half_fan, 3);
    // no pattern: 1m and 3m are not simples; two suits
    assert_eq!(tally.patterns.len(), 0);
    assert_eq!(tally.pattern_fan, 0);
    assert_eq!(final_score(&tally, &[]).0, 27);
}

#[test]
fn artifacts_fire_on_their_conditions() {
    let play = make_chi_play();
    let arts = [
        artifact(ArtifactEffect::ConditionalAddFan { condition: "has_chi".into(), value: bits(1.0) }),
        artifact(ArtifactEffect::ConditionalAddFan { condition: "has_pon".into(), value: bits(1.0) }),
        artifact(ArtifactEffect::ConditionalAddFan { condition: "has_manzu".into(), value: bits(1.0) }),
        artifact(ArtifactEffect::ConditionalAddFan { condition: "all_same_suit".into(), value: bits(1.0) }),
        artifact(ArtifactEffect::ConditionalAddFan { condition: "has_terminal".into(), value: bits(1.0) }),
        artifact(ArtifactEffect::ConditionalAddFan { condition: "no_such_thing".into(), value: bits(1.0) }),
        artifact(ArtifactEffect::PatternBonus { pattern_id: "tanyao".into(), bonus: bits(2.0) }),
        artifact(ArtifactEffect::ScalingAddFu { per_round: 5, current: 15 }),
    ];
    let tally = tally_score(&play, &arts, &[], &[]);
    assert_eq!(tally.fired, vec![true, false, true, false, true, false, false, true]);
    assert_eq!(tally.artifact_fu, 15);
}
