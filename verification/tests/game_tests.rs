use aotenjo::game::boss_effects::{all_bosses, apply_boss_effects, boss_pattern_bonus, get_boss_for_round};
use aotenjo::game::gadget_effects::{all_gadgets, gadget_cost};
use aotenjo::game::shop::{generate_shop, ShopItemType};
use aotenjo::game::state::{GameState, PlayResult, RoundOutcome, Wind, GamePhase};
use aotenjo::models::artifact::{Artifact, ArtifactEffect, Rarity};
use aotenjo::models::gadget::{Gadget, GadgetEffect};
use aotenjo::models::hand::{Meld, MeldKind, Play};
use aotenjo::models::scoring::{FloatBits, ScoreResult};
use aotenjo::text::decimal_string;
use rand::SeedableRng;
use rand_chacha::ChaCha8Rng;

fn artifact(id: &str, rarity: Rarity, cost: u32, effect: ArtifactEffect) -> Artifact {
    Artifact {
        id: id.to_string(),
        name_zh: format!("{}-zh", id),
        name_en: id.to_string(),
        description_zh: "d".to_string(),
        rarity,
        cost,
        sell_value: cost / 2,
        effect,
    }
}

fn catalog() -> Vec<Artifact> {
    vec![
        artifact("a", Rarity::Common, 40, ArtifactEffect::AddFu(10)),
        artifact("b", Rarity::Uncommon, 60, ArtifactEffect::AddFu(20)),
        artifact("c", Rarity::Rare, 90, ArtifactEffect::AddFu(30)),
        artifact("d", Rarity::Legendary, 150, ArtifactEffect::AddFu(40)),
        artifact("e", Rarity::Common, 45, ArtifactEffect::AddFu(5)),
    ]
}

#[test]
fn bosses_follow_the_rounds() {
    let bosses = all_bosses();
    assert_eq!(bosses.len(), 8);
    let ids: Vec<&str> = bosses.iter().map(|b| b.id.as_str()).collect();
    assert_eq!(
        ids,
        vec!["the_blind", "the_hungry", "the_miser", "the_wall", "the_thief", "the_fusion", "the_storm", "the_emperor"]
    );
    assert_eq!(get_boss_for_round(0, 1).id, "the_blind");
    assert_eq!(get_boss_for_round(0, 4).id, "the_wall");
    assert_eq!(get_boss_for_round(0, 4).score_multiplier_percent, 150);
    assert_eq!(get_boss_for_round(1, 1).id, "the_thief");
    assert_eq!(get_boss_for_round(1, 4).id, "the_emperor");
    assert_eq!(get_boss_for_round(1, 4).score_multiplier_percent, 130);
    // West and North meet the bosses of East and South again.
    for round in 1..=4u8 {
        assert_eq!(get_boss_for_round(2, round).id, get_boss_for_round(0, round).id);
        assert_eq!(get_boss_for_round(3, round).id, get_boss_for_round(1, round).id);
    }
}

#[test]
fn boss_effects_on_plays_target_and_tax() {
    let b = |w: u32, r: u8| get_boss_for_round(w, r);
    assert_eq!(apply_boss_effects(&b(0, 1), 4, 300), (4, 300, 0));
    assert_eq!(apply_boss_effects(&b(0, 2), 4, 300), (3, 300, 0));
    assert_eq!(apply_boss_effects(&b(0, 2), 2, 300), (2, 300, 0));
    assert_eq!(apply_boss_effects(&b(0, 3), 4, 300), (4, 300, 30));
    assert_eq!(apply_boss_effects(&b(0, 4), 4, 300), (4, 450, 0));
    assert_eq!(apply_boss_effects(&b(0, 4), 4, 5000), (4, 7500, 0));
    assert_eq!(apply_boss_effects(&b(1, 1), 4, 300), (4, 300, 0));
    assert_eq!(apply_boss_effects(&b(1, 2), 4, 300), (4, 300, 0));
}

#[test]
fn forced_pattern_bonus() {
    let fusion = get_boss_for_round(1, 2);
    assert_eq!(fusion.id, "the_fusion");
    assert_eq!(boss_pattern_bonus(&fusion, &["tanyao".to_string(), "honitsu".to_string()]), 3);
    assert_eq!(boss_pattern_bonus(&fusion, &["tanyao".to_string()]), 0);
    assert_eq!(boss_pattern_bonus(&fusion, &[]), 0);
    assert_eq!(boss_pattern_bonus(&get_boss_for_round(0, 1), &["honitsu".to_string()]), 0);
}

#[test]
fn gadget_catalog_and_prices() {
    let gadgets = all_gadgets();
    assert_eq!(gadgets.len(), 10);
    let costs: Vec<(String, u32)> = gadgets.iter().map(|g| (g.id.clone(), gadget_cost(g))).collect();
    let expected = vec![
        ("hammer", 75),
        ("swapper", 50),
        ("peek_lens", 45),
        ("transformer", 60),
        ("fu_charm", 65),
        ("mult_charm", 70),
        ("great_hammer", 105),
        ("magnet", 80),
        ("purifier", 80),
        ("fortune_coin", 33),
    ];
    for (got, want) in costs.iter().zip(expected.iter()) {
        assert_eq!(got.0, want.0);
        assert_eq!(got.1, want.1);
    }
    let g = Gadget {
        id: "x".into(),
        name_zh: "x".into(),
        name_en: "x".into(),
        description_zh: "x".into(),
        effect: GadgetEffect::BuffTile { fu_bonus: 2, mult_bonus: 3 },
    };
    assert_eq!(gadget_cost(&g), 40 + 10 + 45);
}

#[test]
fn shop_offers_artifacts_then_gadgets() {
    let cat = catalog();
    for seed in 0..20u64 {
        let mut rng = ChaCha8Rng::seed_from_u64(seed);
        let items = generate_shop(seed as u32, &mut rng, &cat);
        assert!(items.len() <= 5);
        let mut seen_gadget = false;
        let mut ids: Vec<String> = Vec::new();
        for item in &items {
            assert!(!item.sold);
            match &item.item_type {
                ShopItemType::Artifact(a) => {
                    assert!(!seen_gadget);
                    assert!(cat.iter().any(|c| c.id == a.id));
                    assert_eq!(item.cost, a.cost);
                    assert!(!ids.contains(&a.id));
                    ids.push(a.id.clone());
                }
                ShopItemType::Gadget(g) => {
                    seen_gadget = true;
                    assert_eq!(item.cost, gadget_cost(g));
                    assert!(!ids.contains(&g.id));
                    ids.push(g.id.clone());
                }
            }
        }
        // The same seed gives the same shop.
        let mut rng2 = ChaCha8Rng::seed_from_u64(seed);
        let again = generate_shop(seed as u32, &mut rng2, &cat);
        let names = |v: &Vec<aotenjo::game::shop::ShopItem>| -> Vec<String> {
            v.iter()
                .map(|i| match &i.item_type {
                    ShopItemType::Artifact(a) => a.id.clone(),
                    ShopItemType::Gadget(g) => g.id.clone(),
                })
                .collect()
        };
        assert_eq!(names(&items), names(&again));
    }
}

#[test]
fn shop_without_catalog_has_only_gadgets() {
    let mut rng = ChaCha8Rng::seed_from_u64(7);
    let items = generate_shop(0, &mut rng, &[]);
    assert!(!items.is_empty());
    assert!(items.len() <= 2);
    assert!(items.iter().all(|i| matches!(i.item_type, ShopItemType::Gadget(_))));
}

fn pair_play(a: aotenjo::models::tile::Tile, b: aotenjo::models::tile::Tile) -> Play {
    Play::new(vec![], Some(Meld::new(MeldKind::Pair, vec![a, b])))
}

fn result(play: Play, score: u64) -> PlayResult {
    PlayResult {
        play,
        score,
        patterns_matched: vec![],
        score_detail: ScoreResult {
            fu: 0,
            fan: FloatBits { bits: 0 },
            mult: FloatBits { bits: 1.0f64.to_bits() },
            final_score: score,
            breakdown: vec![],
        },
    }
}

#[test]
fn record_play_moves_tiles_and_counts() {
    let mut state = GameState::new();
    state.start_run(42);
    state.artifacts.push(artifact("grow", Rarity::Rare, 80, ArtifactEffect::ScalingAddFu { per_round: 2, current: 5 }));
    let h0 = state.hand_tiles[0];
    let h1 = state.hand_tiles[1];
    let next: Vec<u32> = state.wall.peek_remaining()[..3].iter().map(|t| t.id).collect();
    state.selected_tile_ids = vec![h0.id, h1.id];
    state.record_play(result(pair_play(h0, h1), 120));

    assert_eq!(state.round_score, 120);
    assert_eq!(state.current_play, 1);
    assert!(state.selected_tile_ids.is_empty());
    assert_eq!(state.hand_tiles.len(), 15);
    assert!(!state.hand_tiles.iter().any(|t| t.id == h0.id || t.id == h1.id));
    let tail: Vec<u32> = state.hand_tiles[12..].iter().map(|t| t.id).collect();
    assert_eq!(tail, next);
    assert_eq!(state.wall.remaining(), 119);
    assert_eq!(state.plays_made.len(), 1);
    let played: Vec<u32> = state.played_tiles().iter().map(|t| t.id).collect();
    assert_eq!(played, vec![h0.id, h1.id]);
    match state.artifacts[0].effect {
        ArtifactEffect::ScalingAddFu { per_round, current } => {
            assert_eq!((per_round, current), (2, 7));
        }
        _ => panic!("effect changed kind"),
    }
    assert!(!state.is_round_over());
    state.round_score = 300;
    assert!(state.is_round_over());
}

#[test]
fn draw_more_tiles_stops_at_the_wall() {
    let mut state = GameState::new();
    state.start_run(3);
    let drawn = state.draw_more_tiles(200);
    assert_eq!(drawn.len(), 122);
    assert_eq!(state.hand_tiles.len(), 136);
    assert_eq!(state.wall.remaining(), 0);
    assert!(state.draw_more_tiles(3).is_empty());
}

#[test]
fn overkill_bonus_by_wind() {
    let mut state = GameState::new();
    assert_eq!(state.calculate_overkill_bonus(10), 500);
    state.current_wind = Wind::South;
    assert_eq!(state.calculate_overkill_bonus(1), 100);
    state.current_wind = Wind::West;
    assert_eq!(state.calculate_overkill_bonus(4), 800);
    state.current_wind = Wind::North;
    assert_eq!(state.calculate_overkill_bonus(2), 1000);
}

#[test]
fn fourth_round_moves_to_next_wind_and_north_ends_in_victory() {
    let mut state = GameState::new();
    state.start_run(9);
    state.current_round = 4;
    state.round_score = state.round_target;
    let outcome = state.end_round(1);
    assert!(matches!(outcome, RoundOutcome::Pass { bonus: 50, .. }));
    assert_eq!(state.current_wind, Wind::South);
    assert_eq!(state.current_round, 1);

    state.current_wind = Wind::North;
    state.current_round = 4;
    state.round_score = 10;
    state.round_target = 5;
    assert_eq!(state.end_round(2), RoundOutcome::Victory);
    assert_eq!(state.phase, GamePhase::Victory);
    assert_eq!(state.currency, 50 + 1000);
}

#[test]
fn failed_round_ends_the_game() {
    let mut state = GameState::new();
    state.start_run(5);
    state.round_score = 299;
    assert_eq!(state.end_round(10), RoundOutcome::Fail { score: 299, target: 300 });
    assert_eq!(state.phase, GamePhase::GameOver);
    assert_eq!(state.currency, 0);
    assert_eq!(state.current_round, 1);
}

#[test]
fn start_round_uses_round_and_wind_in_the_seed() {
    let mut a = GameState::new();
    a.start_run(100);
    // Round 1 of East from seed 100 is dealt from the wall of seed 1100.
    let got: Vec<u32> = a.hand_tiles.iter().map(|t| t.id).collect();
    let first: Vec<u32> = aotenjo::models::wall::Wall::new(1100).peek_remaining()[..14].iter().map(|t| t.id).collect();
    assert_eq!(got, first);
    a.current_wind = Wind::South;
    a.current_round = 2;
    a.start_round(100);
    let south2: Vec<u32> = aotenjo::models::wall::Wall::new(100 + 2000 + 10000).peek_remaining()[..14]
        .iter()
        .map(|t| t.id)
        .collect();
    let got2: Vec<u32> = a.hand_tiles.iter().map(|t| t.id).collect();
    assert_eq!(got2, south2);
    assert_eq!(a.round_target, 30000);
}

#[test]
fn decimal_strings() {
    assert_eq!(decimal_string(0), "0");
    assert_eq!(decimal_string(7), "7");
    assert_eq!(decimal_string(1234), "1234");
    assert_eq!(decimal_string(u64::MAX), u64::MAX.to_string());
}

fn all_ids(state: &GameState) -> Vec<u32> {
    let mut ids: Vec<u32> = state.hand_tiles.iter().map(|t| t.id).collect();
    ids.extend(state.wall.peek_remaining().iter().map(|t| t.id));
    ids.extend(state.played_tiles().iter().map(|t| t.id));
    ids.sort();
    ids
}

#[test]
fn round_keeps_its_tiles() {
    let mut state = GameState::new();
    state.start_run(2024);
    let full: Vec<u32> = (0..136).collect();
    assert_eq!(all_ids(&state), full);
    for _ in 0..4 {
        let h0 = state.hand_tiles[0];
        let h1 = state.hand_tiles[3];
        state.record_play(result(pair_play(h0, h1), 10));
        assert_eq!(all_ids(&state), full);
    }
    state.draw_more_tiles(5);
    assert_eq!(all_ids(&state), full);
}
