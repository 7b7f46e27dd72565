use aotenjo::game::pattern_checker::check_patterns;
use aotenjo::models::artifact::Rarity;
use aotenjo::models::tile::{Tile, TileSuit};

fn hand(faces: &[(TileSuit, u8)]) -> Vec<Tile> {
    faces.iter().enumerate().map(|(i, (s, r))| Tile::new(*s, *r, i as u32)).collect()
}

fn ids(tiles: &[Tile]) -> Vec<String> {
    check_patterns(tiles, tiles, tiles).into_iter().map(|m| m.pattern_id).collect()
}

#[test]
fn test_tanyao() {
    let tiles = vec![
        Tile::new(TileSuit::Manzu, 2, 0),
        Tile::new(TileSuit::Manzu, 3, 1),
        Tile::new(TileSuit::Manzu, 4, 2),
        Tile::new(TileSuit::Pinzu, 5, 3),
        Tile::new(TileSuit::Pinzu, 5, 4),
    ];
    let matches = check_patterns(&tiles, &tiles, &tiles);
    assert!(matches.iter().any(|m| m.pattern_id == "tanyao"));
}

#[test]
fn test_dragon_pon() {
    let tiles = vec![
        Tile::new(TileSuit::Dragon, 3, 0),
        Tile::new(TileSuit::Dragon, 3, 1),
        Tile::new(TileSuit::Dragon, 3, 2),
        Tile::new(TileSuit::Pinzu, 5, 3),
        Tile::new(TileSuit::Pinzu, 5, 4),
    ];
    let matches = check_patterns(&tiles, &tiles, &tiles);
    assert!(matches.iter().any(|m| m.pattern_id == "yakuhai_dragon_3"));
}

#[test]
fn test_chinitsu() {
    let tiles = vec![
        Tile::new(TileSuit::Manzu, 1, 0),
        Tile::new(TileSuit::Manzu, 2, 1),
        Tile::new(TileSuit::Manzu, 3, 2),
        Tile::new(TileSuit::Manzu, 4, 3),
        Tile::new(TileSuit::Manzu, 5, 4),
        Tile::new(TileSuit::Manzu, 6, 5),
        Tile::new(TileSuit::Manzu, 7, 6),
        Tile::new(TileSuit::Manzu, 8, 7),
        Tile::new(TileSuit::Manzu, 9, 8),
        Tile::new(TileSuit::Manzu, 9, 9),
        Tile::new(TileSuit::Manzu, 9, 10),
        Tile::new(TileSuit::Manzu, 7, 11),
        Tile::new(TileSuit::Manzu, 8, 12),
        Tile::new(TileSuit::Manzu, 9, 13),
    ];
    let matches = check_patterns(&tiles, &tiles, &tiles);
    assert!(matches.iter().any(|m| m.pattern_id == "chinitsu"));
}

#[test]
fn patterns_sorted_by_fan_with_details() {
    let tiles = hand(&[
        (TileSuit::Dragon, 3), (TileSuit::Dragon, 3), (TileSuit::Dragon, 3),
        (TileSuit::Pinzu, 5), (TileSuit::Pinzu, 5),
    ]);
    let matches = check_patterns(&tiles, &[], &[]);
    let got: Vec<(String, String, u32, Rarity)> = matches
        .into_iter()
        .map(|m| (m.pattern_id, m.name_zh, m.base_fan, m.rarity))
        .collect();
    assert_eq!(
        got,
        vec![
            ("honitsu".to_string(), "混一色".to_string(), 3, Rarity::Uncommon),
            ("toitoi".to_string(), "对对和".to_string(), 2, Rarity::Uncommon),
            ("yakuhai_dragon_3".to_string(), "中".to_string(), 1, Rarity::Common),
        ]
    );
}

#[test]
fn empty_play_is_all_simples() {
    assert_eq!(ids(&[]), vec!["tanyao".to_string()]);
}

#[test]
fn nine_gates_and_full_straight() {
    // 1112345678999 + 5, all Pinzu
    let mut faces = vec![(TileSuit::Pinzu, 1); 3];
    for r in 2..=8 {
        faces.push((TileSuit::Pinzu, r));
    }
    faces.extend([(TileSuit::Pinzu, 9); 3]);
    faces.push((TileSuit::Pinzu, 5));
    let got = ids(&hand(&faces));
    assert_eq!(got[0], "chuuren");
    assert!(got.contains(&"chinitsu".to_string()));
    assert!(got.contains(&"ittsu".to_string()));
}

#[test]
fn thirteen_orphans_and_honor_patterns() {
    let faces = [
        (TileSuit::Manzu, 1), (TileSuit::Manzu, 9), (TileSuit::Pinzu, 1), (TileSuit::Pinzu, 9),
        (TileSuit::Souzu, 1), (TileSuit::Souzu, 9), (TileSuit::Wind, 1), (TileSuit::Wind, 2),
        (TileSuit::Wind, 3), (TileSuit::Wind, 4), (TileSuit::Dragon, 1), (TileSuit::Dragon, 2),
        (TileSuit::Dragon, 3), (TileSuit::Dragon, 3),
    ];
    let got = ids(&hand(&faces));
    assert_eq!(got, vec!["kokushi".to_string(), "chanta".to_string(), "honroutou".to_string()]);

    let big = [
        (TileSuit::Dragon, 1), (TileSuit::Dragon, 1), (TileSuit::Dragon, 1),
        (TileSuit::Dragon, 2), (TileSuit::Dragon, 2), (TileSuit::Dragon, 2),
        (TileSuit::Dragon, 3), (TileSuit::Dragon, 3), (TileSuit::Dragon, 3),
        (TileSuit::Wind, 1), (TileSuit::Wind, 1),
    ];
    let got = ids(&hand(&big));
    assert!(got.contains(&"daisangen".to_string()));
    assert!(got.contains(&"tsuuiisou".to_string()));
    assert!(got.contains(&"sanankou".to_string()));
    assert!(!got.contains(&"shousangen".to_string()));
}

#[test]
fn repeated_runs() {
    let faces = [
        (TileSuit::Souzu, 2), (TileSuit::Souzu, 3), (TileSuit::Souzu, 4),
        (TileSuit::Souzu, 2), (TileSuit::Souzu, 3), (TileSuit::Souzu, 4),
        (TileSuit::Souzu, 6), (TileSuit::Souzu, 6),
    ];
    let got = ids(&hand(&faces));
    assert!(got.contains(&"iipeikou".to_string()));
    assert!(got.contains(&"ryuuiisou".to_string()));
    assert!(!got.contains(&"toitoi".to_string()));
}

#[test]
fn patterns_do_not_depend_on_order_or_ids() {
    let faces = [
        (TileSuit::Dragon, 1), (TileSuit::Dragon, 1), (TileSuit::Dragon, 1),
        (TileSuit::Dragon, 2), (TileSuit::Dragon, 2), (TileSuit::Dragon, 2),
        (TileSuit::Dragon, 3), (TileSuit::Dragon, 3),
        (TileSuit::Wind, 1), (TileSuit::Wind, 1), (TileSuit::Wind, 1),
        (TileSuit::Manzu, 2), (TileSuit::Manzu, 3), (TileSuit::Manzu, 4),
    ];
    let a = hand(&faces);
    let mut b: Vec<Tile> = a.iter().rev().map(|t| Tile::new(t.suit, t.rank, t.id + 50)).collect();
    b.swap(0, 7);
    let fan = |v: &[Tile]| -> Vec<(String, u32)> {
        check_patterns(v, &[], &[]).into_iter().map(|m| (m.pattern_id, m.base_fan)).collect()
    };
    assert_eq!(fan(&a), fan(&b));
    assert!(ids(&a).contains(&"shousangen".to_string()));
}
