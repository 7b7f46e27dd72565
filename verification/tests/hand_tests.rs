use aotenjo::models::hand::{
    is_chi, is_kan, is_meld, is_pair, is_pon, validate_play_structure, Meld, MeldKind, Play,
};
use aotenjo::models::tile::{Tile, TileSuit};

fn t(suit: TileSuit, rank: u8, id: u32) -> Tile {
    Tile::new(suit, rank, id)
}

#[test]
fn test_is_pair() {
    let tiles = vec![Tile::new(TileSuit::Manzu, 1, 0), Tile::new(TileSuit::Manzu, 1, 1)];
    assert!(is_pair(&tiles));
}

#[test]
fn test_is_pon() {
    let tiles = vec![
        Tile::new(TileSuit::Manzu, 3, 0),
        Tile::new(TileSuit::Manzu, 3, 1),
        Tile::new(TileSuit::Manzu, 3, 2),
    ];
    assert!(is_pon(&tiles));
    assert!(is_meld(&tiles).is_some());
}

#[test]
fn test_is_chi() {
    let tiles = vec![
        Tile::new(TileSuit::Pinzu, 2, 0),
        Tile::new(TileSuit::Pinzu, 3, 1),
        Tile::new(TileSuit::Pinzu, 4, 2),
    ];
    assert!(is_chi(&tiles));
    assert!(is_meld(&tiles).is_some());
}

#[test]
fn test_is_kan() {
    let tiles = vec![
        Tile::new(TileSuit::Souzu, 7, 0),
        Tile::new(TileSuit::Souzu, 7, 1),
        Tile::new(TileSuit::Souzu, 7, 2),
        Tile::new(TileSuit::Souzu, 7, 3),
    ];
    assert!(is_kan(&tiles));
    assert_eq!(is_meld(&tiles), Some(MeldKind::Kan));
}

#[test]
fn test_validate_play_chi_pair() {
    let tiles = vec![
        Tile::new(TileSuit::Manzu, 1, 0),
        Tile::new(TileSuit::Manzu, 2, 1),
        Tile::new(TileSuit::Manzu, 3, 2),
        Tile::new(TileSuit::Pinzu, 5, 3),
        Tile::new(TileSuit::Pinzu, 5, 4),
    ];
    let play = validate_play_structure(&tiles);
    assert!(play.is_ok());
}

#[test]
fn test_validate_play_pon_pair() {
    let tiles = vec![
        Tile::new(TileSuit::Dragon, 3, 0),
        Tile::new(TileSuit::Dragon, 3, 1),
        Tile::new(TileSuit::Dragon, 3, 2),
        Tile::new(TileSuit::Wind, 1, 3),
        Tile::new(TileSuit::Wind, 1, 4),
    ];
    let play = validate_play_structure(&tiles);
    assert!(play.is_ok());
}

#[test]
fn test_validate_invalid_play() {
    let tiles = vec![
        Tile::new(TileSuit::Manzu, 1, 0),
        Tile::new(TileSuit::Manzu, 3, 1),
        Tile::new(TileSuit::Manzu, 5, 2),
        Tile::new(TileSuit::Pinzu, 7, 3),
        Tile::new(TileSuit::Souzu, 9, 4),
    ];
    let play = validate_play_structure(&tiles);
    assert!(play.is_err());
}

#[test]
fn chi_in_any_order_but_not_across_suits_or_honors() {
    assert!(is_chi(&[t(TileSuit::Souzu, 9, 0), t(TileSuit::Souzu, 7, 1), t(TileSuit::Souzu, 8, 2)]));
    assert!(!is_chi(&[t(TileSuit::Souzu, 1, 0), t(TileSuit::Pinzu, 2, 1), t(TileSuit::Souzu, 3, 2)]));
    assert!(!is_chi(&[t(TileSuit::Wind, 1, 0), t(TileSuit::Wind, 2, 1), t(TileSuit::Wind, 3, 2)]));
    assert!(!is_chi(&[t(TileSuit::Manzu, 1, 0), t(TileSuit::Manzu, 2, 1), t(TileSuit::Manzu, 2, 2)]));
    assert!(!is_chi(&[t(TileSuit::Manzu, 255, 0), t(TileSuit::Manzu, 255, 1), t(TileSuit::Manzu, 254, 2)]));
    assert_eq!(is_meld(&[t(TileSuit::Manzu, 1, 0), t(TileSuit::Manzu, 1, 1)]), None);
}

#[test]
fn meld_and_play_counts() {
    let m = Meld::new(MeldKind::Pon, vec![t(TileSuit::Manzu, 3, 0), t(TileSuit::Manzu, 3, 1), t(TileSuit::Manzu, 3, 2)]);
    assert_eq!(m.tile_count(), 3);
    let p = Play::new(vec![m], Some(Meld::new(MeldKind::Pair, vec![t(TileSuit::Wind, 1, 3), t(TileSuit::Wind, 1, 4)])));
    assert_eq!(p.total_tile_count(), 5);
    let ids: Vec<u32> = p.all_tiles().iter().map(|t| t.id).collect();
    assert_eq!(ids, vec![0, 1, 2, 3, 4]);
}

#[test]
fn validate_finds_first_pair_and_meld() {
    // pair candidates in order: (0,1) leaves 2m2m3m (no meld), then (1,2)...
    let tiles = vec![
        t(TileSuit::Manzu, 2, 0),
        t(TileSuit::Manzu, 2, 1),
        t(TileSuit::Manzu, 2, 2),
        t(TileSuit::Manzu, 3, 3),
        t(TileSuit::Manzu, 4, 4),
    ];
    let play = validate_play_structure(&tiles).unwrap();
    assert_eq!(play.melds.len(), 1);
    assert_eq!(play.melds[0].kind, MeldKind::Chi);
    let meld_ids: Vec<u32> = play.melds[0].tiles.iter().map(|t| t.id).collect();
    assert_eq!(meld_ids, vec![2, 3, 4]);
    let pair = play.pair.unwrap();
    assert_eq!(pair.kind, MeldKind::Pair);
    let pair_ids: Vec<u32> = pair.tiles.iter().map(|t| t.id).collect();
    assert_eq!(pair_ids, vec![0, 1]);
}

#[test]
fn validate_kan_and_pair() {
    let tiles = vec![
        t(TileSuit::Pinzu, 6, 0),
        t(TileSuit::Dragon, 1, 1),
        t(TileSuit::Pinzu, 6, 2),
        t(TileSuit::Pinzu, 6, 3),
        t(TileSuit::Dragon, 1, 4),
        t(TileSuit::Pinzu, 6, 5),
    ];
    let play = validate_play_structure(&tiles).unwrap();
    assert_eq!(play.melds[0].kind, MeldKind::Kan);
    assert_eq!(play.pair.unwrap().tiles[0].id, 1);
    let bad = vec![
        t(TileSuit::Pinzu, 6, 0),
        t(TileSuit::Pinzu, 6, 1),
        t(TileSuit::Pinzu, 6, 2),
        t(TileSuit::Pinzu, 7, 3),
        t(TileSuit::Pinzu, 8, 4),
        t(TileSuit::Wind, 2, 5),
    ];
    assert_eq!(validate_play_structure(&bad).unwrap_err(), "选中的牌无法组成合法的面子+对子组合");
}

#[test]
fn validate_counts_out_of_range() {
    let four = vec![t(TileSuit::Manzu, 1, 0); 4];
    assert_eq!(validate_play_structure(&four).unwrap_err(), "选牌数量无效: 4张 (需要5-14张)");
    let fifteen = vec![t(TileSuit::Manzu, 1, 0); 15];
    assert_eq!(validate_play_structure(&fifteen).unwrap_err(), "选牌数量无效: 15张 (需要5-14张)");
    let seven = vec![t(TileSuit::Manzu, 1, 0); 7];
    assert_eq!(validate_play_structure(&seven).unwrap_err(), "无法组成合法的和牌牌型");
}

#[test]
fn validate_full_hands() {
    // 111m 234m 567p 789s 99s pair: standard
    let ranks = [
        (TileSuit::Manzu, 1), (TileSuit::Manzu, 1), (TileSuit::Manzu, 1),
        (TileSuit::Manzu, 2), (TileSuit::Manzu, 3), (TileSuit::Manzu, 4),
        (TileSuit::Pinzu, 5), (TileSuit::Pinzu, 6), (TileSuit::Pinzu, 7),
        (TileSuit::Souzu, 7), (TileSuit::Souzu, 8), (TileSuit::Souzu, 9),
        (TileSuit::Dragon, 2), (TileSuit::Dragon, 2),
    ];
    let tiles: Vec<Tile> = ranks.iter().enumerate().map(|(i, (s, r))| t(*s, *r, i as u32)).collect();
    let play = validate_play_structure(&tiles).unwrap();
    assert_eq!(play.melds.len(), 4);
    assert_eq!(play.melds[0].kind, MeldKind::Pon);
    assert_eq!(play.melds[1].kind, MeldKind::Chi);
    assert_eq!(play.pair.as_ref().unwrap().tiles[0].suit, TileSuit::Dragon);
    assert_eq!(play.total_tile_count(), 14);

    // seven pairs
    let pairs = [1u8, 3, 5, 7, 9, 2, 4];
    let mut sp = Vec::new();
    for (k, r) in pairs.iter().enumerate() {
        sp.push(t(TileSuit::Wind, *r, 2 * k as u32));
        sp.push(t(TileSuit::Wind, *r, 2 * k as u32 + 1));
    }
    let play = validate_play_structure(&sp).unwrap();
    assert_eq!(play.melds.len(), 7);
    assert!(play.pair.is_none());
    assert!(play.melds.iter().all(|m| m.kind == MeldKind::Pair && m.tiles.len() == 2));

    // thirteen orphans
    let faces = [
        (TileSuit::Manzu, 1), (TileSuit::Manzu, 9), (TileSuit::Pinzu, 1), (TileSuit::Pinzu, 9),
        (TileSuit::Souzu, 1), (TileSuit::Souzu, 9), (TileSuit::Wind, 1), (TileSuit::Wind, 2),
        (TileSuit::Wind, 3), (TileSuit::Wind, 4), (TileSuit::Dragon, 1), (TileSuit::Dragon, 2),
        (TileSuit::Dragon, 3), (TileSuit::Dragon, 3),
    ];
    let ko: Vec<Tile> = faces.iter().enumerate().map(|(i, (s, r))| t(*s, *r, i as u32)).collect();
    let play = validate_play_structure(&ko).unwrap();
    assert!(play.melds.is_empty());
    assert!(play.pair.is_none());

    // nothing
    let mut junk = ko.clone();
    junk[13] = t(TileSuit::Manzu, 5, 13);
    assert_eq!(validate_play_structure(&junk).unwrap_err(), "无法组成合法的和牌牌型");
}

#[test]
fn accepted_plays_use_the_selected_tiles() {
    // Two 234m sequences interleaved with 567p, a 1s triplet and a pair of red dragons.
    let faces = [
        (TileSuit::Manzu, 2), (TileSuit::Pinzu, 5), (TileSuit::Manzu, 3), (TileSuit::Manzu, 2),
        (TileSuit::Pinzu, 6), (TileSuit::Manzu, 4), (TileSuit::Manzu, 3), (TileSuit::Pinzu, 7),
        (TileSuit::Manzu, 4), (TileSuit::Souzu, 1), (TileSuit::Dragon, 3), (TileSuit::Souzu, 1),
        (TileSuit::Souzu, 1), (TileSuit::Dragon, 3),
    ];
    let tiles: Vec<Tile> = faces.iter().enumerate().map(|(i, (s, r))| t(*s, *r, 100 + i as u32)).collect();
    let play = validate_play_structure(&tiles).unwrap();
    let mut ids: Vec<u32> = play.all_tiles().iter().map(|x| x.id).collect();
    ids.sort();
    assert_eq!(ids, (100..114).collect::<Vec<u32>>());
    assert_eq!(play.melds.len(), 4);
    assert!(play.melds.iter().all(|m| is_meld(&m.tiles) == Some(m.kind)));

    // 5 tiles: the meld and the pair together are the selection
    let five = vec![t(TileSuit::Souzu, 7, 9), t(TileSuit::Souzu, 9, 3), t(TileSuit::Wind, 1, 5), t(TileSuit::Souzu, 8, 1), t(TileSuit::Wind, 1, 2)];
    let play = validate_play_structure(&five).unwrap();
    let mut ids: Vec<u32> = play.all_tiles().iter().map(|x| x.id).collect();
    ids.sort();
    assert_eq!(ids, vec![1, 2, 3, 5, 9]);
}

#[test]
fn standard_hand_in_any_order() {
    let faces = [
        (TileSuit::Manzu, 2), (TileSuit::Manzu, 1), (TileSuit::Manzu, 3),
        (TileSuit::Pinzu, 4), (TileSuit::Pinzu, 4), (TileSuit::Pinzu, 4),
        (TileSuit::Souzu, 5), (TileSuit::Souzu, 5), (TileSuit::Souzu, 5),
        (TileSuit::Souzu, 7), (TileSuit::Souzu, 7), (TileSuit::Souzu, 7),
        (TileSuit::Wind, 1), (TileSuit::Wind, 1),
    ];
    let tiles: Vec<Tile> = faces.iter().enumerate().map(|(i, (s, r))| t(*s, *r, i as u32)).collect();
    let play = validate_play_structure(&tiles).unwrap();
    assert_eq!(play.melds.len(), 4);
    assert_eq!(play.melds[0].kind, MeldKind::Chi);
    assert!(play.melds.iter().all(|m| is_meld(&m.tiles) == Some(m.kind)));
    let pair = play.pair.as_ref().unwrap();
    assert!(is_pair(&pair.tiles));
    assert_eq!(pair.tiles[0].suit, TileSuit::Wind);
    let mut ids: Vec<u32> = play.all_tiles().iter().map(|x| x.id).collect();
    ids.sort();
    assert_eq!(ids, (0..14).collect::<Vec<u32>>());

    // The same tiles reversed are accepted too.
    let mut rev = tiles.clone();
    rev.reverse();
    assert!(validate_play_structure(&rev).is_ok());
}

#[test]
fn seven_pairs_are_grouped_by_face() {
    let faces = [
        (TileSuit::Wind, 1), (TileSuit::Wind, 2), (TileSuit::Wind, 1), (TileSuit::Wind, 2),
        (TileSuit::Wind, 3), (TileSuit::Wind, 4), (TileSuit::Wind, 3), (TileSuit::Wind, 4),
        (TileSuit::Dragon, 1), (TileSuit::Dragon, 2), (TileSuit::Dragon, 1), (TileSuit::Dragon, 2),
        (TileSuit::Dragon, 3), (TileSuit::Dragon, 3),
    ];
    let tiles: Vec<Tile> = faces.iter().enumerate().map(|(i, (s, r))| t(*s, *r, i as u32)).collect();
    let play = validate_play_structure(&tiles).unwrap();
    assert_eq!(play.melds.len(), 7);
    assert!(play.pair.is_none());
    assert!(play.melds.iter().all(|m| m.kind == MeldKind::Pair && is_pair(&m.tiles)));
    let mut ids: Vec<u32> = play.all_tiles().iter().map(|x| x.id).collect();
    ids.sort();
    assert_eq!(ids, (0..14).collect::<Vec<u32>>());
}

#[test]
fn sequences_start_at_seven_or_below() {
    // 8m 9m and a rank-10 man do not make a sequence in a full hand.
    let faces = [
        (TileSuit::Manzu, 8), (TileSuit::Manzu, 9), (TileSuit::Manzu, 10),
        (TileSuit::Pinzu, 4), (TileSuit::Pinzu, 4), (TileSuit::Pinzu, 4),
        (TileSuit::Souzu, 5), (TileSuit::Souzu, 5), (TileSuit::Souzu, 5),
        (TileSuit::Souzu, 7), (TileSuit::Souzu, 7), (TileSuit::Souzu, 7),
        (TileSuit::Wind, 1), (TileSuit::Wind, 1),
    ];
    let tiles: Vec<Tile> = faces.iter().enumerate().map(|(i, (s, r))| t(*s, *r, i as u32)).collect();
    assert!(validate_play_structure(&tiles).is_err());
}
