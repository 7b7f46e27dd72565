use aotenjo::models::tile::{standard_tile_set, Tile, TileSuit};

#[test]
fn test_standard_set_count() {
    let tiles = standard_tile_set();
    assert_eq!(tiles.len(), 136);
}

#[test]
fn test_red_dora_count() {
    let tiles = standard_tile_set();
    let red_count = tiles.iter().filter(|t| t.is_red).count();
    assert_eq!(red_count, 3); // 5m, 5p, 5s
}

#[test]
fn test_tile_type_counts() {
    let tiles = standard_tile_set();
    let mut counts = std::collections::HashMap::new();
    for t in &tiles {
        let key = (t.suit, t.rank);
        *counts.entry(key).or_insert(0) += 1;
    }
    assert_eq!(counts.len(), 34);
    for count in counts.values() {
        assert_eq!(*count, 4);
    }
}

#[test]
fn test_base_fu() {
    assert_eq!(Tile::new(TileSuit::Manzu, 5, 0).base_fu(), 3);
    assert_eq!(Tile::new(TileSuit::Manzu, 1, 0).base_fu(), 6);
    assert_eq!(Tile::new(TileSuit::Manzu, 9, 0).base_fu(), 6);
    assert_eq!(Tile::new(TileSuit::Wind, 1, 0).base_fu(), 8);
    assert_eq!(Tile::new(TileSuit::Dragon, 2, 0).base_fu(), 10);
}

#[test]
fn test_terminal_or_honor() {
    assert!(Tile::new(TileSuit::Manzu, 1, 0).is_terminal_or_honor());
    assert!(Tile::new(TileSuit::Manzu, 9, 0).is_terminal_or_honor());
    assert!(!Tile::new(TileSuit::Manzu, 5, 0).is_terminal_or_honor());
    assert!(Tile::new(TileSuit::Wind, 1, 0).is_terminal_or_honor());
    assert!(Tile::new(TileSuit::Dragon, 1, 0).is_terminal_or_honor());
}

#[test]
fn standard_set_ids_are_positions_and_reds_are_first_fives() {
    let tiles = standard_tile_set();
    for (i, t) in tiles.iter().enumerate() {
        assert_eq!(t.id as usize, i);
        assert_eq!(t.is_red, t.rank == 5 && i < 108 && i % 4 == 0);
        assert_eq!(t.buff_fu, 0);
        assert_eq!(t.buff_mult, 0);
    }
    assert_eq!(tiles[0], Tile::new(TileSuit::Manzu, 1, 0));
    assert_eq!(tiles[16], Tile::new(TileSuit::Manzu, 5, 16).with_red());
    assert_eq!(tiles[108], Tile::new(TileSuit::Wind, 1, 108));
    assert_eq!(tiles[135], Tile::new(TileSuit::Dragon, 3, 135));
}

#[test]
fn tile_names() {
    assert_eq!(Tile::new(TileSuit::Manzu, 5, 0).display_zh(), "五万");
    assert_eq!(Tile::new(TileSuit::Pinzu, 1, 0).display_zh(), "一筒");
    assert_eq!(Tile::new(TileSuit::Souzu, 9, 0).display_zh(), "九索");
    assert_eq!(Tile::new(TileSuit::Wind, 2, 0).display_zh(), "南");
    assert_eq!(Tile::new(TileSuit::Dragon, 2, 0).display_zh(), "發");
    assert_eq!(Tile::new(TileSuit::Manzu, 5, 0).display_short(), "5m");
    assert_eq!(Tile::new(TileSuit::Pinzu, 12, 0).display_short(), "12p");
    assert_eq!(Tile::new(TileSuit::Souzu, 7, 0).display_short(), "7s");
    assert_eq!(Tile::new(TileSuit::Wind, 4, 0).display_short(), "N");
    assert_eq!(Tile::new(TileSuit::Dragon, 1, 0).display_short(), "Wh");
}

#[test]
fn tile_classes() {
    assert!(Tile::new(TileSuit::Pinzu, 2, 0).is_simple());
    assert!(Tile::new(TileSuit::Pinzu, 8, 0).is_simple());
    assert!(!Tile::new(TileSuit::Pinzu, 9, 0).is_simple());
    assert!(!Tile::new(TileSuit::Wind, 3, 0).is_simple());
    let a = Tile::new(TileSuit::Souzu, 3, 1);
    let b = Tile::new(TileSuit::Souzu, 3, 7).with_red();
    assert!(a.same_type(&b));
    assert!(!a.same_type(&Tile::new(TileSuit::Pinzu, 3, 1)));
}
