use aotenjo::game::shop::{ShopItem, ShopItemType};
use aotenjo::game::state::{GameState, RoundOutcome, Wind};
use aotenjo::models::artifact::{Artifact, ArtifactEffect, Rarity};
use aotenjo::models::gadget::{Gadget, GadgetEffect};
use aotenjo::models::tile::{Tile, TileSuit};
use aotenjo::persistence::{
    check_load_slot, check_save_slot, simple_hash, slot_file_name, verify_checksum, wind_name,
};
use aotenjo::views::{
    deleted_message, suit_sort_key, ArtifactView, EndRoundView, GadgetView, SaveResult, ShopItemView, TileView,
};

#[test]
fn fnv1a_known_values() {
    assert_eq!(simple_hash(""), 0xcbf29ce484222325);
    assert_eq!(simple_hash("a"), 0xaf63dc4c8601ec8c);
    assert_eq!(simple_hash("foobar"), 0x85944171f73967e8);
    assert_ne!(simple_hash("ab"), simple_hash("ba"));
}

#[test]
fn slot_checks_and_messages() {
    for slot in 0..3 {
        assert!(check_save_slot(slot).is_ok());
        assert!(check_load_slot(slot).is_ok());
    }
    assert_eq!(check_save_slot(3), Err("存档位 3 无效 (0-2)".to_string()));
    assert_eq!(check_load_slot(12), Err("存档位 12 无效".to_string()));
    assert_eq!(slot_file_name(2), "slot_2.json");
    assert_eq!(slot_file_name(10), "slot_10.json");
}

#[test]
fn checksum_is_checked() {
    let json = "{\"a\":1}";
    assert!(verify_checksum(json, simple_hash(json)).is_ok());
    assert_eq!(
        verify_checksum(json, simple_hash(json) ^ 1),
        Err("存档校验失败 — 文件可能已损坏".to_string())
    );
}

#[test]
fn save_summary_and_results() {
    let mut state = GameState::new();
    state.current_wind = Wind::West;
    state.current_round = 3;
    state.currency = 250;
    let meta = state.save_meta(1, "1700000000".to_string());
    assert_eq!(meta.slot, 1);
    assert_eq!(meta.wind, "West");
    assert_eq!(meta.round, 3);
    assert_eq!(meta.currency, 250);
    assert_eq!(meta.timestamp, "1700000000");
    assert_eq!(wind_name(Wind::North), "North");

    let r = SaveResult::saved(1, meta);
    assert!(r.success);
    assert_eq!(r.message, "存档 2 保存成功");
    assert_eq!(r.meta.map(|m| m.slot), Some(1));
    assert_eq!(deleted_message(0), "存档 1 已删除");
}

#[test]
fn end_round_views() {
    let pass = EndRoundView::from_outcome(RoundOutcome::Pass { score: 900, target: 300, bonus: 100 }, 1, 2);
    assert_eq!(pass, EndRoundView { passed: true, score: 900, target: 300, bonus: 100, victory: false });
    let fail = EndRoundView::from_outcome(RoundOutcome::Fail { score: 10, target: 300 }, 1, 2);
    assert_eq!(fail, EndRoundView { passed: false, score: 10, target: 300, bonus: 0, victory: false });
    let win = EndRoundView::from_outcome(RoundOutcome::Victory, 7, 5);
    assert_eq!(win, EndRoundView { passed: true, score: 7, target: 5, bonus: 0, victory: true });
}

#[test]
fn tile_and_item_views() {
    let t = Tile::new(TileSuit::Pinzu, 5, 40).with_red();
    let v = TileView::from_tile(&t);
    assert_eq!(v.suit, "Pinzu");
    assert_eq!((v.rank, v.id, v.is_red), (5, 40, true));
    assert_eq!(v.display_zh, "五筒");
    assert_eq!(v.base_fu, 3);
    let d = TileView::from_tile(&Tile::new(TileSuit::Dragon, 2, 130));
    assert_eq!(d.display_zh, "發");
    assert_eq!(d.base_fu, 10);

    let a = Artifact {
        id: "lucky".into(),
        name_zh: "幸运".into(),
        name_en: "Lucky".into(),
        description_zh: "desc".into(),
        rarity: Rarity::Rare,
        cost: 90,
        sell_value: 45,
        effect: ArtifactEffect::AddFu(10),
    };
    let av = ArtifactView::from_artifact(&a);
    assert_eq!((av.id.as_str(), av.rarity.as_str(), av.sell_value), ("lucky", "Rare", 45));
    let item = ShopItem { item_type: ShopItemType::Artifact(a), cost: 90, sold: false };
    let iv = ShopItemView::from_item(2, &item);
    assert_eq!((iv.index, iv.item_type.as_str(), iv.cost, iv.sold), (2, "artifact", 90, false));
    assert_eq!(iv.rarity, Some("Rare".to_string()));

    let g = Gadget {
        id: "hammer".into(),
        name_zh: "锤子".into(),
        name_en: "Hammer".into(),
        description_zh: "d".into(),
        effect: GadgetEffect::DestroyTiles { count: 3 },
    };
    let gv = GadgetView::from_gadget(&g);
    assert_eq!(gv.name_en, "Hammer");
    let gi = ShopItemView::from_item(3, &ShopItem { item_type: ShopItemType::Gadget(g), cost: 75, sold: true });
    assert_eq!((gi.item_type.as_str(), gi.name_zh.as_str(), gi.sold), ("gadget", "锤子", true));
    assert_eq!(gi.rarity, None);
}

#[test]
fn sort_keys_order_suits() {
    assert_eq!(suit_sort_key("Manzu", 9), (0, 9));
    assert_eq!(suit_sort_key("Pinzu", 3), (1, 3));
    assert_eq!(suit_sort_key("Souzu", 1), (2, 1));
    assert_eq!(suit_sort_key("Wind", 4), (3, 4));
    assert_eq!(suit_sort_key("Dragon", 2), (4, 2));
    assert_eq!(suit_sort_key("Other", 1), (5, 1));
    assert!(suit_sort_key("Souzu", 9) < suit_sort_key("Wind", 1));
}

#[test]
fn hand_sorted_by_suit_then_rank() {
    let hand = vec![
        Tile::new(TileSuit::Dragon, 1, 0),
        Tile::new(TileSuit::Manzu, 9, 1),
        Tile::new(TileSuit::Wind, 2, 2),
        Tile::new(TileSuit::Manzu, 1, 3),
        Tile::new(TileSuit::Souzu, 5, 4),
        Tile::new(TileSuit::Manzu, 9, 5),
        Tile::new(TileSuit::Pinzu, 3, 6),
    ];
    let sorted = aotenjo::views::sorted_hand(&hand);
    let ids: Vec<u32> = sorted.iter().map(|t| t.id).collect();
    assert_eq!(ids, vec![3, 1, 5, 6, 4, 2, 0]);
}

#[test]
fn sorting_keeps_the_order_within_a_face() {
    let hand = vec![
        Tile::new(TileSuit::Pinzu, 3, 7),
        Tile::new(TileSuit::Manzu, 2, 9),
        Tile::new(TileSuit::Pinzu, 3, 1),
        Tile::new(TileSuit::Manzu, 2, 4),
        Tile::new(TileSuit::Pinzu, 3, 5),
    ];
    let ids: Vec<u32> = aotenjo::views::sorted_hand(&hand).iter().map(|t| t.id).collect();
    assert_eq!(ids, vec![9, 4, 7, 1, 5]);
}
