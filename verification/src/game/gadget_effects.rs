//! The gadget catalog and gadget prices.

use vstd::prelude::*;

use crate::models::gadget::{Gadget, GadgetEffect};

verus! {

/// The catalog entry at position `i`: id, Chinese name, English name,
/// Chinese description and effect.
pub open spec fn catalog_gadget(i: int) -> (Seq<char>, Seq<char>, Seq<char>, Seq<char>, GadgetEffect) {
    if i == 0 {
        ("hammer"@, "锤子"@, "Hammer"@, "销毁手牌中最多3张选定的牌"@, GadgetEffect::DestroyTiles { count: 3 })
    } else if i == 1 {
        ("swapper"@, "交换器"@, "Swapper"@, "将手牌中2张牌交换为牌墙中的牌"@, GadgetEffect::SwapTiles)
    } else if i == 2 {
        ("peek_lens"@, "透镜"@, "Peek Lens"@, "查看牌墙顶部5张牌"@, GadgetEffect::PeekWall { count: 5 })
    } else if i == 3 {
        ("transformer"@, "变形符"@, "Transformer"@, "将手牌中1张牌变为同花色的另一张牌"@, GadgetEffect::TransformTile)
    } else if i == 4 {
        ("fu_charm"@, "符力护符"@, "Fu Charm"@, "本局所有牌+5符值"@, GadgetEffect::BuffTile { fu_bonus: 5, mult_bonus: 0 })
    } else if i == 5 {
        ("mult_charm"@, "番力护符"@, "Mult Charm"@, "本局所有牌+2番值"@, GadgetEffect::BuffTile { fu_bonus: 0, mult_bonus: 2 })
    } else if i == 6 {
        ("great_hammer"@, "大锤"@, "Great Hammer"@, "销毁手牌中最多5张选定的牌"@, GadgetEffect::DestroyTiles { count: 5 })
    } else if i == 7 {
        ("magnet"@, "磁石"@, "Magnet"@, "从牌墙摸5张牌加入手牌"@, GadgetEffect::DrawExtra { count: 5 })
    } else if i == 8 {
        ("purifier"@, "净化符"@, "Purifier"@, "移除当前Boss的特殊效果"@, GadgetEffect::DisableBoss)
    } else {
        ("fortune_coin"@, "招财符"@, "Fortune Coin"@, "获得100金币"@, GadgetEffect::GainCurrency { amount: 100 })
    }
}

/// `g` is the catalog entry `e`.
pub open spec fn gadget_is(g: Gadget, e: (Seq<char>, Seq<char>, Seq<char>, Seq<char>, GadgetEffect)) -> bool {
    &&& g.id@ == e.0
    &&& g.name_zh@ == e.1
    &&& g.name_en@ == e.2
    &&& g.description_zh@ == e.3
    &&& g.effect == e.4
}

fn make_gadget(id: &str, name_zh: &str, name_en: &str, description_zh: &str, effect: GadgetEffect) -> (g: Gadget)
    ensures
        g.id@ == id@,
        g.name_zh@ == name_zh@,
        g.name_en@ == name_en@,
        g.description_zh@ == description_zh@,
        g.effect == effect,
{
    Gadget {
        id: String::from_str(id),
        name_zh: String::from_str(name_zh),
        name_en: String::from_str(name_en),
        description_zh: String::from_str(description_zh),
        effect,
    }
}

/// The 10 gadgets: consumable items that manipulate tiles and the wall.
pub fn all_gadgets() -> (gadgets: Vec<Gadget>)
    ensures
        gadgets@.len() == 10,
        forall|i: int| 0 <= i < 10 ==> gadget_is(#[trigger] gadgets@[i], catalog_gadget(i)),
{
    let mut gadgets: Vec<Gadget> = Vec::new();
    gadgets.push(make_gadget("hammer", "锤子", "Hammer", "销毁手牌中最多3张选定的牌", GadgetEffect::DestroyTiles { count: 3 }));
    gadgets.push(make_gadget("swapper", "交换器", "Swapper", "将手牌中2张牌交换为牌墙中的牌", GadgetEffect::SwapTiles));
    gadgets.push(make_gadget("peek_lens", "透镜", "Peek Lens", "查看牌墙顶部5张牌", GadgetEffect::PeekWall { count: 5 }));
    gadgets.push(make_gadget("transformer", "变形符", "Transformer", "将手牌中1张牌变为同花色的另一张牌", GadgetEffect::TransformTile));
    gadgets.push(make_gadget("fu_charm", "符力护符", "Fu Charm", "本局所有牌+5符值", GadgetEffect::BuffTile { fu_bonus: 5, mult_bonus: 0 }));
    gadgets.push(make_gadget("mult_charm", "番力护符", "Mult Charm", "本局所有牌+2番值", GadgetEffect::BuffTile { fu_bonus: 0, mult_bonus: 2 }));
    gadgets.push(make_gadget("great_hammer", "大锤", "Great Hammer", "销毁手牌中最多5张选定的牌", GadgetEffect::DestroyTiles { count: 5 }));
    gadgets.push(make_gadget("magnet", "磁石", "Magnet", "从牌墙摸5张牌加入手牌", GadgetEffect::DrawExtra { count: 5 }));
    gadgets.push(make_gadget("purifier", "净化符", "Purifier", "移除当前Boss的特殊效果", GadgetEffect::DisableBoss));
    gadgets.push(make_gadget("fortune_coin", "招财符", "Fortune Coin", "获得100金币", GadgetEffect::GainCurrency { amount: 100 }));
    gadgets
}

/// The shop price of a gadget with effect `e`.
pub open spec fn gadget_price(e: GadgetEffect) -> int {
    match e {
        GadgetEffect::DestroyTiles { count } => 30 + (count as u32) * 15,
        GadgetEffect::SwapTiles => 50,
        GadgetEffect::PeekWall { count } => 20 + (count as u32) * 5,
        GadgetEffect::TransformTile => 60,
        GadgetEffect::BuffTile { fu_bonus, mult_bonus } => 40 + (fu_bonus as u32) * 5 + (mult_bonus as u32) * 15,
        GadgetEffect::DrawExtra { count } => 30 + (count as u32) * 10,
        GadgetEffect::DisableBoss => 80,
        GadgetEffect::GainCurrency { amount } => (amount / 3) as int,
    }
}

/// Get gadget cost by effect type (for shop pricing). Counts and bonuses
/// are taken as `u32` (an `as` conversion); prices that would not fit in
/// a `u32` are outside the domain.
pub fn gadget_cost(gadget: &Gadget) -> (cost: u32)
    requires
        gadget_price(gadget.effect) <= u32::MAX,
    ensures
        cost == gadget_price(gadget.effect),
{
    match gadget.effect {
        GadgetEffect::DestroyTiles { count } => 30 + (count as u32) * 15,
        GadgetEffect::SwapTiles => 50,
        GadgetEffect::PeekWall { count } => 20 + (count as u32) * 5,
        GadgetEffect::TransformTile => 60,
        GadgetEffect::BuffTile { fu_bonus, mult_bonus } => 40 + (fu_bonus as u32) * 5 + (mult_bonus as u32) * 15,
        GadgetEffect::DrawExtra { count } => 30 + (count as u32) * 10,
        GadgetEffect::DisableBoss => 80,
        GadgetEffect::GainCurrency { amount } => amount / 3,
    }
}

} // verus!
