//! Plain views of the game's objects, as the user interface shows them.

use vstd::prelude::*;

use crate::game::shop::{ShopItem, ShopItemType};
use crate::game::state::RoundOutcome;
use crate::models::artifact::{Artifact, Rarity};
use crate::models::gadget::Gadget;
use crate::models::tile::{face_exists, Tile, TileSuit};
use crate::models::split::{face_key, key_of};
use crate::persistence::SaveMeta;
use crate::text::{decimal, decimal_string};

verus! {

pub open spec fn suit_label(s: TileSuit) -> Seq<char> {
    match s {
        TileSuit::Manzu => "Manzu"@,
        TileSuit::Pinzu => "Pinzu"@,
        TileSuit::Souzu => "Souzu"@,
        TileSuit::Wind => "Wind"@,
        TileSuit::Dragon => "Dragon"@,
    }
}

pub open spec fn rarity_label(r: Rarity) -> Seq<char> {
    match r {
        Rarity::Common => "Common"@,
        Rarity::Uncommon => "Uncommon"@,
        Rarity::Rare => "Rare"@,
        Rarity::Legendary => "Legendary"@,
    }
}

pub fn suit_name(s: TileSuit) -> (r: String)
    ensures
        r@ == suit_label(s),
{
    match s {
        TileSuit::Manzu => String::from_str("Manzu"),
        TileSuit::Pinzu => String::from_str("Pinzu"),
        TileSuit::Souzu => String::from_str("Souzu"),
        TileSuit::Wind => String::from_str("Wind"),
        TileSuit::Dragon => String::from_str("Dragon"),
    }
}

pub fn rarity_name(r: Rarity) -> (s: String)
    ensures
        s@ == rarity_label(r),
{
    match r {
        Rarity::Common => String::from_str("Common"),
        Rarity::Uncommon => String::from_str("Uncommon"),
        Rarity::Rare => String::from_str("Rare"),
        Rarity::Legendary => String::from_str("Legendary"),
    }
}

pub struct TileView {
    pub suit: String,
    pub rank: u8,
    pub id: u32,
    pub is_red: bool,
    pub display_zh: String,
    pub base_fu: u64,
}

impl TileView {
    pub fn from_tile(tile: &Tile) -> (v: TileView)
        requires
            face_exists(tile.suit, tile.rank),
        ensures
            v.suit@ == suit_label(tile.suit),
            v.rank == tile.rank,
            v.id == tile.id,
            v.is_red == tile.is_red,
            v.display_zh@ == tile.zh_name(),
            v.base_fu == tile.fu(),
    {
        TileView {
            suit: suit_name(tile.suit),
            rank: tile.rank,
            id: tile.id,
            is_red: tile.is_red,
            display_zh: tile.display_zh(),
            base_fu: tile.base_fu(),
        }
    }
}

pub struct ArtifactView {
    pub id: String,
    pub name_zh: String,
    pub name_en: String,
    pub description_zh: String,
    pub rarity: String,
    pub sell_value: u32,
}

impl ArtifactView {
    pub fn from_artifact(artifact: &Artifact) -> (v: ArtifactView)
        ensures
            v.id == artifact.id,
            v.name_zh == artifact.name_zh,
            v.name_en == artifact.name_en,
            v.description_zh == artifact.description_zh,
            v.rarity@ == rarity_label(artifact.rarity),
            v.sell_value == artifact.sell_value,
    {
        ArtifactView {
            id: artifact.id.clone(),
            name_zh: artifact.name_zh.clone(),
            name_en: artifact.name_en.clone(),
            description_zh: artifact.description_zh.clone(),
            rarity: rarity_name(artifact.rarity),
            sell_value: artifact.sell_value,
        }
    }
}

pub struct GadgetView {
    pub id: String,
    pub name_zh: String,
    pub name_en: String,
    pub description_zh: String,
}

impl GadgetView {
    pub fn from_gadget(gadget: &Gadget) -> (v: GadgetView)
        ensures
            v.id == gadget.id,
            v.name_zh == gadget.name_zh,
            v.name_en == gadget.name_en,
            v.description_zh == gadget.description_zh,
    {
        GadgetView {
            id: gadget.id.clone(),
            name_zh: gadget.name_zh.clone(),
            name_en: gadget.name_en.clone(),
            description_zh: gadget.description_zh.clone(),
        }
    }
}

pub struct ShopItemView {
    pub index: usize,
    pub item_type: String,
    pub cost: u32,
    pub sold: bool,
    pub name_zh: String,
    pub description_zh: String,
    pub rarity: Option<String>,
}

impl ShopItemView {
    /// The view of shop item number `index`.
    pub fn from_item(index: usize, item: &ShopItem) -> (v: ShopItemView)
        ensures
            v.index == index,
            v.cost == item.cost,
            v.sold == item.sold,
            match item.item_type {
                ShopItemType::Artifact(a) => {
                    &&& v.item_type@ == "artifact"@
                    &&& v.name_zh == a.name_zh
                    &&& v.description_zh == a.description_zh
                    &&& v.rarity matches Some(r) && r@ == rarity_label(a.rarity)
                },
                ShopItemType::Gadget(g) => v.item_type@ == "gadget"@ && v.name_zh == g.name_zh
                    && v.description_zh == g.description_zh && v.rarity is None,
            },
    {
        match &item.item_type {
            ShopItemType::Artifact(a) => ShopItemView {
                index,
                item_type: String::from_str("artifact"),
                cost: item.cost,
                sold: item.sold,
                name_zh: a.name_zh.clone(),
                description_zh: a.description_zh.clone(),
                rarity: Some(rarity_name(a.rarity)),
            },
            ShopItemType::Gadget(g) => ShopItemView {
                index,
                item_type: String::from_str("gadget"),
                cost: item.cost,
                sold: item.sold,
                name_zh: g.name_zh.clone(),
                description_zh: g.description_zh.clone(),
                rarity: None,
            },
        }
    }
}

#[derive(Clone, Copy, Debug, PartialEq, Eq, Structural)]
pub struct EndRoundView {
    pub passed: bool,
    pub score: u64,
    pub target: u64,
    pub bonus: u32,
    pub victory: bool,
}

impl EndRoundView {
    /// The view of a round's end; a victory shows the round's own score
    /// and target.
    pub fn from_outcome(outcome: RoundOutcome, round_score: u64, round_target: u64) -> (v: EndRoundView)
        ensures
            v == match outcome {
                RoundOutcome::Pass { score, target, bonus } => EndRoundView {
                    passed: true,
                    score,
                    target,
                    bonus,
                    victory: false,
                },
                RoundOutcome::Fail { score, target } => EndRoundView {
                    passed: false,
                    score,
                    target,
                    bonus: 0,
                    victory: false,
                },
                RoundOutcome::Victory => EndRoundView {
                    passed: true,
                    score: round_score,
                    target: round_target,
                    bonus: 0,
                    victory: true,
                },
            },
    {
        match outcome {
            RoundOutcome::Pass { score, target, bonus } => EndRoundView {
                passed: true,
                score,
                target,
                bonus,
                victory: false,
            },
            RoundOutcome::Fail { score, target } => EndRoundView {
                passed: false,
                score,
                target,
                bonus: 0,
                victory: false,
            },
            RoundOutcome::Victory => EndRoundView {
                passed: true,
                score: round_score,
                target: round_target,
                bonus: 0,
                victory: true,
            },
        }
    }
}

pub struct SaveResult {
    pub success: bool,
    pub message: String,
    pub meta: Option<SaveMeta>,
}

impl SaveResult {
    /// The result of saving to `slot` (shown to the player as slot + 1).
    pub fn saved(slot: usize, meta: SaveMeta) -> (r: SaveResult)
        requires
            slot < usize::MAX,
        ensures
            r.success,
            r.message@ == "存档 "@ + decimal((slot + 1) as nat) + " 保存成功"@,
            r.meta == Some(meta),
    {
        let mut message = String::from_str("存档 ");
        let n = decimal_string((slot + 1) as u64);
        message.append(n.as_str());
        message.append(" 保存成功");
        SaveResult { success: true, message, meta: Some(meta) }
    }
}

/// The message shown after deleting save `slot` (shown as slot + 1).
pub fn deleted_message(slot: usize) -> (m: String)
    requires
        slot < usize::MAX,
    ensures
        m@ == "存档 "@ + decimal((slot + 1) as nat) + " 已删除"@,
{
    let mut message = String::from_str("存档 ");
    let n = decimal_string((slot + 1) as u64);
    message.append(n.as_str());
    message.append(" 已删除");
    message
}

fn text_is(a: &String, lit: &str) -> (b: bool)
    ensures
        b == (a@ == lit@),
{
    *a == String::from_str(lit)
}

/// The order of a suit name when sorting tiles: Manzu, Pinzu, Souzu,
/// Wind, Dragon, then anything else.
pub open spec fn suit_order(suit: Seq<char>) -> u8 {
    if suit == "Manzu"@ {
        0
    } else if suit == "Pinzu"@ {
        1
    } else if suit == "Souzu"@ {
        2
    } else if suit == "Wind"@ {
        3
    } else if suit == "Dragon"@ {
        4
    } else {
        5
    }
}

/// The sort key of a tile view: suit order, then rank.
pub fn suit_sort_key(suit: &str, rank: u8) -> (k: (u8, u8))
    ensures
        k == (suit_order(suit@), rank),
{
    let s = String::from_str(suit);
    let order = if text_is(&s, "Manzu") {
        0
    } else if text_is(&s, "Pinzu") {
        1
    } else if text_is(&s, "Souzu") {
        2
    } else if text_is(&s, "Wind") {
        3
    } else if text_is(&s, "Dragon") {
        4
    } else {
        5
    };
    (order, rank)
}

/// The tiles of `s` with key `k`, in order.
pub open spec fn tiles_of_key(s: Seq<Tile>, k: int) -> Seq<Tile>
    decreases s.len(),
{
    if s.len() == 0 {
        seq![]
    } else {
        tiles_of_key(s.drop_last(), k) + if face_key(s.last()) == k {
            seq![s.last()]
        } else {
            seq![]
        }
    }
}

/// Inserting a tile before the tiles of greater key only adds it at the
/// end of the tiles of its key.
proof fn lemma_insert_keeps_order(s: Seq<Tile>, p: int, t: Tile, k: int)
    requires
        0 <= p <= s.len(),
        forall|j: int| p <= j < s.len() ==> face_key(#[trigger] s[j]) > face_key(t),
    ensures
        tiles_of_key(s.insert(p, t), k) == tiles_of_key(s, k) + if face_key(t) == k {
            seq![t]
        } else {
            seq![]
        },
    decreases s.len(),
{
    if p == s.len() {
        assert(s.insert(p, t) =~= s.push(t));
        assert(s.push(t).drop_last() =~= s);
    } else {
        let q = s.drop_last();
        assert forall|j: int| p <= j < q.len() implies face_key(#[trigger] q[j]) > face_key(t) by {
            assert(q[j] == s[j]);
        }
        lemma_insert_keeps_order(q, p, t, k);
        assert(s.insert(p, t) =~= q.insert(p, t).push(s.last()));
        assert(q.insert(p, t).push(s.last()).drop_last() =~= q.insert(p, t));
        assert(face_key(s[s.len() - 1]) > face_key(t));
        assert(tiles_of_key(s.insert(p, t), k) =~= tiles_of_key(s, k) + if face_key(t) == k {
            seq![t]
        } else {
            seq![]
        });
    }
}

/// The hand sorted for display: by suit (Manzu, Pinzu, Souzu, Wind,
/// Dragon), then rank; tiles of one face keep their order.
pub fn sorted_hand(hand: &[Tile]) -> (v: Vec<Tile>)
    ensures
        v@.to_multiset() == hand@.to_multiset(),
        forall|i: int, j: int| 0 <= i < j < v@.len() ==> face_key(v@[i]) <= face_key(v@[j]),
        forall|k: int| #[trigger] tiles_of_key(v@, k) == tiles_of_key(hand@, k),
{
    let mut v: Vec<Tile> = Vec::new();
    let mut n: usize = 0;
    assert(hand@.take(0) =~= Seq::<Tile>::empty());
    assert(v@ =~= Seq::<Tile>::empty());
    while n < hand.len()
        invariant
            n <= hand@.len(),
            v@.len() == n,
            v@.to_multiset() == hand@.take(n as int).to_multiset(),
            forall|i: int, j: int| 0 <= i < j < v@.len() ==> face_key(v@[i]) <= face_key(v@[j]),
            forall|k: int| #[trigger] tiles_of_key(v@, k) == tiles_of_key(hand@.take(n as int), k),
        decreases hand@.len() - n,
    {
        let t = hand[n];
        let k = key_of(&t);
        let mut p: usize = 0;
        while p < v.len() && key_of(&v[p]) <= k
            invariant
                p <= v@.len(),
                forall|i: int| 0 <= i < p ==> face_key(v@[i]) <= k,
            decreases v@.len() - p,
        {
            p = p + 1;
        }
        let ghost before = v@;
        v.insert(p, t);
        proof {
            assert(hand@.take(n + 1) =~= hand@.take(n as int).push(t));
            assert(v@ == before.insert(p as int, t));
            vstd::seq_lib::to_multiset_insert(before, p as int, t);
            assert forall|k2: int| #[trigger] tiles_of_key(v@, k2) == tiles_of_key(hand@.take(n + 1), k2) by {
                assert forall|j: int| p <= j < before.len() implies face_key(#[trigger] before[j]) > face_key(t) by {
                    if p < j {
                        assert(face_key(before[p as int]) <= face_key(before[j]));
                    }
                }
                lemma_insert_keeps_order(before, p as int, t, k2);
                assert(hand@.take(n + 1).drop_last() =~= hand@.take(n as int));
            }
            vstd::seq_lib::to_multiset_build(hand@.take(n as int), t);
            assert forall|i: int, j: int| 0 <= i < j < v@.len() implies face_key(v@[i]) <= face_key(v@[j]) by {
                if p < before.len() {
                    assert(face_key(before[p as int]) > k);
                }
                if i < p && j > p {
                    assert(v@[i] == before[i]);
                    assert(v@[j] == before[j - 1]);
                } else if i < p && j == p {
                    assert(v@[i] == before[i]);
                } else if i == p && j > p {
                    assert(v@[j] == before[j - 1]);
                    assert(face_key(before[p as int]) <= face_key(before[j - 1]));
                } else if i < p {
                    assert(v@[i] == before[i] && v@[j] == before[j]);
                } else {
                    assert(v@[i] == before[i - 1] && v@[j] == before[j - 1]);
                }
            }
        }
        n = n + 1;
    }
    assert(hand@.take(n as int) =~= hand@);
    v
}

} // verus!
