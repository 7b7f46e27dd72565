//! Scoring patterns (yaku): their ids, names, fan and rarity.

use vstd::prelude::*;

use crate::models::artifact::Rarity;
use crate::text::{decimal, decimal_string};

verus! {

/// A pattern definition. Fan is counted in whole units: every pattern's
/// base fan is a whole number.
#[derive(Clone, Debug)]
pub struct PatternDef {
    pub id: String,
    pub name_zh: String,
    pub name_en: String,
    pub name_ja: String,
    pub rarity: Rarity,
    pub base_fan: u32,
    pub inheritance: Vec<String>,
    pub validate_fn: String,
}

/// A pattern found in a play.
#[derive(Clone, Debug)]
pub struct PatternMatch {
    pub pattern_id: String,
    pub name_zh: String,
    pub base_fan: u32,
    pub rarity: Rarity,
}

/// The patterns the checker knows. The dragon and wind triplets carry the
/// rank of their face (1-3 for dragons, 1-4 for winds).
#[derive(Clone, Copy, Debug, PartialEq, Eq, Structural)]
pub enum Yaku {
    Tanyao,
    Chanta,
    Toitoi,
    Sanshoku,
    Ittsu,
    Chiitoitsu,
    Honitsu,
    Chinitsu,
    Ryuuiisou,
    DragonPon(u8),
    WindPon(u8),
    Shousangen,
    Daisangen,
    Shousuushii,
    Daisuushii,
    Tsuuiisou,
    Chinroutou,
    Honroutou,
    Kokushi,
    Suuankou,
    Sanankou,
    Suukantsu,
    Sankantsu,
    Chuuren,
    Ryanpeikou,
    Iipeikou,
}

/// The ranks a dragon or wind triplet pattern may carry.
pub open spec fn yaku_well_formed(y: Yaku) -> bool {
    match y {
        Yaku::DragonPon(r) => 1 <= r <= 3,
        Yaku::WindPon(r) => 1 <= r <= 4,
        _ => true,
    }
}

pub open spec fn yaku_id(y: Yaku) -> Seq<char> {
    match y {
        Yaku::Tanyao => "tanyao"@,
        Yaku::Chanta => "chanta"@,
        Yaku::Toitoi => "toitoi"@,
        Yaku::Sanshoku => "sanshoku"@,
        Yaku::Ittsu => "ittsu"@,
        Yaku::Chiitoitsu => "chiitoitsu"@,
        Yaku::Honitsu => "honitsu"@,
        Yaku::Chinitsu => "chinitsu"@,
        Yaku::Ryuuiisou => "ryuuiisou"@,
        Yaku::DragonPon(r) => "yakuhai_dragon_"@ + decimal(r as nat),
        Yaku::WindPon(r) => "yakuhai_wind_"@ + decimal(r as nat),
        Yaku::Shousangen => "shousangen"@,
        Yaku::Daisangen => "daisangen"@,
        Yaku::Shousuushii => "shousuushii"@,
        Yaku::Daisuushii => "daisuushii"@,
        Yaku::Tsuuiisou => "tsuuiisou"@,
        Yaku::Chinroutou => "chinroutou"@,
        Yaku::Honroutou => "honroutou"@,
        Yaku::Kokushi => "kokushi"@,
        Yaku::Suuankou => "suuankou"@,
        Yaku::Sanankou => "sanankou"@,
        Yaku::Suukantsu => "suukantsu"@,
        Yaku::Sankantsu => "sankantsu"@,
        Yaku::Chuuren => "chuuren"@,
        Yaku::Ryanpeikou => "ryanpeikou"@,
        Yaku::Iipeikou => "iipeikou"@,
    }
}

pub open spec fn yaku_name(y: Yaku) -> Seq<char> {
    match y {
        Yaku::Tanyao => "断么九"@,
        Yaku::Chanta => "全带么"@,
        Yaku::Toitoi => "对对和"@,
        Yaku::Sanshoku => "三色同顺"@,
        Yaku::Ittsu => "一气通贯"@,
        Yaku::Chiitoitsu => "七对子"@,
        Yaku::Honitsu => "混一色"@,
        Yaku::Chinitsu => "清一色"@,
        Yaku::Ryuuiisou => "绿一色"@,
        Yaku::DragonPon(r) => if r == 1 {
            "白板"@
        } else if r == 2 {
            "發"@
        } else {
            "中"@
        },
        Yaku::WindPon(r) => if r == 1 {
            "东风刻"@
        } else if r == 2 {
            "南风刻"@
        } else if r == 3 {
            "西风刻"@
        } else {
            "北风刻"@
        },
        Yaku::Shousangen => "小三元"@,
        Yaku::Daisangen => "大三元"@,
        Yaku::Shousuushii => "小四喜"@,
        Yaku::Daisuushii => "大四喜"@,
        Yaku::Tsuuiisou => "字一色"@,
        Yaku::Chinroutou => "清老头"@,
        Yaku::Honroutou => "混老头"@,
        Yaku::Kokushi => "国士无双"@,
        Yaku::Suuankou => "四暗刻"@,
        Yaku::Sanankou => "三暗刻"@,
        Yaku::Suukantsu => "四杠子"@,
        Yaku::Sankantsu => "三杠子"@,
        Yaku::Chuuren => "九莲宝灯"@,
        Yaku::Ryanpeikou => "二杯口"@,
        Yaku::Iipeikou => "一杯口"@,
    }
}

/// Base fan of a pattern, in whole fan.
pub open spec fn yaku_fan(y: Yaku) -> u32 {
    match y {
        Yaku::Tanyao => 1,
        Yaku::Chanta => 2,
        Yaku::Toitoi => 2,
        Yaku::Sanshoku => 2,
        Yaku::Ittsu => 2,
        Yaku::Chiitoitsu => 2,
        Yaku::Honitsu => 3,
        Yaku::Chinitsu => 6,
        Yaku::Ryuuiisou => 13,
        Yaku::DragonPon(_) => 1,
        Yaku::WindPon(_) => 1,
        Yaku::Shousangen => 4,
        Yaku::Daisangen => 13,
        Yaku::Shousuushii => 13,
        Yaku::Daisuushii => 13,
        Yaku::Tsuuiisou => 13,
        Yaku::Chinroutou => 13,
        Yaku::Honroutou => 2,
        Yaku::Kokushi => 13,
        Yaku::Suuankou => 13,
        Yaku::Sanankou => 2,
        Yaku::Suukantsu => 13,
        Yaku::Sankantsu => 2,
        Yaku::Chuuren => 13,
        Yaku::Ryanpeikou => 3,
        Yaku::Iipeikou => 1,
    }
}

pub open spec fn yaku_rarity(y: Yaku) -> Rarity {
    match y {
        Yaku::Tanyao | Yaku::DragonPon(_) | Yaku::WindPon(_) | Yaku::Iipeikou => Rarity::Common,
        Yaku::Chinitsu | Yaku::Shousangen | Yaku::Ryanpeikou => Rarity::Rare,
        Yaku::Ryuuiisou | Yaku::Daisangen | Yaku::Shousuushii | Yaku::Daisuushii | Yaku::Tsuuiisou
        | Yaku::Chinroutou | Yaku::Kokushi | Yaku::Suuankou | Yaku::Suukantsu | Yaku::Chuuren =>
            Rarity::Legendary,
        _ => Rarity::Uncommon,
    }
}

/// `m` is the match record of pattern `y`.
pub open spec fn describes(m: PatternMatch, y: Yaku) -> bool {
    &&& m.pattern_id@ == yaku_id(y)
    &&& m.name_zh@ == yaku_name(y)
    &&& m.base_fan == yaku_fan(y)
    &&& m.rarity == yaku_rarity(y)
}

fn fixed_match(id: &str, name: &str, base_fan: u32, rarity: Rarity) -> (m: PatternMatch)
    ensures
        m.pattern_id@ == id@,
        m.name_zh@ == name@,
        m.base_fan == base_fan,
        m.rarity == rarity,
{
    PatternMatch {
        pattern_id: String::from_str(id),
        name_zh: String::from_str(name),
        base_fan,
        rarity,
    }
}

/// The match record of a pattern.
pub fn pattern_match_of(y: Yaku) -> (m: PatternMatch)
    requires
        yaku_well_formed(y),
    ensures
        describes(m, y),
{
    match y {
        Yaku::Tanyao => fixed_match("tanyao", "断么九", 1, Rarity::Common),
        Yaku::Chanta => fixed_match("chanta", "全带么", 2, Rarity::Uncommon),
        Yaku::Toitoi => fixed_match("toitoi", "对对和", 2, Rarity::Uncommon),
        Yaku::Sanshoku => fixed_match("sanshoku", "三色同顺", 2, Rarity::Uncommon),
        Yaku::Ittsu => fixed_match("ittsu", "一气通贯", 2, Rarity::Uncommon),
        Yaku::Chiitoitsu => fixed_match("chiitoitsu", "七对子", 2, Rarity::Uncommon),
        Yaku::Honitsu => fixed_match("honitsu", "混一色", 3, Rarity::Uncommon),
        Yaku::Chinitsu => fixed_match("chinitsu", "清一色", 6, Rarity::Rare),
        Yaku::Ryuuiisou => fixed_match("ryuuiisou", "绿一色", 13, Rarity::Legendary),
        Yaku::DragonPon(r) => {
            let mut id = String::from_str("yakuhai_dragon_");
            let digits = decimal_string(r as u64);
            id.append(digits.as_str());
            let name = if r == 1 {
                String::from_str("白板")
            } else if r == 2 {
                String::from_str("發")
            } else {
                String::from_str("中")
            };
            PatternMatch { pattern_id: id, name_zh: name, base_fan: 1, rarity: Rarity::Common }
        },
        Yaku::WindPon(r) => {
            let mut id = String::from_str("yakuhai_wind_");
            let digits = decimal_string(r as u64);
            id.append(digits.as_str());
            let name = if r == 1 {
                String::from_str("东风刻")
            } else if r == 2 {
                String::from_str("南风刻")
            } else if r == 3 {
                String::from_str("西风刻")
            } else {
                String::from_str("北风刻")
            };
            PatternMatch { pattern_id: id, name_zh: name, base_fan: 1, rarity: Rarity::Common }
        },
        Yaku::Shousangen => fixed_match("shousangen", "小三元", 4, Rarity::Rare),
        Yaku::Daisangen => fixed_match("daisangen", "大三元", 13, Rarity::Legendary),
        Yaku::Shousuushii => fixed_match("shousuushii", "小四喜", 13, Rarity::Legendary),
        Yaku::Daisuushii => fixed_match("daisuushii", "大四喜", 13, Rarity::Legendary),
        Yaku::Tsuuiisou => fixed_match("tsuuiisou", "字一色", 13, Rarity::Legendary),
        Yaku::Chinroutou => fixed_match("chinroutou", "清老头", 13, Rarity::Legendary),
        Yaku::Honroutou => fixed_match("honroutou", "混老头", 2, Rarity::Uncommon),
        Yaku::Kokushi => fixed_match("kokushi", "国士无双", 13, Rarity::Legendary),
        Yaku::Suuankou => fixed_match("suuankou", "四暗刻", 13, Rarity::Legendary),
        Yaku::Sanankou => fixed_match("sanankou", "三暗刻", 2, Rarity::Uncommon),
        Yaku::Suukantsu => fixed_match("suukantsu", "四杠子", 13, Rarity::Legendary),
        Yaku::Sankantsu => fixed_match("sankantsu", "三杠子", 2, Rarity::Uncommon),
        Yaku::Chuuren => fixed_match("chuuren", "九莲宝灯", 13, Rarity::Legendary),
        Yaku::Ryanpeikou => fixed_match("ryanpeikou", "二杯口", 3, Rarity::Rare),
        Yaku::Iipeikou => fixed_match("iipeikou", "一杯口", 1, Rarity::Common),
    }
}

/// The base fan of a pattern.
pub fn yaku_base_fan(y: Yaku) -> (f: u32)
    ensures
        f == yaku_fan(y),
{
    match y {
        Yaku::Tanyao | Yaku::DragonPon(_) | Yaku::WindPon(_) | Yaku::Iipeikou => 1,
        Yaku::Chanta | Yaku::Toitoi | Yaku::Sanshoku | Yaku::Ittsu | Yaku::Chiitoitsu
        | Yaku::Honroutou | Yaku::Sanankou | Yaku::Sankantsu => 2,
        Yaku::Honitsu | Yaku::Ryanpeikou => 3,
        Yaku::Shousangen => 4,
        Yaku::Chinitsu => 6,
        _ => 13,
    }
}

} // verus!
