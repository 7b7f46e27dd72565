//! The integer side of scoring a play: tile fu, meld structure fan,
//! patterns, and which artifacts take effect. Combining these with the
//! artifacts' fractional fan and multipliers is left to the caller.

use vstd::prelude::*;

use crate::game::pattern_checker::{
    by_fan_desc, check_patterns, dedup_by_id, found_yaku, reported_yaku, with_fan,
    common_yaku, suit_yaku, honor_yaku, special_yaku, value_triplet_yaku, honor_set_yaku,
    honor_tiles_yaku,
};
use crate::models::artifact::{Artifact, ArtifactEffect};
use crate::models::hand::{MeldKind, Play};
use crate::models::pattern::{describes, yaku_fan, yaku_id, PatternMatch, Yaku};
use crate::models::tile::{Tile, TileSuit};

verus! {

/// Fu of a tile: its intrinsic fu plus its fu buff when positive.
pub open spec fn tile_score_fu(t: Tile) -> int {
    t.fu() + if t.buff_fu > 0 {
        t.buff_fu as int
    } else {
        0
    }
}

pub open spec fn tiles_fu(s: Seq<Tile>) -> int
    decreases s.len(),
{
    if s.len() == 0 {
        0
    } else {
        tiles_fu(s.drop_last()) + tile_score_fu(s.last())
    }
}

/// Structure fan of a meld, in half fan: triplet 1, quad 2, sequence 0.5.
pub open spec fn meld_half_fan(k: MeldKind) -> int {
    match k {
        MeldKind::Pon => 2,
        MeldKind::Kan => 4,
        MeldKind::Chi => 1,
        MeldKind::Pair => 0,
    }
}

pub open spec fn melds_half_fan(ms: Seq<crate::models::hand::Meld>) -> int
    decreases ms.len(),
{
    if ms.len() == 0 {
        0
    } else {
        melds_half_fan(ms.drop_last()) + meld_half_fan(ms.last().kind)
    }
}

pub open spec fn yaku_fan_sum(ys: Seq<Yaku>) -> int
    decreases ys.len(),
{
    if ys.len() == 0 {
        0
    } else {
        yaku_fan_sum(ys.drop_last()) + yaku_fan(ys.last())
    }
}

/// The fu an artifact adds: a fixed amount, or a scaling amount's current
/// value.
pub open spec fn artifact_fu(e: ArtifactEffect) -> int {
    match e {
        ArtifactEffect::AddFu(v) => v as int,
        ArtifactEffect::ScalingAddFu { per_round: _, current } => current as int,
        _ => 0,
    }
}

pub open spec fn artifacts_fu(arts: Seq<Artifact>) -> int
    decreases arts.len(),
{
    if arts.len() == 0 {
        0
    } else {
        artifacts_fu(arts.drop_last()) + artifact_fu(arts.last().effect)
    }
}

pub open spec fn has_tile_where(s: Seq<Tile>, p: spec_fn(Tile) -> bool) -> bool {
    exists|i: int| 0 <= i < s.len() && p(#[trigger] s[i])
}

pub open spec fn has_meld_kind(p: Play, k: MeldKind) -> bool {
    exists|i: int| 0 <= i < p.melds@.len() && (#[trigger] p.melds@[i]).kind == k
}

/// The conditions a conditional artifact may name.
pub open spec fn condition_holds(cond: Seq<char>, play: Play, s: Seq<Tile>) -> bool {
    if cond == "has_dragon"@ {
        has_tile_where(s, |t: Tile| t.suit == TileSuit::Dragon)
    } else if cond == "has_wind"@ {
        has_tile_where(s, |t: Tile| t.suit == TileSuit::Wind)
    } else if cond == "has_pon"@ {
        has_meld_kind(play, MeldKind::Pon)
    } else if cond == "has_kan"@ {
        has_meld_kind(play, MeldKind::Kan)
    } else if cond == "has_chi"@ {
        has_meld_kind(play, MeldKind::Chi)
    } else if cond == "has_terminal"@ {
        has_tile_where(
            s,
            |t: Tile| crate::models::tile::numbered(t.suit) && (t.rank == 1 || t.rank == 9),
        )
    } else if cond == "all_same_suit"@ {
        s.len() > 0 && forall|i: int| 0 <= i < s.len() ==> (#[trigger] s[i]).suit == s[0].suit
    } else if cond == "has_manzu"@ {
        has_tile_where(s, |t: Tile| t.suit == TileSuit::Manzu)
    } else if cond == "has_pinzu"@ {
        has_tile_where(s, |t: Tile| t.suit == TileSuit::Pinzu)
    } else if cond == "has_souzu"@ {
        has_tile_where(s, |t: Tile| t.suit == TileSuit::Souzu)
    } else {
        false
    }
}

/// Whether an artifact takes effect on a play whose tiles are `s` and
/// whose reported patterns are `ys`: conditional fan needs its condition,
/// a pattern bonus needs its pattern; every other artifact always applies.
pub open spec fn artifact_fires(e: ArtifactEffect, play: Play, s: Seq<Tile>, ys: Seq<Yaku>) -> bool {
    match e {
        ArtifactEffect::ConditionalAddFan { condition, value: _ } => condition_holds(
            condition@,
            play,
            s,
        ),
        ArtifactEffect::PatternBonus { pattern_id, bonus: _ } => exists|i: int|
            0 <= i < ys.len() && yaku_id(#[trigger] ys[i]) == pattern_id@,
        _ => true,
    }
}

/// The integer parts of a play's score. `structure_half_fan` counts the
/// base fan plus the melds' structure fan in halves (a base of 1 fan is
/// 2); `fired[i]` tells whether artifact `i` takes effect.
pub struct ScoreTally {
    pub tile_fu: u64,
    pub artifact_fu: u64,
    pub structure_half_fan: u64,
    pub patterns: Vec<PatternMatch>,
    pub pattern_fan: u64,
    pub fired: Vec<bool>,
}

fn text_is(a: &String, lit: &str) -> (b: bool)
    ensures
        b == (a@ == lit@),
{
    *a == String::from_str(lit)
}

fn any_tile_of_suit(tiles: &[Tile], suit: TileSuit) -> (b: bool)
    ensures
        b == has_tile_where(tiles@, |t: Tile| t.suit == suit),
{
    let mut i: usize = 0;
    while i < tiles.len()
        invariant
            i <= tiles@.len(),
            forall|j: int| 0 <= j < i ==> (#[trigger] tiles@[j]).suit != suit,
        decreases tiles@.len() - i,
    {
        if tiles[i].suit == suit {
            assert((|t: Tile| t.suit == suit)(tiles@[i as int]));
            return true;
        }
        i = i + 1;
    }
    false
}

fn any_meld_of_kind(play: &Play, kind: MeldKind) -> (b: bool)
    ensures
        b == has_meld_kind(*play, kind),
{
    let mut i: usize = 0;
    while i < play.melds.len()
        invariant
            i <= play.melds@.len(),
            forall|j: int| 0 <= j < i ==> (#[trigger] play.melds@[j]).kind != kind,
        decreases play.melds@.len() - i,
    {
        if play.melds[i].kind == kind {
            return true;
        }
        i = i + 1;
    }
    false
}

fn any_terminal(tiles: &[Tile]) -> (b: bool)
    ensures
        b == has_tile_where(
            tiles@,
            |t: Tile| crate::models::tile::numbered(t.suit) && (t.rank == 1 || t.rank == 9),
        ),
{
    let mut i: usize = 0;
    while i < tiles.len()
        invariant
            i <= tiles@.len(),
            forall|j: int|
                0 <= j < i ==> !(crate::models::tile::numbered((#[trigger] tiles@[j]).suit) && (
                tiles@[j].rank == 1 || tiles@[j].rank == 9)),
        decreases tiles@.len() - i,
    {
        let t = tiles[i];
        if crate::models::tile::is_numbered_suit(t.suit) && (t.rank == 1 || t.rank == 9) {
            return true;
        }
        i = i + 1;
    }
    false
}

fn all_same_suit(tiles: &[Tile]) -> (b: bool)
    ensures
        b == (tiles@.len() > 0 && forall|i: int|
            0 <= i < tiles@.len() ==> (#[trigger] tiles@[i]).suit == tiles@[0].suit),
{
    if tiles.len() == 0 {
        return false;
    }
    let first = tiles[0].suit;
    let mut i: usize = 0;
    while i < tiles.len()
        invariant
            tiles@.len() > 0,
            first == tiles@[0].suit,
            i <= tiles@.len(),
            forall|j: int| 0 <= j < i ==> (#[trigger] tiles@[j]).suit == first,
        decreases tiles@.len() - i,
    {
        if tiles[i].suit != first {
            return false;
        }
        i = i + 1;
    }
    true
}

/// Whether the named condition holds for a play and its tiles.
fn evaluate_condition(condition: &String, play: &Play, tiles: &[Tile], hand_tiles: &[Tile]) -> (b: bool)
    ensures
        b == condition_holds(condition@, *play, tiles@),
{
    if text_is(condition, "has_dragon") {
        any_tile_of_suit(tiles, TileSuit::Dragon)
    } else if text_is(condition, "has_wind") {
        any_tile_of_suit(tiles, TileSuit::Wind)
    } else if text_is(condition, "has_pon") {
        any_meld_of_kind(play, MeldKind::Pon)
    } else if text_is(condition, "has_kan") {
        any_meld_of_kind(play, MeldKind::Kan)
    } else if text_is(condition, "has_chi") {
        any_meld_of_kind(play, MeldKind::Chi)
    } else if text_is(condition, "has_terminal") {
        any_terminal(tiles)
    } else if text_is(condition, "all_same_suit") {
        all_same_suit(tiles)
    } else if text_is(condition, "has_manzu") {
        any_tile_of_suit(tiles, TileSuit::Manzu)
    } else if text_is(condition, "has_pinzu") {
        any_tile_of_suit(tiles, TileSuit::Pinzu)
    } else if text_is(condition, "has_souzu") {
        any_tile_of_suit(tiles, TileSuit::Souzu)
    } else {
        false
    }
}

proof fn lemma_with_fan_len(ys: Seq<Yaku>, f: u32)
    ensures
        with_fan(ys, f).len() <= ys.len(),
    decreases ys.len(),
{
    if ys.len() > 0 {
        lemma_with_fan_len(ys.drop_last(), f);
    }
}

proof fn lemma_dedup_len(ys: Seq<Yaku>)
    ensures
        dedup_by_id(ys).len() <= ys.len(),
    decreases ys.len(),
{
    if ys.len() > 0 {
        lemma_dedup_len(ys.drop_last());
    }
}

proof fn lemma_common_len(s: Seq<Tile>)
    ensures
        common_yaku(s).len() <= 6,
{
}

proof fn lemma_suit_len(s: Seq<Tile>)
    ensures
        suit_yaku(s).len() <= 3,
{
}

proof fn lemma_value_triplet_len(s: Seq<Tile>)
    ensures
        value_triplet_yaku(s).len() <= 7,
{
    reveal(value_triplet_yaku);
}

proof fn lemma_honor_set_len(s: Seq<Tile>)
    ensures
        honor_set_yaku(s).len() <= 4,
{
    reveal(honor_set_yaku);
}

proof fn lemma_honor_tiles_len(s: Seq<Tile>)
    ensures
        honor_tiles_yaku(s).len() <= 3,
{
    reveal(honor_tiles_yaku);
}

proof fn lemma_honor_len(s: Seq<Tile>)
    ensures
        honor_yaku(s).len() <= 14,
{
    lemma_value_triplet_len(s);
    lemma_honor_set_len(s);
    lemma_honor_tiles_len(s);
}

proof fn lemma_special_len(s: Seq<Tile>)
    ensures
        special_yaku(s).len() <= 7,
{
}

/// At most 180 patterns are reported for a play.
proof fn lemma_reported_len(s: Seq<Tile>)
    ensures
        reported_yaku(s).len() <= 180,
{
    lemma_common_len(s);
    lemma_suit_len(s);
    lemma_honor_len(s);
    lemma_special_len(s);
    let f = found_yaku(s);
    assert(f.len() <= 30);
    lemma_with_fan_len(f, 13);
    lemma_with_fan_len(f, 6);
    lemma_with_fan_len(f, 4);
    lemma_with_fan_len(f, 3);
    lemma_with_fan_len(f, 2);
    lemma_with_fan_len(f, 1);
    lemma_dedup_len(by_fan_desc(f));
}

proof fn lemma_yaku_fan_sum_bound(ys: Seq<Yaku>)
    ensures
        0 <= yaku_fan_sum(ys) <= 13 * ys.len(),
    decreases ys.len(),
{
    if ys.len() > 0 {
        lemma_yaku_fan_sum_bound(ys.drop_last());
    }
}

proof fn lemma_tiles_fu_prefix(s: Seq<Tile>, k: int)
    requires
        0 <= k <= s.len(),
    ensures
        0 <= tiles_fu(s.take(k)) <= tiles_fu(s),
    decreases s.len() - k,
{
    if k < s.len() {
        lemma_tiles_fu_prefix(s, k + 1);
        assert(s.take(k + 1).drop_last() =~= s.take(k));
    } else {
        assert(s.take(k) =~= s);
    }
    lemma_tiles_fu_nonneg(s.take(k));
}

proof fn lemma_tiles_fu_nonneg(s: Seq<Tile>)
    ensures
        tiles_fu(s) >= 0,
    decreases s.len(),
{
    if s.len() > 0 {
        lemma_tiles_fu_nonneg(s.drop_last());
    }
}

proof fn lemma_artifacts_fu_prefix(a: Seq<Artifact>, k: int)
    requires
        0 <= k <= a.len(),
    ensures
        0 <= artifacts_fu(a.take(k)) <= artifacts_fu(a),
    decreases a.len() - k,
{
    if k < a.len() {
        lemma_artifacts_fu_prefix(a, k + 1);
        assert(a.take(k + 1).drop_last() =~= a.take(k));
    } else {
        assert(a.take(k) =~= a);
    }
    lemma_artifacts_fu_nonneg(a.take(k));
}

proof fn lemma_artifacts_fu_nonneg(a: Seq<Artifact>)
    ensures
        artifacts_fu(a) >= 0,
    decreases a.len(),
{
    if a.len() > 0 {
        lemma_artifacts_fu_nonneg(a.drop_last());
    }
}

proof fn lemma_melds_half_fan_prefix(ms: Seq<crate::models::hand::Meld>, k: int)
    requires
        0 <= k <= ms.len(),
    ensures
        0 <= melds_half_fan(ms.take(k)) <= melds_half_fan(ms),
    decreases ms.len() - k,
{
    if k < ms.len() {
        lemma_melds_half_fan_prefix(ms, k + 1);
        assert(ms.take(k + 1).drop_last() =~= ms.take(k));
    } else {
        assert(ms.take(k) =~= ms);
    }
    lemma_melds_half_fan_nonneg(ms.take(k));
}

proof fn lemma_melds_half_fan_nonneg(ms: Seq<crate::models::hand::Meld>)
    ensures
        melds_half_fan(ms) >= 0,
    decreases ms.len(),
{
    if ms.len() > 0 {
        lemma_melds_half_fan_nonneg(ms.drop_last());
    }
}

proof fn lemma_tiles_fu_bound(s: Seq<Tile>)
    ensures
        tiles_fu(s) <= s.len() * 0x8000_0009,
    decreases s.len(),
{
    if s.len() > 0 {
        lemma_tiles_fu_bound(s.drop_last());
        assert(tile_score_fu(s.last()) <= 0x8000_0009);
    }
}

proof fn lemma_melds_half_fan_bound(ms: Seq<crate::models::hand::Meld>)
    ensures
        melds_half_fan(ms) <= 4 * ms.len(),
    decreases ms.len(),
{
    if ms.len() > 0 {
        lemma_melds_half_fan_bound(ms.drop_last());
    }
}

/// A play of at most 12 melds and 38 tiles has fu and structure fan that
/// fit in a `u64`.
pub proof fn lemma_play_tally_bounds(p: Play)
    requires
        p.melds@.len() <= 12,
        p.tiles_seq().len() <= 38,
    ensures
        tiles_fu(p.tiles_seq()) <= u64::MAX,
        2 + melds_half_fan(p.melds@) <= u64::MAX,
{
    lemma_tiles_fu_bound(p.tiles_seq());
    lemma_melds_half_fan_bound(p.melds@);
    assert(p.tiles_seq().len() * 0x8000_0009 <= 38 * 0x8000_0009) by (nonlinear_arith)
        requires
            p.tiles_seq().len() <= 38,
    ;
}

/// What `tally_score` reports for a play, given the artifacts in order.
pub open spec fn tally_of(t: ScoreTally, play: Play, artifacts: Seq<Artifact>) -> bool {
    let s = play.tiles_seq();
    let ys = reported_yaku(s);
    &&& t.tile_fu == tiles_fu(s)
    &&& t.artifact_fu == artifacts_fu(artifacts)
    &&& t.structure_half_fan == 2 + melds_half_fan(play.melds@)
    &&& t.patterns@.len() == ys.len()
    &&& forall|i: int| 0 <= i < ys.len() ==> describes(#[trigger] t.patterns@[i], ys[i])
    &&& t.pattern_fan == yaku_fan_sum(ys)
    &&& t.fired@.len() == artifacts.len()
    &&& forall|i: int|
        0 <= i < artifacts.len() ==> #[trigger] t.fired@[i] == artifact_fires(
            artifacts[i].effect,
            play,
            s,
            ys,
        )
}

/// Scores the integer side of a play: tile fu (intrinsic fu plus positive
/// fu buffs), structure fan (base 1, triplet +1, quad +2, sequence +0.5,
/// in halves), the patterns of the play's tiles and their fan, the fu
/// that artifacts add, and which artifacts take effect.
pub fn tally_score(
    play: &Play,
    artifacts: &[Artifact],
    all_played_tiles: &[Tile],
    hand_tiles: &[Tile],
) -> (t: ScoreTally)
    requires
        tiles_fu(play.tiles_seq()) <= u64::MAX,
        artifacts_fu(artifacts@) <= u64::MAX,
        2 + melds_half_fan(play.melds@) <= u64::MAX,
    ensures
        tally_of(t, *play, artifacts@),
{
    let refs = play.all_tiles();
    let mut tiles: Vec<Tile> = Vec::new();
    let mut k: usize = 0;
    while k < refs.len()
        invariant
            k <= refs@.len(),
            refs@.len() == play.tiles_seq().len(),
            forall|i: int| 0 <= i < refs@.len() ==> *#[trigger] refs@[i] == play.tiles_seq()[i],
            tiles@ =~= play.tiles_seq().take(k as int),
        decreases refs@.len() - k,
    {
        tiles.push(*refs[k]);
        k = k + 1;
    }
    assert(tiles@ =~= play.tiles_seq());
    let ghost s = tiles@;

    // Tile fu
    let mut tile_fu: u64 = 0;
    let mut i: usize = 0;
    while i < tiles.len()
        invariant
            s == tiles@,
            i <= s.len(),
            tile_fu == tiles_fu(s.take(i as int)),
            tiles_fu(s) <= u64::MAX,
        decreases s.len() - i,
    {
        proof {
            assert(s.take(i + 1).drop_last() =~= s.take(i as int));
            lemma_tiles_fu_prefix(s, i + 1);
        }
        let t = tiles[i];
        let base = t.base_fu();
        let buff: u64 = if t.buff_fu > 0 {
            t.buff_fu as u64
        } else {
            0
        };
        tile_fu = tile_fu + base + buff;
        i = i + 1;
    }
    assert(s.take(i as int) =~= s);

    // Meld structure fan, in halves
    let mut half_fan: u64 = 2;
    let mut m: usize = 0;
    while m < play.melds.len()
        invariant
            m <= play.melds@.len(),
            half_fan == 2 + melds_half_fan(play.melds@.take(m as int)),
            2 + melds_half_fan(play.melds@) <= u64::MAX,
        decreases play.melds@.len() - m,
    {
        proof {
            assert(play.melds@.take(m + 1).drop_last() =~= play.melds@.take(m as int));
            lemma_melds_half_fan_prefix(play.melds@, m + 1);
        }
        let bonus: u64 = match play.melds[m].kind {
            MeldKind::Pon => 2,
            MeldKind::Kan => 4,
            MeldKind::Chi => 1,
            MeldKind::Pair => 0,
        };
        half_fan = half_fan + bonus;
        m = m + 1;
    }
    assert(play.melds@.take(m as int) =~= play.melds@);

    // Patterns
    let patterns = check_patterns(tiles.as_slice(), all_played_tiles, hand_tiles);
    let ghost ys = reported_yaku(s);
    proof {
        lemma_reported_len(s);
    }
    let mut pattern_fan: u64 = 0;
    let mut p: usize = 0;
    while p < patterns.len()
        invariant
            p <= patterns@.len(),
            patterns@.len() == ys.len(),
            ys.len() <= 180,
            forall|j: int| 0 <= j < ys.len() ==> describes(#[trigger] patterns@[j], ys[j]),
            pattern_fan == yaku_fan_sum(ys.take(p as int)),
        decreases patterns@.len() - p,
    {
        proof {
            assert(ys.take(p + 1).drop_last() =~= ys.take(p as int));
            lemma_yaku_fan_sum_bound(ys.take(p as int));
            assert(describes(patterns@[p as int], ys[p as int]));
        }
        pattern_fan = pattern_fan + patterns[p].base_fan as u64;
        p = p + 1;
    }
    assert(ys.take(p as int) =~= ys);

    // Artifacts
    let mut artifact_fu: u64 = 0;
    let mut fired: Vec<bool> = Vec::new();
    let mut a: usize = 0;
    while a < artifacts.len()
        invariant
            s == tiles@,
            s == play.tiles_seq(),
            a <= artifacts@.len(),
            artifacts_fu(artifacts@) <= u64::MAX,
            artifact_fu == artifacts_fu(artifacts@.take(a as int)),
            patterns@.len() == ys.len(),
            forall|j: int| 0 <= j < ys.len() ==> describes(#[trigger] patterns@[j], ys[j]),
            fired@.len() == a,
            forall|j: int|
                0 <= j < a ==> #[trigger] fired@[j] == artifact_fires(
                    artifacts@[j].effect,
                    *play,
                    s,
                    ys,
                ),
        decreases artifacts@.len() - a,
    {
        proof {
            assert(artifacts@.take(a + 1).drop_last() =~= artifacts@.take(a as int));
            lemma_artifacts_fu_prefix(artifacts@, a + 1);
        }
        let applies = match &artifacts[a].effect {
            ArtifactEffect::AddFu(v) => {
                artifact_fu = artifact_fu + *v;
                true
            },
            ArtifactEffect::ScalingAddFu { per_round: _, current } => {
                artifact_fu = artifact_fu + *current;
                true
            },
            ArtifactEffect::ConditionalAddFan { condition, value: _ } => {
                evaluate_condition(condition, play, tiles.as_slice(), hand_tiles)
            },
            ArtifactEffect::PatternBonus { pattern_id, bonus: _ } => {
                let mut found = false;
                let mut j: usize = 0;
                while j < patterns.len()
                    invariant
                        j <= patterns@.len(),
                        patterns@.len() == ys.len(),
                        forall|q: int| 0 <= q < ys.len() ==> describes(#[trigger] patterns@[q], ys[q]),
                        found == exists|q: int|
                            0 <= q < j && yaku_id(#[trigger] ys[q]) == pattern_id@,
                    decreases patterns@.len() - j,
                {
                    let ghost here = yaku_id(ys[j as int]);
                    assert(describes(patterns@[j as int], ys[j as int]));
                    if patterns[j].pattern_id == *pattern_id {
                        found = true;
                    }
                    j = j + 1;
                }
                found
            },
            _ => true,
        };
        fired.push(applies);
        a = a + 1;
    }
    assert(artifacts@.take(a as int) =~= artifacts@);
    ScoreTally {
        tile_fu,
        artifact_fu,
        structure_half_fan: half_fan,
        patterns,
        pattern_fan,
        fired,
    }
}

/// Adding an artifact that adds fu raises the play's fu by its amount and
/// changes nothing else of the tally: the tile fu, the structure fan and
/// the patterns stay, and the artifacts before it take effect as before.
pub proof fn law_add_fu_artifact(play: Play, arts: Seq<Artifact>, extra: Artifact, v: u64, t1: ScoreTally, t2: ScoreTally)
    requires
        extra.effect == ArtifactEffect::AddFu(v),
        tally_of(t1, play, arts),
        tally_of(t2, play, arts.push(extra)),
    ensures
        t2.artifact_fu == t1.artifact_fu + v,
        t2.tile_fu == t1.tile_fu,
        t2.structure_half_fan == t1.structure_half_fan,
        t2.pattern_fan == t1.pattern_fan,
        t2.fired@ == t1.fired@.push(true),
{
    assert(arts.push(extra).drop_last() =~= arts);
    assert(t2.fired@ =~= t1.fired@.push(true)) by {
        assert forall|i: int| 0 <= i < arts.len() implies t2.fired@[i] == t1.fired@[i] by {
            assert(arts.push(extra)[i] == arts[i]);
        }
        assert(arts.push(extra)[arts.len() as int] == extra);
    }
}

/// How many melds of `ms` are of kind `k`.
pub open spec fn kind_count(ms: Seq<crate::models::hand::Meld>, k: MeldKind) -> nat
    decreases ms.len(),
{
    if ms.len() == 0 {
        0
    } else {
        kind_count(ms.drop_last(), k) + if ms.last().kind == k {
            1nat
        } else {
            0nat
        }
    }
}

proof fn lemma_half_fan_by_kind(ms: Seq<crate::models::hand::Meld>)
    ensures
        melds_half_fan(ms) == 2 * kind_count(ms, MeldKind::Pon) + 4 * kind_count(ms, MeldKind::Kan)
            + kind_count(ms, MeldKind::Chi),
    decreases ms.len(),
{
    if ms.len() > 0 {
        lemma_half_fan_by_kind(ms.drop_last());
    }
}

/// The structure fan of a play, counted in halves: a base of 1 fan (2),
/// plus 1 fan (2) per triplet, 2 fan (4) per quad, half a fan (1) per
/// sequence, and nothing for pairs.
pub proof fn law_structure_fan(t: ScoreTally, play: Play, artifacts: Seq<Artifact>)
    requires
        tally_of(t, play, artifacts),
    ensures
        t.structure_half_fan == 2 + 2 * kind_count(play.melds@, MeldKind::Pon) + 4 * kind_count(
            play.melds@,
            MeldKind::Kan,
        ) + kind_count(play.melds@, MeldKind::Chi),
{
    lemma_half_fan_by_kind(play.melds@);
}

} // verus!
