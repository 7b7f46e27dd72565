//! Pattern (yaku) detection over the tiles of a play.

use vstd::prelude::*;

use crate::models::faces::{count_face, face_count, has_face, lemma_face_count_bounds, shows};
use crate::models::hand::{orphan_face, seven_pairs, thirteen_orphans};
use crate::models::pattern::{
    describes, pattern_match_of, yaku_base_fan, yaku_fan, yaku_id, yaku_well_formed,
    PatternMatch, Yaku,
};
use crate::models::tile::{face_exists, is_numbered_suit, numbered, Tile, TileSuit};
use crate::text::{decimal, digit_char};

verus! {

// ---------------------------------------------------------------------------
// Faces of a set of tiles
// ---------------------------------------------------------------------------

/// The distinct faces of `s`, in the order they first appear.
pub open spec fn face_table(s: Seq<Tile>) -> Seq<(TileSuit, u8)>
    decreases s.len(),
{
    if s.len() == 0 {
        seq![]
    } else {
        let t = face_table(s.drop_last());
        if has_face(s.drop_last(), s.last().suit, s.last().rank) {
            t
        } else {
            t.push((s.last().suit, s.last().rank))
        }
    }
}

/// How many faces of `tab` satisfy `p`.
pub open spec fn count_where(tab: Seq<(TileSuit, u8)>, p: spec_fn(TileSuit, u8) -> bool) -> nat
    decreases tab.len(),
{
    if tab.len() == 0 {
        0
    } else {
        count_where(tab.drop_last(), p) + if p(tab.last().0, tab.last().1) {
            1nat
        } else {
            0nat
        }
    }
}

/// Some face of `tab` satisfies `p`.
pub open spec fn some_face(tab: Seq<(TileSuit, u8)>, p: spec_fn(TileSuit, u8) -> bool) -> bool {
    exists|k: int| 0 <= k < tab.len() && p(#[trigger] tab[k].0, tab[k].1)
}

/// `freq` lists each distinct face of `s` (in order of first appearance)
/// with the number of tiles that show it.
pub open spec fn freq_of(freq: Seq<(TileSuit, u8, usize)>, s: Seq<Tile>) -> bool {
    &&& freq.len() == face_table(s).len()
    &&& forall|k: int|
        0 <= k < freq.len() ==> (#[trigger] freq[k]).0 == face_table(s)[k].0 && freq[k].1
            == face_table(s)[k].1 && freq[k].2 == face_count(s, freq[k].0, freq[k].1)
}

/// Builds the face/count table of `tiles`.
pub fn build_freq(tiles: &[Tile]) -> (freq: Vec<(TileSuit, u8, usize)>)
    ensures
        freq_of(freq@, tiles@),
{
    let ghost s = tiles@;
    let mut freq: Vec<(TileSuit, u8, usize)> = Vec::new();
    let mut i: usize = 0;
    while i < tiles.len()
        invariant
            s == tiles@,
            i <= s.len(),
            freq@.len() == face_table(s.take(i as int)).len(),
            forall|k: int|
                0 <= k < freq@.len() ==> (#[trigger] freq@[k]).0 == face_table(s.take(i as int))[k].0
                    && freq@[k].1 == face_table(s.take(i as int))[k].1 && freq@[k].2 == face_count(
                    s,
                    freq@[k].0,
                    freq@[k].1,
                ),
        decreases s.len() - i,
    {
        let t = tiles[i];
        let mut seen = false;
        let mut j: usize = 0;
        while j < i
            invariant
                s == tiles@,
                i < s.len(),
                j <= i,
                t == s[i as int],
                seen == exists|j2: int| 0 <= j2 < j && #[trigger] shows(s[j2], t.suit, t.rank),
            decreases i - j,
        {
            let ghost here = shows(s[j as int], t.suit, t.rank);
            if tiles[j].suit == t.suit && tiles[j].rank == t.rank {
                seen = true;
            }
            j = j + 1;
        }
        proof {
            let p = s.take(i as int);
            assert(s.take(i + 1).drop_last() =~= p);
            assert(s.take(i + 1).last() == t);
            if seen {
                let j2 = choose|j2: int| 0 <= j2 < i && #[trigger] shows(s[j2], t.suit, t.rank);
                assert(shows(p[j2], t.suit, t.rank));
            }
            if has_face(p, t.suit, t.rank) {
                let j2 = choose|j2: int| 0 <= j2 < p.len() && #[trigger] shows(p[j2], t.suit, t.rank);
                assert(shows(s[j2], t.suit, t.rank));
            }
        }
        if !seen {
            let c = count_face(tiles, t.suit, t.rank);
            freq.push((t.suit, t.rank, c));
        }
        i = i + 1;
    }
    assert(s.take(i as int) =~= s);
    freq
}

proof fn lemma_count_where_step(tab: Seq<(TileSuit, u8)>, p: spec_fn(TileSuit, u8) -> bool, k: int)
    requires
        0 <= k < tab.len(),
    ensures
        count_where(tab.take(k + 1), p) == count_where(tab.take(k), p) + if p(tab[k].0, tab[k].1) {
            1nat
        } else {
            0nat
        },
        count_where(tab.take(k), p) <= k,
{
    assert(tab.take(k + 1).drop_last() =~= tab.take(k));
    lemma_count_where_le(tab.take(k), p);
}

proof fn lemma_count_where_le(tab: Seq<(TileSuit, u8)>, p: spec_fn(TileSuit, u8) -> bool)
    ensures
        count_where(tab, p) <= tab.len(),
    decreases tab.len(),
{
    if tab.len() > 0 {
        lemma_count_where_le(tab.drop_last(), p);
    }
}

// ---------------------------------------------------------------------------
// What each pattern asks of the tiles
// ---------------------------------------------------------------------------

pub open spec fn when(c: bool, y: Yaku) -> Seq<Yaku> {
    if c {
        seq![y]
    } else {
        seq![]
    }
}

pub open spec fn all_simple(s: Seq<Tile>) -> bool {
    forall|i: int| 0 <= i < s.len() ==> (#[trigger] s[i]).simple()
}

pub open spec fn all_terminal_or_honor(s: Seq<Tile>) -> bool {
    forall|i: int| 0 <= i < s.len() ==> (#[trigger] s[i]).terminal_or_honor()
}

pub open spec fn all_honor(s: Seq<Tile>) -> bool {
    forall|i: int| 0 <= i < s.len() ==> !numbered((#[trigger] s[i]).suit)
}

pub open spec fn all_numbered_terminal(s: Seq<Tile>) -> bool {
    forall|i: int|
        0 <= i < s.len() ==> numbered((#[trigger] s[i]).suit) && (s[i].rank == 1 || s[i].rank == 9)
}

/// Green tiles: 2, 3, 4, 6, 8 of Souzu, and the green dragon.
pub open spec fn green(t: Tile) -> bool {
    (t.suit == TileSuit::Souzu && (t.rank == 2 || t.rank == 3 || t.rank == 4 || t.rank == 6
        || t.rank == 8)) || (t.suit == TileSuit::Dragon && t.rank == 2)
}

pub open spec fn all_green(s: Seq<Tile>) -> bool {
    forall|i: int| 0 <= i < s.len() ==> green(#[trigger] s[i])
}

pub open spec fn has_honor_tile(s: Seq<Tile>) -> bool {
    exists|i: int| 0 <= i < s.len() && !numbered((#[trigger] s[i]).suit)
}

pub open spec fn has_suit(s: Seq<Tile>, suit: TileSuit) -> bool {
    exists|i: int| 0 <= i < s.len() && (#[trigger] s[i]).suit == suit
}

/// What remains of a face once a triplet is taken from it (if it has one).
pub open spec fn leftover(s: Seq<Tile>, suit: TileSuit, rank: u8) -> nat {
    let c = face_count(s, suit, rank);
    if c >= 3 {
        (c - 3) as nat
    } else {
        c
    }
}

/// The face starts a run of three faces that all have tiles left once
/// every face's triplet is taken.
pub open spec fn run_left(s: Seq<Tile>) -> spec_fn(TileSuit, u8) -> bool {
    |suit: TileSuit, rank: u8|
        numbered(suit) && rank <= 7 && leftover(s, suit, rank) > 0 && leftover(
            s,
            suit,
            (rank + 1) as u8,
        ) > 0 && leftover(s, suit, (rank + 2) as u8) > 0
}

pub open spec fn at_least(s: Seq<Tile>, n: nat) -> spec_fn(TileSuit, u8) -> bool {
    |suit: TileSuit, rank: u8| face_count(s, suit, rank) >= n
}

/// All triplets: at least 5 tiles, some face has a triplet, and no run of
/// three faces is left once the triplets are taken.
pub open spec fn toitoi(s: Seq<Tile>) -> bool {
    &&& s.len() >= 5
    &&& !some_face(face_table(s), run_left(s))
    &&& some_face(face_table(s), at_least(s, 3))
}

pub open spec fn run_of(s: Seq<Tile>, suit: TileSuit, rank: u8) -> bool {
    face_count(s, suit, rank) > 0 && face_count(s, suit, (rank + 1) as u8) > 0 && face_count(
        s,
        suit,
        (rank + 2) as u8,
    ) > 0
}

/// The same run in all three numbered suits.
pub open spec fn sanshoku(s: Seq<Tile>) -> bool {
    exists|rank: u8|
        1 <= rank <= 7 && #[trigger] run_of(s, TileSuit::Manzu, rank) && run_of(
            s,
            TileSuit::Pinzu,
            rank,
        ) && run_of(s, TileSuit::Souzu, rank)
}

pub open spec fn full_straight(s: Seq<Tile>, suit: TileSuit) -> bool {
    forall|rank: u8| 1 <= rank <= 9 ==> face_count(s, suit, rank) > 0
}

pub open spec fn ittsu(s: Seq<Tile>) -> bool {
    full_straight(s, TileSuit::Manzu) || full_straight(s, TileSuit::Pinzu) || full_straight(
        s,
        TileSuit::Souzu,
    )
}

pub open spec fn common_yaku(s: Seq<Tile>) -> Seq<Yaku> {
    when(all_simple(s), Yaku::Tanyao) + when(s.len() > 0 && all_terminal_or_honor(s), Yaku::Chanta)
        + when(toitoi(s), Yaku::Toitoi) + when(sanshoku(s), Yaku::Sanshoku) + when(
        ittsu(s),
        Yaku::Ittsu,
    ) + when(seven_pairs(s), Yaku::Chiitoitsu)
}

/// Tiles of exactly one numbered suit.
pub open spec fn one_numbered_suit(s: Seq<Tile>) -> bool {
    let m = has_suit(s, TileSuit::Manzu);
    let p = has_suit(s, TileSuit::Pinzu);
    let so = has_suit(s, TileSuit::Souzu);
    (m && !p && !so) || (!m && p && !so) || (!m && !p && so)
}

pub open spec fn suit_yaku(s: Seq<Tile>) -> Seq<Yaku> {
    when(has_honor_tile(s) && one_numbered_suit(s), Yaku::Honitsu) + when(
        !has_honor_tile(s) && one_numbered_suit(s),
        Yaku::Chinitsu,
    ) + when(s.len() > 0 && all_green(s), Yaku::Ryuuiisou)
}

pub open spec fn triplet_of_suit(s: Seq<Tile>, of: TileSuit) -> spec_fn(TileSuit, u8) -> bool {
    |suit: TileSuit, rank: u8| suit == of && face_count(s, suit, rank) >= 3
}

/// Number of distinct dragon (or wind) faces with at least three tiles.
pub open spec fn pons_of_suit(s: Seq<Tile>, suit: TileSuit) -> nat {
    count_where(face_table(s), triplet_of_suit(s, suit))
}

/// Dragon triplets (ranks 1-3), then wind triplets (ranks 1-4).
#[verifier::opaque]
pub open spec fn value_triplet_yaku(s: Seq<Tile>) -> Seq<Yaku> {
    when(face_count(s, TileSuit::Dragon, 1) >= 3, Yaku::DragonPon(1)) + when(
        face_count(s, TileSuit::Dragon, 2) >= 3,
        Yaku::DragonPon(2),
    ) + when(face_count(s, TileSuit::Dragon, 3) >= 3, Yaku::DragonPon(3)) + when(
        face_count(s, TileSuit::Wind, 1) >= 3,
        Yaku::WindPon(1),
    ) + when(face_count(s, TileSuit::Wind, 2) >= 3, Yaku::WindPon(2)) + when(
        face_count(s, TileSuit::Wind, 3) >= 3,
        Yaku::WindPon(3),
    ) + when(face_count(s, TileSuit::Wind, 4) >= 3, Yaku::WindPon(4))
}

/// Three dragons and four winds, little and big.
#[verifier::opaque]
pub open spec fn honor_set_yaku(s: Seq<Tile>) -> Seq<Yaku> {
    let dragon_pons = pons_of_suit(s, TileSuit::Dragon);
    let wind_pons = pons_of_suit(s, TileSuit::Wind);
    let dragon_pair = face_count(s, TileSuit::Dragon, 1) == 2 || face_count(s, TileSuit::Dragon, 2)
        == 2 || face_count(s, TileSuit::Dragon, 3) == 2;
    let wind_pair = face_count(s, TileSuit::Wind, 1) == 2 || face_count(s, TileSuit::Wind, 2) == 2
        || face_count(s, TileSuit::Wind, 3) == 2 || face_count(s, TileSuit::Wind, 4) == 2;
    when(dragon_pons >= 2 && dragon_pair, Yaku::Shousangen) + when(
        dragon_pons >= 3,
        Yaku::Daisangen,
    ) + when(wind_pons >= 3 && wind_pair, Yaku::Shousuushii) + when(wind_pons >= 4, Yaku::Daisuushii)
}

/// All honors, all terminals, terminals and honors.
#[verifier::opaque]
pub open spec fn honor_tiles_yaku(s: Seq<Tile>) -> Seq<Yaku> {
    when(s.len() > 0 && all_honor(s), Yaku::Tsuuiisou) + when(
        s.len() > 0 && all_numbered_terminal(s),
        Yaku::Chinroutou,
    ) + when(s.len() > 0 && all_terminal_or_honor(s) && has_honor_tile(s), Yaku::Honroutou)
}

pub open spec fn honor_yaku(s: Seq<Tile>) -> Seq<Yaku> {
    value_triplet_yaku(s) + honor_set_yaku(s) + honor_tiles_yaku(s)
}

/// Nine gates base counts: three 1s, one each of 2-8, three 9s.
pub open spec fn nine_gates_base(rank: u8) -> nat {
    if rank == 1 || rank == 9 {
        3
    } else {
        1
    }
}

/// Every tile is of `suit`, and removing one tile of some rank 1-9 leaves
/// exactly 1112345678999.
pub open spec fn nine_gates(s: Seq<Tile>, suit: TileSuit) -> bool {
    &&& forall|i: int| 0 <= i < s.len() ==> (#[trigger] s[i]).suit == suit
    &&& exists|extra: u8|
        1 <= extra <= 9 && face_count(s, suit, extra) > 0 && #[trigger] nine_gates_after(
            s,
            suit,
            extra,
        )
}

pub open spec fn nine_gates_after(s: Seq<Tile>, suit: TileSuit, extra: u8) -> bool {
    forall|rank: u8| 1 <= rank <= 9 ==> #[trigger] gate_rank_ok(s, suit, extra, rank)
}

/// With one tile of rank `extra` taken away, rank `rank` has its base count.
pub open spec fn gate_rank_ok(s: Seq<Tile>, suit: TileSuit, extra: u8, rank: u8) -> bool {
    face_count(s, suit, rank) - (if rank == extra {
        1int
    } else {
        0int
    }) == nine_gates_base(rank)
}

/// A face that starts the same run twice over (two tiles of each of three
/// consecutive faces).
pub open spec fn double_run(s: Seq<Tile>) -> spec_fn(TileSuit, u8) -> bool {
    |suit: TileSuit, rank: u8|
        numbered(suit) && rank <= 7 && face_count(s, suit, rank) >= 2 && face_count(
            s,
            suit,
            (rank + 1) as u8,
        ) >= 2 && face_count(s, suit, (rank + 2) as u8) >= 2
}

pub open spec fn special_yaku(s: Seq<Tile>) -> Seq<Yaku> {
    let pon_count = count_where(face_table(s), at_least(s, 3));
    let kan_count = count_where(face_table(s), at_least(s, 4));
    let peikou = count_where(face_table(s), double_run(s));
    when(thirteen_orphans(s), Yaku::Kokushi) + when(pon_count >= 4, Yaku::Suuankou) + when(
        pon_count == 3,
        Yaku::Sanankou,
    ) + when(kan_count >= 4, Yaku::Suukantsu) + when(kan_count == 3, Yaku::Sankantsu) + when(
        s.len() >= 14 && (nine_gates(s, TileSuit::Manzu) || nine_gates(s, TileSuit::Pinzu)
            || nine_gates(s, TileSuit::Souzu)),
        Yaku::Chuuren,
    ) + if peikou >= 2 {
        seq![Yaku::Ryanpeikou]
    } else if peikou == 1 {
        seq![Yaku::Iipeikou]
    } else {
        seq![]
    }
}

/// Every pattern found, in the order the checks run.
pub open spec fn found_yaku(s: Seq<Tile>) -> Seq<Yaku> {
    common_yaku(s) + suit_yaku(s) + honor_yaku(s) + special_yaku(s)
}

/// The patterns of `ys` with fan `f`, in order.
pub open spec fn with_fan(ys: Seq<Yaku>, f: u32) -> Seq<Yaku>
    decreases ys.len(),
{
    if ys.len() == 0 {
        seq![]
    } else if yaku_fan(ys.last()) == f {
        with_fan(ys.drop_last(), f).push(ys.last())
    } else {
        with_fan(ys.drop_last(), f)
    }
}

/// The fan levels patterns have, highest first.
pub open spec fn fan_levels() -> Seq<u32> {
    seq![13u32, 6u32, 4u32, 3u32, 2u32, 1u32]
}

/// `ys` sorted by decreasing fan, keeping the order of patterns with
/// equal fan (every pattern's fan is one of `fan_levels`).
pub open spec fn by_fan_desc(ys: Seq<Yaku>) -> Seq<Yaku> {
    with_fan(ys, 13) + with_fan(ys, 6) + with_fan(ys, 4) + with_fan(ys, 3) + with_fan(ys, 2)
        + with_fan(ys, 1)
}

/// `ys` with every pattern dropped whose id equals that of the pattern
/// kept just before it.
pub open spec fn dedup_by_id(ys: Seq<Yaku>) -> Seq<Yaku>
    decreases ys.len(),
{
    if ys.len() == 0 {
        seq![]
    } else {
        let prev = dedup_by_id(ys.drop_last());
        if prev.len() > 0 && yaku_id(prev.last()) == yaku_id(ys.last()) {
            prev
        } else {
            prev.push(ys.last())
        }
    }
}

/// The patterns `check_patterns` reports for a play: all patterns found,
/// highest fan first, without repeated ids.
pub open spec fn reported_yaku(s: Seq<Tile>) -> Seq<Yaku> {
    dedup_by_id(by_fan_desc(found_yaku(s)))
}

// ---------------------------------------------------------------------------
// Checks over the tiles
// ---------------------------------------------------------------------------

pub open spec fn all_well_formed(ys: Seq<Yaku>) -> bool {
    forall|i: int| 0 <= i < ys.len() ==> yaku_well_formed(#[trigger] ys[i])
}

fn push_when(v: &mut Vec<Yaku>, c: bool, y: Yaku)
    requires
        all_well_formed(old(v)@),
        yaku_well_formed(y),
    ensures
        final(v)@ == old(v)@ + when(c, y),
        all_well_formed(final(v)@),
{
    if c {
        v.push(y);
    }
    proof {
        assert(final(v)@ =~= old(v)@ + when(c, y));
    }
}

fn all_tiles_simple(tiles: &[Tile]) -> (b: bool)
    ensures
        b == all_simple(tiles@),
{
    let mut i: usize = 0;
    while i < tiles.len()
        invariant
            i <= tiles@.len(),
            forall|j: int| 0 <= j < i ==> (#[trigger] tiles@[j]).simple(),
        decreases tiles@.len() - i,
    {
        if !tiles[i].is_simple() {
            return false;
        }
        i = i + 1;
    }
    true
}

fn all_tiles_terminal_or_honor(tiles: &[Tile]) -> (b: bool)
    ensures
        b == all_terminal_or_honor(tiles@),
{
    let mut i: usize = 0;
    while i < tiles.len()
        invariant
            i <= tiles@.len(),
            forall|j: int| 0 <= j < i ==> (#[trigger] tiles@[j]).terminal_or_honor(),
        decreases tiles@.len() - i,
    {
        if !tiles[i].is_terminal_or_honor() {
            return false;
        }
        i = i + 1;
    }
    true
}

fn all_tiles_honor(tiles: &[Tile]) -> (b: bool)
    ensures
        b == all_honor(tiles@),
{
    let mut i: usize = 0;
    while i < tiles.len()
        invariant
            i <= tiles@.len(),
            forall|j: int| 0 <= j < i ==> !numbered((#[trigger] tiles@[j]).suit),
        decreases tiles@.len() - i,
    {
        if is_numbered_suit(tiles[i].suit) {
            return false;
        }
        i = i + 1;
    }
    true
}

fn all_tiles_numbered_terminal(tiles: &[Tile]) -> (b: bool)
    ensures
        b == all_numbered_terminal(tiles@),
{
    let mut i: usize = 0;
    while i < tiles.len()
        invariant
            i <= tiles@.len(),
            forall|j: int|
                0 <= j < i ==> numbered((#[trigger] tiles@[j]).suit) && (tiles@[j].rank == 1
                    || tiles@[j].rank == 9),
        decreases tiles@.len() - i,
    {
        if !(is_numbered_suit(tiles[i].suit) && (tiles[i].rank == 1 || tiles[i].rank == 9)) {
            return false;
        }
        i = i + 1;
    }
    true
}

fn all_tiles_green(tiles: &[Tile]) -> (b: bool)
    ensures
        b == all_green(tiles@),
{
    let mut i: usize = 0;
    while i < tiles.len()
        invariant
            i <= tiles@.len(),
            forall|j: int| 0 <= j < i ==> green(#[trigger] tiles@[j]),
        decreases tiles@.len() - i,
    {
        let t = tiles[i];
        let is_green = (t.suit == TileSuit::Souzu && (t.rank == 2 || t.rank == 3 || t.rank == 4
            || t.rank == 6 || t.rank == 8)) || (t.suit == TileSuit::Dragon && t.rank == 2);
        if !is_green {
            return false;
        }
        i = i + 1;
    }
    true
}

/// Whether some tile is a wind or a dragon.
pub fn has_honor(tiles: &[Tile]) -> (b: bool)
    ensures
        b == has_honor_tile(tiles@),
{
    let mut i: usize = 0;
    while i < tiles.len()
        invariant
            i <= tiles@.len(),
            forall|j: int| 0 <= j < i ==> numbered((#[trigger] tiles@[j]).suit),
        decreases tiles@.len() - i,
    {
        if !is_numbered_suit(tiles[i].suit) {
            return true;
        }
        i = i + 1;
    }
    false
}

fn any_of_suit(tiles: &[Tile], suit: TileSuit) -> (b: bool)
    ensures
        b == has_suit(tiles@, suit),
{
    let mut i: usize = 0;
    while i < tiles.len()
        invariant
            i <= tiles@.len(),
            forall|j: int| 0 <= j < i ==> (#[trigger] tiles@[j]).suit != suit,
        decreases tiles@.len() - i,
    {
        if tiles[i].suit == suit {
            return true;
        }
        i = i + 1;
    }
    false
}

fn leftover_of(tiles: &[Tile], suit: TileSuit, rank: u8) -> (n: usize)
    ensures
        n == leftover(tiles@, suit, rank),
{
    let c = count_face(tiles, suit, rank);
    if c >= 3 {
        c - 3
    } else {
        c
    }
}

fn has_run(tiles: &[Tile], suit: TileSuit, rank: u8) -> (b: bool)
    requires
        rank <= 7,
    ensures
        b == run_of(tiles@, suit, rank),
{
    count_face(tiles, suit, rank) > 0 && count_face(tiles, suit, rank + 1) > 0 && count_face(
        tiles,
        suit,
        rank + 2,
    ) > 0
}

fn has_sanshoku(tiles: &[Tile]) -> (b: bool)
    ensures
        b == sanshoku(tiles@),
{
    let mut rank: u8 = 1;
    while rank <= 7
        invariant
            1 <= rank <= 8,
            forall|r: u8|
                1 <= r < rank ==> !(#[trigger] run_of(tiles@, TileSuit::Manzu, r) && run_of(
                    tiles@,
                    TileSuit::Pinzu,
                    r,
                ) && run_of(tiles@, TileSuit::Souzu, r)),
        decreases 8 - rank,
    {
        if has_run(tiles, TileSuit::Manzu, rank) && has_run(tiles, TileSuit::Pinzu, rank) && has_run(
            tiles,
            TileSuit::Souzu,
            rank,
        ) {
            return true;
        }
        rank = rank + 1;
    }
    false
}

fn has_full_straight(tiles: &[Tile], suit: TileSuit) -> (b: bool)
    ensures
        b == full_straight(tiles@, suit),
{
    let mut rank: u8 = 1;
    while rank <= 9
        invariant
            1 <= rank <= 10,
            forall|r: u8| 1 <= r < rank ==> face_count(tiles@, suit, r) > 0,
        decreases 10 - rank,
    {
        if count_face(tiles, suit, rank) == 0 {
            return false;
        }
        rank = rank + 1;
    }
    true
}

/// All simples, all terminals and honors, all triplets, the same run in
/// the three suits, a full straight, seven pairs.
fn check_common_patterns(
    freq: &Vec<(TileSuit, u8, usize)>,
    tiles: &[Tile],
    matches: &mut Vec<Yaku>,
)
    requires
        freq_of(freq@, tiles@),
        all_well_formed(old(matches)@),
    ensures
        final(matches)@ == old(matches)@ + common_yaku(tiles@),
        all_well_formed(final(matches)@),
{
    let ghost s = tiles@;
    let ghost tab = face_table(s);
    let mut found: Vec<Yaku> = Vec::new();
    push_when(&mut found, all_tiles_simple(tiles), Yaku::Tanyao);
    push_when(&mut found, tiles.len() > 0 && all_tiles_terminal_or_honor(tiles), Yaku::Chanta);

    let mut has_chi = false;
    let mut has_triplet = false;
    let mut k: usize = 0;
    while k < freq.len()
        invariant
            s == tiles@,
            tab == face_table(s),
            freq_of(freq@, s),
            k <= freq@.len(),
            has_chi == exists|k2: int| 0 <= k2 < k && (run_left(s))(#[trigger] tab[k2].0, tab[k2].1),
            has_triplet == exists|k2: int|
                0 <= k2 < k && (at_least(s, 3))(#[trigger] tab[k2].0, tab[k2].1),
        decreases freq@.len() - k,
    {
        let (suit, rank, count) = freq[k];
        let ghost here = tab[k as int].0;
        if count >= 3 {
            has_triplet = true;
        }
        if is_numbered_suit(suit) && rank <= 7 {
            let c1 = leftover_of(tiles, suit, rank);
            let c2 = leftover_of(tiles, suit, rank + 1);
            let c3 = leftover_of(tiles, suit, rank + 2);
            if c1 > 0 && c2 > 0 && c3 > 0 {
                has_chi = true;
            }
        }
        k = k + 1;
    }
    let all_triplets = tiles.len() >= 5 && !has_chi && has_triplet;
    push_when(&mut found, all_triplets, Yaku::Toitoi);
    push_when(&mut found, has_sanshoku(tiles), Yaku::Sanshoku);
    let straight = has_full_straight(tiles, TileSuit::Manzu) || has_full_straight(
        tiles,
        TileSuit::Pinzu,
    ) || has_full_straight(tiles, TileSuit::Souzu);
    push_when(&mut found, straight, Yaku::Ittsu);
    push_when(&mut found, crate::models::hand::is_seven_pairs(tiles), Yaku::Chiitoitsu);
    assert(found@ =~= common_yaku(s));
    matches.append(&mut found);
}

/// Half flush, full flush, all green.
fn check_suit_patterns(
    freq: &Vec<(TileSuit, u8, usize)>,
    tiles: &[Tile],
    matches: &mut Vec<Yaku>,
)
    requires
        freq_of(freq@, tiles@),
        all_well_formed(old(matches)@),
    ensures
        final(matches)@ == old(matches)@ + suit_yaku(tiles@),
        all_well_formed(final(matches)@),
{
    let ghost s = tiles@;
    let has_honors = has_honor(tiles);
    let manzu = any_of_suit(tiles, TileSuit::Manzu);
    let pinzu = any_of_suit(tiles, TileSuit::Pinzu);
    let souzu = any_of_suit(tiles, TileSuit::Souzu);
    let one_suit = (manzu && !pinzu && !souzu) || (pinzu && !manzu && !souzu) || (souzu && !manzu
        && !pinzu);
    let mut found: Vec<Yaku> = Vec::new();
    push_when(&mut found, has_honors && one_suit, Yaku::Honitsu);
    push_when(&mut found, !has_honors && one_suit, Yaku::Chinitsu);
    push_when(&mut found, tiles.len() > 0 && all_tiles_green(tiles), Yaku::Ryuuiisou);
    assert(found@ =~= suit_yaku(s));
    matches.append(&mut found);
}

fn value_triplets(tiles: &[Tile]) -> (found: Vec<Yaku>)
    ensures
        found@ == value_triplet_yaku(tiles@),
        all_well_formed(found@),
{
    let mut found: Vec<Yaku> = Vec::new();
    push_when(&mut found, count_face(tiles, TileSuit::Dragon, 1) >= 3, Yaku::DragonPon(1));
    push_when(&mut found, count_face(tiles, TileSuit::Dragon, 2) >= 3, Yaku::DragonPon(2));
    push_when(&mut found, count_face(tiles, TileSuit::Dragon, 3) >= 3, Yaku::DragonPon(3));
    push_when(&mut found, count_face(tiles, TileSuit::Wind, 1) >= 3, Yaku::WindPon(1));
    push_when(&mut found, count_face(tiles, TileSuit::Wind, 2) >= 3, Yaku::WindPon(2));
    push_when(&mut found, count_face(tiles, TileSuit::Wind, 3) >= 3, Yaku::WindPon(3));
    push_when(&mut found, count_face(tiles, TileSuit::Wind, 4) >= 3, Yaku::WindPon(4));
    reveal(value_triplet_yaku);
    assert(found@ =~= value_triplet_yaku(tiles@));
    found
}

fn honor_sets(freq: &Vec<(TileSuit, u8, usize)>, tiles: &[Tile]) -> (found: Vec<Yaku>)
    requires
        freq_of(freq@, tiles@),
    ensures
        found@ == honor_set_yaku(tiles@),
        all_well_formed(found@),
{
    let ghost s = tiles@;
    let ghost tab = face_table(s);
    let mut dragon_pons: usize = 0;
    let mut wind_pons: usize = 0;
    let mut k: usize = 0;
    while k < freq.len()
        invariant
            s == tiles@,
            tab == face_table(s),
            freq_of(freq@, s),
            k <= freq@.len(),
            dragon_pons == count_where(tab.take(k as int), triplet_of_suit(s, TileSuit::Dragon)),
            wind_pons == count_where(tab.take(k as int), triplet_of_suit(s, TileSuit::Wind)),
        decreases freq@.len() - k,
    {
        proof {
            lemma_count_where_step(tab, triplet_of_suit(s, TileSuit::Dragon), k as int);
            lemma_count_where_step(tab, triplet_of_suit(s, TileSuit::Wind), k as int);
        }
        let (suit, _rank, count) = freq[k];
        if count >= 3 {
            match suit {
                TileSuit::Dragon => dragon_pons = dragon_pons + 1,
                TileSuit::Wind => wind_pons = wind_pons + 1,
                _ => {},
            }
        }
        k = k + 1;
    }
    assert(tab.take(k as int) =~= tab);
    let dragon_pair = count_face(tiles, TileSuit::Dragon, 1) == 2 || count_face(
        tiles,
        TileSuit::Dragon,
        2,
    ) == 2 || count_face(tiles, TileSuit::Dragon, 3) == 2;
    let wind_pair = count_face(tiles, TileSuit::Wind, 1) == 2 || count_face(tiles, TileSuit::Wind, 2)
        == 2 || count_face(tiles, TileSuit::Wind, 3) == 2 || count_face(tiles, TileSuit::Wind, 4)
        == 2;
    let mut found: Vec<Yaku> = Vec::new();
    push_when(&mut found, dragon_pons >= 2 && dragon_pair, Yaku::Shousangen);
    push_when(&mut found, dragon_pons >= 3, Yaku::Daisangen);
    push_when(&mut found, wind_pons >= 3 && wind_pair, Yaku::Shousuushii);
    push_when(&mut found, wind_pons >= 4, Yaku::Daisuushii);
    reveal(honor_set_yaku);
    assert(found@ =~= honor_set_yaku(s));
    found
}

fn honor_tiles(tiles: &[Tile]) -> (found: Vec<Yaku>)
    ensures
        found@ == honor_tiles_yaku(tiles@),
        all_well_formed(found@),
{
    let mut found: Vec<Yaku> = Vec::new();
    push_when(&mut found, tiles.len() > 0 && all_tiles_honor(tiles), Yaku::Tsuuiisou);
    push_when(&mut found, tiles.len() > 0 && all_tiles_numbered_terminal(tiles), Yaku::Chinroutou);
    let mixed = tiles.len() > 0 && all_tiles_terminal_or_honor(tiles) && has_honor(tiles);
    push_when(&mut found, mixed, Yaku::Honroutou);
    reveal(honor_tiles_yaku);
    assert(found@ =~= honor_tiles_yaku(tiles@));
    found
}

/// Dragon and wind triplets and the patterns built on them; all honors,
/// all terminals, terminals and honors.
fn check_honor_patterns(
    freq: &Vec<(TileSuit, u8, usize)>,
    tiles: &[Tile],
    matches: &mut Vec<Yaku>,
)
    requires
        freq_of(freq@, tiles@),
        all_well_formed(old(matches)@),
    ensures
        final(matches)@ == old(matches)@ + honor_yaku(tiles@),
        all_well_formed(final(matches)@),
{
    let ghost start = matches@;
    let mut triplets = value_triplets(tiles);
    let mut sets = honor_sets(freq, tiles);
    let mut whole = honor_tiles(tiles);
    matches.append(&mut triplets);
    matches.append(&mut sets);
    matches.append(&mut whole);
    assert(matches@ =~= start + honor_yaku(tiles@));
}

/// Nine gates in `suit`: every tile is of the suit, and taking away one
/// tile of some rank leaves 1112345678999.
fn check_nine_gates(tiles: &[Tile], suit: TileSuit) -> (b: bool)
    ensures
        b == nine_gates(tiles@, suit),
{
    let ghost s = tiles@;
    let mut i: usize = 0;
    while i < tiles.len()
        invariant
            s == tiles@,
            i <= s.len(),
            forall|j: int| 0 <= j < i ==> (#[trigger] s[j]).suit == suit,
        decreases s.len() - i,
    {
        if tiles[i].suit != suit {
            return false;
        }
        i = i + 1;
    }
    let mut extra: u8 = 1;
    while extra <= 9
        invariant
            s == tiles@,
            forall|j: int| 0 <= j < s.len() ==> (#[trigger] s[j]).suit == suit,
            1 <= extra <= 10,
            forall|e: u8|
                1 <= e < extra ==> !(face_count(s, suit, e) > 0 && #[trigger] nine_gates_after(
                    s,
                    suit,
                    e,
                )),
        decreases 10 - extra,
    {
        let count = count_face(tiles, suit, extra);
        if count > 0 {
            let mut matches_base = true;
            let mut r: u8 = 1;
            while r <= 9
                invariant
                    s == tiles@,
                    1 <= extra <= 9,
                    count == face_count(s, suit, extra),
                    count > 0,
                    1 <= r <= 10,
                    matches_base == forall|b: u8| 1 <= b < r ==> #[trigger] gate_rank_ok(s, suit, extra, b),
                decreases 10 - r,
            {
                let c = count_face(tiles, suit, r);
                let left = if r == extra {
                    c - 1
                } else {
                    c
                };
                let base: usize = if r == 1 || r == 9 {
                    3
                } else {
                    1
                };
                proof {
                    if r == extra {
                        assert(c >= 1);
                    }
                }
                assert(gate_rank_ok(s, suit, extra, r) == (left == base));
                if left != base {
                    matches_base = false;
                }
                r = r + 1;
            }
            if matches_base {
                assert(nine_gates_after(s, suit, extra));
                return true;
            }
        }
        extra = extra + 1;
    }
    false
}

/// Thirteen orphans, concealed triplets, quads, nine gates, repeated runs.
#[verifier::spinoff_prover]
#[verifier::rlimit(40)]
fn check_special_patterns(
    freq: &Vec<(TileSuit, u8, usize)>,
    tiles: &[Tile],
    all_played_tiles: &[Tile],
    matches: &mut Vec<Yaku>,
)
    requires
        freq_of(freq@, tiles@),
        all_well_formed(old(matches)@),
    ensures
        final(matches)@ == old(matches)@ + special_yaku(tiles@),
        all_well_formed(final(matches)@),
{
    let ghost s = tiles@;
    let ghost tab = face_table(s);
    let mut found: Vec<Yaku> = Vec::new();
    push_when(&mut found, crate::models::hand::is_thirteen_orphans(tiles), Yaku::Kokushi);

    let mut pon_count: usize = 0;
    let mut kan_count: usize = 0;
    let mut identical_chi_count: usize = 0;
    let mut k: usize = 0;
    while k < freq.len()
        invariant
            s == tiles@,
            tab == face_table(s),
            freq_of(freq@, s),
            k <= freq@.len(),
            pon_count == count_where(tab.take(k as int), at_least(s, 3)),
            kan_count == count_where(tab.take(k as int), at_least(s, 4)),
            identical_chi_count == count_where(tab.take(k as int), double_run(s)),
        decreases freq@.len() - k,
    {
        proof {
            lemma_count_where_step(tab, at_least(s, 3), k as int);
            lemma_count_where_step(tab, at_least(s, 4), k as int);
            lemma_count_where_step(tab, double_run(s), k as int);
        }
        let (suit, rank, count) = freq[k];
        if count >= 3 {
            pon_count = pon_count + 1;
        }
        if count >= 4 {
            kan_count = kan_count + 1;
        }
        if is_numbered_suit(suit) && rank <= 7 && count >= 2 {
            let has_next1 = count_face(tiles, suit, rank + 1) >= 2;
            let has_next2 = count_face(tiles, suit, rank + 2) >= 2;
            if has_next1 && has_next2 {
                identical_chi_count = identical_chi_count + 1;
            }
        }
        k = k + 1;
    }
    assert(tab.take(k as int) =~= tab);
    push_when(&mut found, pon_count >= 4, Yaku::Suuankou);
    push_when(&mut found, pon_count >= 3 && pon_count < 4, Yaku::Sanankou);
    push_when(&mut found, kan_count >= 4, Yaku::Suukantsu);
    push_when(&mut found, kan_count >= 3 && kan_count < 4, Yaku::Sankantsu);
    let gates = tiles.len() >= 14 && (check_nine_gates(tiles, TileSuit::Manzu) || check_nine_gates(
        tiles,
        TileSuit::Pinzu,
    ) || check_nine_gates(tiles, TileSuit::Souzu));
    push_when(&mut found, gates, Yaku::Chuuren);
    push_when(&mut found, identical_chi_count >= 2, Yaku::Ryanpeikou);
    push_when(&mut found, identical_chi_count == 1, Yaku::Iipeikou);
    assert(found@ =~= special_yaku(s));
    matches.append(&mut found);
}

/// Appends the patterns of `ys` with fan `f` to `out`, in order.
fn append_with_fan(ys: &Vec<Yaku>, f: u32, out: &mut Vec<Yaku>)
    requires
        all_well_formed(ys@),
        all_well_formed(old(out)@),
    ensures
        final(out)@ == old(out)@ + with_fan(ys@, f),
        all_well_formed(final(out)@),
{
    let ghost start = out@;
    let mut k: usize = 0;
    while k < ys.len()
        invariant
            k <= ys@.len(),
            all_well_formed(ys@),
            all_well_formed(out@),
            out@ == start + with_fan(ys@.take(k as int), f),
        decreases ys@.len() - k,
    {
        proof {
            assert(ys@.take(k + 1).drop_last() =~= ys@.take(k as int));
        }
        let y = ys[k];
        if yaku_base_fan(y) == f {
            out.push(y);
            proof {
                assert(out@ =~= start + with_fan(ys@.take(k + 1), f));
            }
        }
        k = k + 1;
    }
    assert(ys@.take(k as int) =~= ys@);
}

/// Stable sort by decreasing fan.
fn sort_by_fan(ys: &Vec<Yaku>) -> (sorted: Vec<Yaku>)
    requires
        all_well_formed(ys@),
    ensures
        sorted@ == by_fan_desc(ys@),
        all_well_formed(sorted@),
{
    let mut out: Vec<Yaku> = Vec::new();
    append_with_fan(ys, 13, &mut out);
    append_with_fan(ys, 6, &mut out);
    append_with_fan(ys, 4, &mut out);
    append_with_fan(ys, 3, &mut out);
    append_with_fan(ys, 2, &mut out);
    append_with_fan(ys, 1, &mut out);
    assert(out@ =~= by_fan_desc(ys@));
    out
}

/// Check all patterns against a play's tiles. Every pattern found is
/// reported once, highest fan first (patterns of equal fan in the order
/// the checks find them). `all_played_tiles` and `hand_tiles` give the
/// round's context; no current pattern reads them.
pub fn check_patterns(
    play_tiles: &[Tile],
    all_played_tiles: &[Tile],
    hand_tiles: &[Tile],
) -> (r: Vec<PatternMatch>)
    ensures
        r@.len() == reported_yaku(play_tiles@).len(),
        forall|i: int| 0 <= i < r@.len() ==> describes(#[trigger] r@[i], reported_yaku(play_tiles@)[i]),
{
    let ghost s = play_tiles@;
    let freq = build_freq(play_tiles);
    let mut found: Vec<Yaku> = Vec::new();
    check_common_patterns(&freq, play_tiles, &mut found);
    check_suit_patterns(&freq, play_tiles, &mut found);
    check_honor_patterns(&freq, play_tiles, &mut found);
    check_special_patterns(&freq, play_tiles, all_played_tiles, &mut found);
    assert(found@ =~= found_yaku(s));
    let sorted = sort_by_fan(&found);
    let ghost target = dedup_by_id(sorted@);
    let mut matches: Vec<PatternMatch> = Vec::new();
    let mut k: usize = 0;
    while k < sorted.len()
        invariant
            k <= sorted@.len(),
            all_well_formed(sorted@),
            matches@.len() == dedup_by_id(sorted@.take(k as int)).len(),
            forall|i: int|
                0 <= i < matches@.len() ==> describes(
                    #[trigger] matches@[i],
                    dedup_by_id(sorted@.take(k as int))[i],
                ),
        decreases sorted@.len() - k,
    {
        proof {
            assert(sorted@.take(k + 1).drop_last() =~= sorted@.take(k as int));
        }
        let y = sorted[k];
        let m = pattern_match_of(y);
        let n = matches.len();
        let repeated = n > 0 && matches[n - 1].pattern_id == m.pattern_id;
        if !repeated {
            matches.push(m);
        }
        k = k + 1;
    }
    assert(sorted@.take(k as int) =~= sorted@);
    matches
}

// ---------------------------------------------------------------------------
// Laws
// ---------------------------------------------------------------------------

/// Fan never increases along `ys`.
pub open spec fn fan_descending(ys: Seq<Yaku>) -> bool {
    forall|i: int, j: int| 0 <= i < j < ys.len() ==> yaku_fan(#[trigger] ys[i]) >= yaku_fan(#[trigger] ys[j])
}

pub open spec fn all_fan_at_least(ys: Seq<Yaku>, f: u32) -> bool {
    forall|k: int| 0 <= k < ys.len() ==> yaku_fan(#[trigger] ys[k]) >= f
}

proof fn lemma_with_fan_level(ys: Seq<Yaku>, f: u32)
    ensures
        forall|k: int| 0 <= k < with_fan(ys, f).len() ==> yaku_fan(#[trigger] with_fan(ys, f)[k]) == f,
    decreases ys.len(),
{
    if ys.len() > 0 {
        lemma_with_fan_level(ys.drop_last(), f);
        let prev = with_fan(ys.drop_last(), f);
        assert forall|k: int| 0 <= k < with_fan(ys, f).len() implies yaku_fan(#[trigger] with_fan(ys, f)[k]) == f by {
            if k < prev.len() {
                assert(with_fan(ys, f)[k] == prev[k]);
            }
        }
    }
}

proof fn lemma_append_level(a: Seq<Yaku>, ys: Seq<Yaku>, f: u32)
    requires
        fan_descending(a),
        all_fan_at_least(a, f),
    ensures
        fan_descending(a + with_fan(ys, f)),
        all_fan_at_least(a + with_fan(ys, f), f),
{
    lemma_with_fan_level(ys, f);
    let b = with_fan(ys, f);
    let c = a + b;
    assert forall|i: int, j: int| 0 <= i < j < c.len() implies yaku_fan(#[trigger] c[i]) >= yaku_fan(#[trigger] c[j]) by {
        if j < a.len() {
            assert(c[i] == a[i] && c[j] == a[j]);
        } else if i < a.len() {
            assert(c[i] == a[i] && c[j] == b[j - a.len()]);
        } else {
            assert(c[i] == b[i - a.len()] && c[j] == b[j - a.len()]);
        }
    }
    assert forall|k: int| 0 <= k < c.len() implies yaku_fan(#[trigger] c[k]) >= f by {
        if k < a.len() {
            assert(c[k] == a[k]);
        } else {
            assert(c[k] == b[k - a.len()]);
        }
    }
}

proof fn lemma_by_fan_desc_sorted(ys: Seq<Yaku>)
    ensures
        fan_descending(by_fan_desc(ys)),
{
    let e = Seq::<Yaku>::empty();
    lemma_append_level(e, ys, 13);
    assert(e + with_fan(ys, 13) =~= with_fan(ys, 13));
    let a1 = with_fan(ys, 13);
    lemma_append_level(a1, ys, 6);
    let a2 = a1 + with_fan(ys, 6);
    lemma_append_level(a2, ys, 4);
    let a3 = a2 + with_fan(ys, 4);
    lemma_append_level(a3, ys, 3);
    let a4 = a3 + with_fan(ys, 3);
    lemma_append_level(a4, ys, 2);
    let a5 = a4 + with_fan(ys, 2);
    lemma_append_level(a5, ys, 1);
}

proof fn lemma_dedup_props(ys: Seq<Yaku>)
    ensures
        forall|k: int| 0 <= k < dedup_by_id(ys).len() ==> ys.contains(#[trigger] dedup_by_id(ys)[k]),
        fan_descending(ys) ==> fan_descending(dedup_by_id(ys)),
        forall|k: int|
            0 < k < dedup_by_id(ys).len() ==> yaku_id(dedup_by_id(ys)[k - 1]) != yaku_id(
                #[trigger] dedup_by_id(ys)[k],
            ),
    decreases ys.len(),
{
    if ys.len() > 0 {
        let d = ys.drop_last();
        lemma_dedup_props(d);
        let prev = dedup_by_id(d);
        let r = dedup_by_id(ys);
        assert forall|k: int| 0 <= k < r.len() implies ys.contains(#[trigger] r[k]) by {
            if k < prev.len() {
                assert(r[k] == prev[k]);
                let m = choose|m: int| 0 <= m < d.len() && d[m] == prev[k];
                assert(ys[m] == d[m]);
            } else {
                assert(r[k] == ys.last());
                assert(ys[ys.len() - 1] == ys.last());
            }
        }
        if fan_descending(ys) {
            assert(fan_descending(d)) by {
                assert forall|i: int, j: int| 0 <= i < j < d.len() implies yaku_fan(#[trigger] d[i]) >= yaku_fan(#[trigger] d[j]) by {
                    assert(d[i] == ys[i] && d[j] == ys[j]);
                }
            }
            assert forall|i: int, j: int| 0 <= i < j < r.len() implies yaku_fan(#[trigger] r[i]) >= yaku_fan(#[trigger] r[j]) by {
                assert(r[i] == prev[i]);
                if j < prev.len() {
                    assert(r[j] == prev[j]);
                } else {
                    assert(r[j] == ys.last());
                    let m = choose|m: int| 0 <= m < d.len() && d[m] == prev[i];
                    assert(ys[m] == d[m]);
                    assert(ys[ys.len() - 1] == ys.last());
                }
            }
        }
        assert forall|k: int| 0 < k < r.len() implies yaku_id(r[k - 1]) != yaku_id(#[trigger] r[k]) by {
            if k < prev.len() {
                assert(r[k] == prev[k] && r[k - 1] == prev[k - 1]);
            } else {
                assert(r[k - 1] == prev.last());
            }
        }
    }
}

/// The patterns reported for a play come highest fan first, and no two in
/// a row share an id; each of them is one of the patterns found.
pub proof fn law_reported_patterns_ordered(s: Seq<Tile>)
    ensures
        fan_descending(reported_yaku(s)),
        forall|k: int|
            0 < k < reported_yaku(s).len() ==> yaku_id(reported_yaku(s)[k - 1]) != yaku_id(
                #[trigger] reported_yaku(s)[k],
            ),
        forall|k: int|
            0 <= k < reported_yaku(s).len() ==> by_fan_desc(found_yaku(s)).contains(
                #[trigger] reported_yaku(s)[k],
            ),
{
    lemma_by_fan_desc_sorted(found_yaku(s));
    lemma_dedup_props(by_fan_desc(found_yaku(s)));
}

// ---------------------------------------------------------------------------
// Patterns depend on the faces alone
// ---------------------------------------------------------------------------

/// The faces of `s`, in order.
pub open spec fn faces(s: Seq<Tile>) -> Seq<(TileSuit, u8)> {
    s.map_values(|t: Tile| (t.suit, t.rank))
}

pub open spec fn same_counts(a: Seq<Tile>, b: Seq<Tile>) -> bool {
    forall|suit: TileSuit, rank: u8| #[trigger] face_count(a, suit, rank) == face_count(b, suit, rank)
}

proof fn lemma_face_count_multiset(s: Seq<Tile>, suit: TileSuit, rank: u8)
    ensures
        face_count(s, suit, rank) == faces(s).to_multiset().count((suit, rank)),
    decreases s.len(),
{
    broadcast use vstd::seq_lib::group_to_multiset_ensures;

    if s.len() == 0 {
        assert(faces(s) =~= Seq::<(TileSuit, u8)>::empty());
    } else {
        lemma_face_count_multiset(s.drop_last(), suit, rank);
        assert(faces(s) =~= faces(s.drop_last()).push((s.last().suit, s.last().rank)));
    }
}

/// Tiles with the same faces, each as often, have the same length and the
/// same count of every face.
proof fn lemma_same_faces_counts(a: Seq<Tile>, b: Seq<Tile>)
    requires
        faces(a).to_multiset() == faces(b).to_multiset(),
    ensures
        same_counts(a, b),
        a.len() == b.len(),
{
    broadcast use vstd::seq_lib::group_to_multiset_ensures;

    assert forall|suit: TileSuit, rank: u8| #[trigger] face_count(a, suit, rank) == face_count(b, suit, rank) by {
        lemma_face_count_multiset(a, suit, rank);
        lemma_face_count_multiset(b, suit, rank);
    }
    assert(faces(a).to_multiset().len() == faces(a).len());
    assert(faces(b).to_multiset().len() == faces(b).len());
}

pub open spec fn all_of_suit(s: Seq<Tile>, suit: TileSuit) -> bool {
    forall|i: int| 0 <= i < s.len() ==> (#[trigger] s[i]).suit == suit
}

pub open spec fn all_orphans(s: Seq<Tile>) -> bool {
    forall|i: int| 0 <= i < s.len() ==> orphan_face((#[trigger] s[i]).suit, s[i].rank)
}

/// A tile of `b` has a tile of the same face in `a`.
proof fn lemma_face_in(a: Seq<Tile>, b: Seq<Tile>, j: int) -> (i: int)
    requires
        same_counts(a, b),
        0 <= j < b.len(),
    ensures
        0 <= i < a.len(),
        a[i].suit == b[j].suit,
        a[i].rank == b[j].rank,
{
    let su = b[j].suit;
    let r = b[j].rank;
    lemma_face_count_bounds(b, su, r);
    lemma_face_count_bounds(a, su, r);
    assert(shows(b[j], su, r));
    assert(face_count(a, su, r) == face_count(b, su, r));
    choose|i: int| 0 <= i < a.len() && #[trigger] shows(a[i], su, r)
}

/// Each whole-play test over the tiles holds of `b` when it holds of `a`.
proof fn lemma_tile_tests_dir(a: Seq<Tile>, b: Seq<Tile>)
    requires
        same_counts(a, b),
        same_counts(b, a),
    ensures
        all_simple(a) ==> all_simple(b),
        all_terminal_or_honor(a) ==> all_terminal_or_honor(b),
        all_honor(a) ==> all_honor(b),
        all_numbered_terminal(a) ==> all_numbered_terminal(b),
        all_green(a) ==> all_green(b),
        has_honor_tile(a) ==> has_honor_tile(b),
        has_suit(a, TileSuit::Manzu) ==> has_suit(b, TileSuit::Manzu),
        has_suit(a, TileSuit::Pinzu) ==> has_suit(b, TileSuit::Pinzu),
        has_suit(a, TileSuit::Souzu) ==> has_suit(b, TileSuit::Souzu),
        forall|suit: TileSuit| #[trigger] all_of_suit(a, suit) ==> all_of_suit(b, suit),
        all_orphans(a) ==> all_orphans(b),
{
    if all_simple(a) {
        assert forall|j: int| 0 <= j < b.len() implies (#[trigger] b[j]).simple() by {
            let i = lemma_face_in(a, b, j);
            assert(a[i].simple());
        }
    }
    if all_terminal_or_honor(a) {
        assert forall|j: int| 0 <= j < b.len() implies (#[trigger] b[j]).terminal_or_honor() by {
            let i = lemma_face_in(a, b, j);
            assert(a[i].terminal_or_honor());
        }
    }
    if all_honor(a) {
        assert forall|j: int| 0 <= j < b.len() implies !numbered((#[trigger] b[j]).suit) by {
            let i = lemma_face_in(a, b, j);
            assert(!numbered(a[i].suit));
        }
    }
    if all_numbered_terminal(a) {
        assert forall|j: int| 0 <= j < b.len() implies numbered((#[trigger] b[j]).suit) && (b[j].rank == 1
            || b[j].rank == 9) by {
            let i = lemma_face_in(a, b, j);
            assert(numbered(a[i].suit) && (a[i].rank == 1 || a[i].rank == 9));
        }
    }
    if all_green(a) {
        assert forall|j: int| 0 <= j < b.len() implies green(#[trigger] b[j]) by {
            let i = lemma_face_in(a, b, j);
            assert(green(a[i]));
        }
    }
    if has_honor_tile(a) {
        let i = choose|i: int| 0 <= i < a.len() && !numbered((#[trigger] a[i]).suit);
        let j = lemma_face_in(b, a, i);
        assert(!numbered(b[j].suit));
    }
    assert forall|suit: TileSuit| has_suit(a, suit) implies has_suit(b, suit) by {
        let i = choose|i: int| 0 <= i < a.len() && (#[trigger] a[i]).suit == suit;
        let j = lemma_face_in(b, a, i);
        assert(b[j].suit == suit);
    }
    assert forall|suit: TileSuit| #[trigger] all_of_suit(a, suit) implies all_of_suit(b, suit) by {
        assert forall|j: int| 0 <= j < b.len() implies (#[trigger] b[j]).suit == suit by {
            let i = lemma_face_in(a, b, j);
            assert(a[i].suit == suit);
        }
    }
    if all_orphans(a) {
        assert forall|j: int| 0 <= j < b.len() implies orphan_face((#[trigger] b[j]).suit, b[j].rank) by {
            let i = lemma_face_in(a, b, j);
            assert(orphan_face(a[i].suit, a[i].rank));
        }
    }
}

/// The face table lists each face of `s` once.
proof fn lemma_face_table(s: Seq<Tile>)
    ensures
        face_table(s).no_duplicates(),
        forall|f: (TileSuit, u8)| #[trigger] face_table(s).contains(f) <==> has_face(s, f.0, f.1),
    decreases s.len(),
{
    if s.len() > 0 {
        let p = s.drop_last();
        let x = s.last();
        lemma_face_table(p);
        assert forall|f: (TileSuit, u8)| has_face(s, f.0, f.1) <==> (has_face(p, f.0, f.1) || shows(
            x,
            f.0,
            f.1,
        )) by {
            if has_face(s, f.0, f.1) {
                let i = choose|i: int| 0 <= i < s.len() && #[trigger] shows(s[i], f.0, f.1);
                if i < p.len() {
                    assert(shows(p[i], f.0, f.1));
                }
            }
            if has_face(p, f.0, f.1) {
                let i = choose|i: int| 0 <= i < p.len() && #[trigger] shows(p[i], f.0, f.1);
                assert(shows(s[i], f.0, f.1));
            }
            if shows(x, f.0, f.1) {
                assert(shows(s[s.len() - 1], f.0, f.1));
            }
        }
        let t = face_table(p);
        if !has_face(p, x.suit, x.rank) {
            assert(!t.contains((x.suit, x.rank)));
            assert forall|f: (TileSuit, u8)| #[trigger] t.push((x.suit, x.rank)).contains(f) <==> (t.contains(f)
                || f == (x.suit, x.rank)) by {
                if t.push((x.suit, x.rank)).contains(f) {
                    let k = choose|k: int| 0 <= k < t.len() + 1 && t.push((x.suit, x.rank))[k] == f;
                    if k < t.len() {
                        assert(t[k] == f);
                    }
                }
                if t.contains(f) {
                    let k = choose|k: int| 0 <= k < t.len() && t[k] == f;
                    assert(t.push((x.suit, x.rank))[k] == f);
                }
                if f == (x.suit, x.rank) {
                    assert(t.push((x.suit, x.rank))[t.len() as int] == f);
                }
            }
        }
    } else {
        assert forall|f: (TileSuit, u8)| !has_face(s, f.0, f.1) by {}
    }
}

proof fn lemma_nodup_count(a: Seq<(TileSuit, u8)>, f: (TileSuit, u8))
    requires
        a.no_duplicates(),
    ensures
        a.to_multiset().count(f) == if a.contains(f) { 1nat } else { 0nat },
    decreases a.len(),
{
    broadcast use vstd::seq_lib::group_to_multiset_ensures;

    if a.len() > 0 {
        let p = a.drop_last();
        assert(p.push(a.last()) =~= a);
        assert(p.no_duplicates()) by {
            assert forall|i: int, j: int| 0 <= i < p.len() && 0 <= j < p.len() && i != j implies p[i] != p[j] by {
                assert(a[i] == p[i] && a[j] == p[j]);
            }
        }
        lemma_nodup_count(p, f);
        if p.contains(a.last()) {
            let k = choose|k: int| 0 <= k < p.len() && p[k] == a.last();
            assert(a[k] == a[a.len() - 1]);
        }
        if a.contains(f) && f != a.last() {
            let k = choose|k: int| 0 <= k < a.len() && a[k] == f;
            assert(p[k] == f);
        }
        if p.contains(f) {
            let k = choose|k: int| 0 <= k < p.len() && p[k] == f;
            assert(a[k] == f);
        }
    } else {
        assert(a.to_multiset() =~= vstd::multiset::Multiset::empty());
    }
}

proof fn lemma_count_where_remove(b: Seq<(TileSuit, u8)>, j: int, p: spec_fn(TileSuit, u8) -> bool)
    requires
        0 <= j < b.len(),
    ensures
        count_where(b, p) == count_where(b.remove(j), p) + if p(b[j].0, b[j].1) { 1nat } else { 0nat },
    decreases b.len(),
{
    if j < b.len() - 1 {
        lemma_count_where_remove(b.drop_last(), j, p);
        assert(b.remove(j).drop_last() =~= b.drop_last().remove(j));
        assert(b.remove(j).last() == b.last());
    } else {
        assert(b.remove(j) =~= b.drop_last());
    }
}

/// Counting faces that pass a test does not depend on their order.
proof fn lemma_count_where_perm(a: Seq<(TileSuit, u8)>, b: Seq<(TileSuit, u8)>, p: spec_fn(TileSuit, u8) -> bool)
    requires
        a.to_multiset() == b.to_multiset(),
    ensures
        count_where(a, p) == count_where(b, p),
    decreases a.len(),
{
    broadcast use vstd::seq_lib::group_to_multiset_ensures;

    if a.len() == 0 {
        assert(a.to_multiset().len() == 0);
        assert(b.to_multiset().len() == b.len());
        assert(b =~= a);
    } else {
        let x = a.last();
        let q = a.drop_last();
        assert(q.push(x) =~= a);
        assert(b.to_multiset().count(x) > 0);
        assert(b.contains(x));
        let j = choose|j: int| 0 <= j < b.len() && b[j] == x;
        let b2 = b.remove(j);
        assert(b2.to_multiset() =~= b.to_multiset().remove(x));
        assert(q.to_multiset() =~= a.to_multiset().remove(x));
        lemma_count_where_perm(q, b2, p);
        lemma_count_where_remove(b, j, p);
    }
}

/// The face tables of tiles with the same face counts hold the same
/// faces, each once.
proof fn lemma_same_tables(a: Seq<Tile>, b: Seq<Tile>)
    requires
        same_counts(a, b),
    ensures
        face_table(a).to_multiset() == face_table(b).to_multiset(),
        forall|f: (TileSuit, u8)| #[trigger] face_table(a).contains(f) <==> face_table(b).contains(f),
{
    lemma_face_table(a);
    lemma_face_table(b);
    assert forall|f: (TileSuit, u8)| #[trigger] face_table(a).contains(f) <==> face_table(b).contains(f) by {
        lemma_face_count_bounds(a, f.0, f.1);
        lemma_face_count_bounds(b, f.0, f.1);
        assert(face_count(a, f.0, f.1) == face_count(b, f.0, f.1));
    }
    assert forall|f: (TileSuit, u8)| face_table(a).to_multiset().count(f) == face_table(b).to_multiset().count(f) by {
        lemma_nodup_count(face_table(a), f);
        lemma_nodup_count(face_table(b), f);
    }
    assert(face_table(a).to_multiset() =~= face_table(b).to_multiset());
}

/// The patterns found in a play depend only on its faces, each counted
/// as often as it occurs: two plays with the same faces, in whatever
/// order and whatever their ids, red fives and buffs, report the same
/// patterns.
pub proof fn law_patterns_depend_on_faces(a: Seq<Tile>, b: Seq<Tile>)
    requires
        faces(a).to_multiset() == faces(b).to_multiset(),
    ensures
        found_yaku(a) == found_yaku(b),
        reported_yaku(a) == reported_yaku(b),
{
    lemma_same_faces_counts(a, b);
    lemma_same_faces_counts(b, a);
    lemma_tile_tests_dir(a, b);
    lemma_tile_tests_dir(b, a);
    lemma_same_tables(a, b);
    let ta = face_table(a);
    let tb = face_table(b);
    assert(at_least(a, 3) =~= at_least(b, 3));
    assert(at_least(a, 4) =~= at_least(b, 4));
    assert(double_run(a) =~= double_run(b));
    assert(run_left(a) =~= run_left(b));
    assert(triplet_of_suit(a, TileSuit::Dragon) =~= triplet_of_suit(b, TileSuit::Dragon));
    assert(triplet_of_suit(a, TileSuit::Wind) =~= triplet_of_suit(b, TileSuit::Wind));
    lemma_count_where_perm(ta, tb, at_least(a, 3));
    lemma_count_where_perm(ta, tb, at_least(a, 4));
    lemma_count_where_perm(ta, tb, double_run(a));
    lemma_count_where_perm(ta, tb, triplet_of_suit(a, TileSuit::Dragon));
    lemma_count_where_perm(ta, tb, triplet_of_suit(a, TileSuit::Wind));
    assert(some_face(ta, run_left(a)) == some_face(tb, run_left(a))) by {
        if some_face(ta, run_left(a)) {
            let k = choose|k: int| 0 <= k < ta.len() && run_left(a)(#[trigger] ta[k].0, ta[k].1);
            assert(ta.contains(ta[k]));
            assert(tb.contains(ta[k]));
            let m = choose|m: int| 0 <= m < tb.len() && tb[m] == ta[k];
            assert(run_left(a)(tb[m].0, tb[m].1));
        }
        if some_face(tb, run_left(a)) {
            let k = choose|k: int| 0 <= k < tb.len() && run_left(a)(#[trigger] tb[k].0, tb[k].1);
            assert(tb.contains(tb[k]));
            assert(ta.contains(tb[k]));
            let m = choose|m: int| 0 <= m < ta.len() && ta[m] == tb[k];
            assert(run_left(a)(ta[m].0, ta[m].1));
        }
    }
    assert(some_face(ta, at_least(a, 3)) == some_face(tb, at_least(a, 3))) by {
        if some_face(ta, at_least(a, 3)) {
            let k = choose|k: int| 0 <= k < ta.len() && at_least(a, 3)(#[trigger] ta[k].0, ta[k].1);
            assert(ta.contains(ta[k]));
            assert(tb.contains(ta[k]));
            let m = choose|m: int| 0 <= m < tb.len() && tb[m] == ta[k];
            assert(at_least(a, 3)(tb[m].0, tb[m].1));
        }
        if some_face(tb, at_least(a, 3)) {
            let k = choose|k: int| 0 <= k < tb.len() && at_least(a, 3)(#[trigger] tb[k].0, tb[k].1);
            assert(tb.contains(tb[k]));
            assert(ta.contains(tb[k]));
            let m = choose|m: int| 0 <= m < ta.len() && ta[m] == tb[k];
            assert(at_least(a, 3)(ta[m].0, ta[m].1));
        }
    }
    assert(toitoi(a) == toitoi(b));
    assert(sanshoku(a) == sanshoku(b)) by {
        if sanshoku(a) {
            let r = choose|rank: u8| 1 <= rank <= 7 && #[trigger] run_of(a, TileSuit::Manzu, rank) && run_of(a, TileSuit::Pinzu, rank) && run_of(a, TileSuit::Souzu, rank);
            assert(run_of(b, TileSuit::Manzu, r));
        }
        if sanshoku(b) {
            let r = choose|rank: u8| 1 <= rank <= 7 && #[trigger] run_of(b, TileSuit::Manzu, rank) && run_of(b, TileSuit::Pinzu, rank) && run_of(b, TileSuit::Souzu, rank);
            assert(run_of(a, TileSuit::Manzu, r));
        }
    }
    assert(ittsu(a) == ittsu(b));
    assert(seven_pairs(a) == seven_pairs(b)) by {
        if seven_pairs(a) {
            assert forall|j: int| 0 <= j < 14 implies face_count(b, #[trigger] b[j].suit, b[j].rank) == 2 by {
                let i = lemma_face_in(a, b, j);
                assert(face_count(a, a[i].suit, a[i].rank) == 2);
            }
        }
        if seven_pairs(b) {
            assert forall|j: int| 0 <= j < 14 implies face_count(a, #[trigger] a[j].suit, a[j].rank) == 2 by {
                let i = lemma_face_in(b, a, j);
                assert(face_count(b, b[i].suit, b[i].rank) == 2);
            }
        }
    }
    assert(thirteen_orphans(a) == thirteen_orphans(b)) by {
        assert forall|suit: TileSuit, rank: u8| has_face(a, suit, rank) == has_face(b, suit, rank) by {
            lemma_face_count_bounds(a, suit, rank);
            lemma_face_count_bounds(b, suit, rank);
        }
        assert(all_orphans(a) == all_orphans(b));
    }
    assert forall|suit: TileSuit| nine_gates(a, suit) == nine_gates(b, suit) by {
        assert(all_of_suit(a, suit) == all_of_suit(b, suit));
        if nine_gates(a, suit) {
            let e = choose|extra: u8| 1 <= extra <= 9 && face_count(a, suit, extra) > 0 && #[trigger] nine_gates_after(a, suit, extra);
            assert forall|rank: u8| 1 <= rank <= 9 implies #[trigger] gate_rank_ok(b, suit, e, rank) by {
                assert(gate_rank_ok(a, suit, e, rank));
            }
            assert(nine_gates_after(b, suit, e));
        }
        if nine_gates(b, suit) {
            let e = choose|extra: u8| 1 <= extra <= 9 && face_count(b, suit, extra) > 0 && #[trigger] nine_gates_after(b, suit, extra);
            assert forall|rank: u8| 1 <= rank <= 9 implies #[trigger] gate_rank_ok(a, suit, e, rank) by {
                assert(gate_rank_ok(b, suit, e, rank));
            }
            assert(nine_gates_after(a, suit, e));
        }
    }
    reveal(value_triplet_yaku);
    reveal(honor_set_yaku);
    reveal(honor_tiles_yaku);
    assert(common_yaku(a) == common_yaku(b));
    assert(suit_yaku(a) == suit_yaku(b));
    assert(honor_yaku(a) == honor_yaku(b));
    assert(special_yaku(a) == special_yaku(b));
}

// ---------------------------------------------------------------------------
// Big three dragons
// ---------------------------------------------------------------------------

proof fn lemma_with_fan_sub(ys: Seq<Yaku>, f: u32, y: Yaku)
    ensures
        with_fan(ys, f).contains(y) ==> ys.contains(y),
    decreases ys.len(),
{
    if ys.len() > 0 {
        lemma_with_fan_sub(ys.drop_last(), f, y);
        let w = with_fan(ys, f);
        if w.contains(y) {
            let k = choose|k: int| 0 <= k < w.len() && w[k] == y;
            let prev = with_fan(ys.drop_last(), f);
            if k < prev.len() {
                assert(prev[k] == y);
                let m = choose|m: int| 0 <= m < ys.drop_last().len() && ys.drop_last()[m] == y;
                assert(ys[m] == y);
            } else {
                assert(ys[ys.len() - 1] == y);
            }
        }
    }
}

proof fn lemma_concat_contains(a: Seq<Yaku>, b: Seq<Yaku>, y: Yaku)
    ensures
        (a + b).contains(y) <==> (a.contains(y) || b.contains(y)),
{
    if (a + b).contains(y) {
        let k = choose|k: int| 0 <= k < (a + b).len() && (a + b)[k] == y;
        if k < a.len() {
            assert(a[k] == y);
        } else {
            assert(b[k - a.len()] == y);
        }
    }
    if a.contains(y) {
        let k = choose|k: int| 0 <= k < a.len() && a[k] == y;
        assert((a + b)[k] == y);
    }
    if b.contains(y) {
        let k = choose|k: int| 0 <= k < b.len() && b[k] == y;
        assert((a + b)[k + a.len()] == y);
    }
}

/// A pattern reported for a play is one of the patterns found in it.
pub proof fn lemma_reported_found(s: Seq<Tile>, y: Yaku)
    requires
        reported_yaku(s).contains(y),
    ensures
        found_yaku(s).contains(y),
{
    law_reported_patterns_ordered(s);
    let k = choose|k: int| 0 <= k < reported_yaku(s).len() && reported_yaku(s)[k] == y;
    assert(by_fan_desc(found_yaku(s)).contains(reported_yaku(s)[k]));
    let f = found_yaku(s);
    let w13 = with_fan(f, 13);
    let w6 = with_fan(f, 6);
    let w4 = with_fan(f, 4);
    let w3 = with_fan(f, 3);
    let w2 = with_fan(f, 2);
    let w1 = with_fan(f, 1);
    lemma_concat_contains(w13 + w6 + w4 + w3 + w2, w1, y);
    lemma_concat_contains(w13 + w6 + w4 + w3, w2, y);
    lemma_concat_contains(w13 + w6 + w4, w3, y);
    lemma_concat_contains(w13 + w6, w4, y);
    lemma_concat_contains(w13, w6, y);
    lemma_with_fan_sub(f, 13, y);
    lemma_with_fan_sub(f, 6, y);
    lemma_with_fan_sub(f, 4, y);
    lemma_with_fan_sub(f, 3, y);
    lemma_with_fan_sub(f, 2, y);
    lemma_with_fan_sub(f, 1, y);
}

proof fn lemma_when_contains(c: bool, x: Yaku, y: Yaku)
    ensures
        (when(c, x)).contains(y) ==> c && x == y,
{
    if when(c, x).contains(y) {
        let k = choose|k: int| 0 <= k < when(c, x).len() && when(c, x)[k] == y;
    }
}

proof fn lemma_count_where_pos(tab: Seq<(TileSuit, u8)>, p: spec_fn(TileSuit, u8) -> bool) -> (i: int)
    requires
        count_where(tab, p) > 0,
    ensures
        0 <= i < tab.len(),
        p(tab[i].0, tab[i].1),
    decreases tab.len(),
{
    if p(tab.last().0, tab.last().1) {
        (tab.len() - 1) as int
    } else {
        let i = lemma_count_where_pos(tab.drop_last(), p);
        assert(tab.drop_last()[i] == tab[i]);
        i
    }
}

proof fn lemma_remove_nodup(tab: Seq<(TileSuit, u8)>, i: int)
    requires
        tab.no_duplicates(),
        0 <= i < tab.len(),
    ensures
        tab.remove(i).no_duplicates(),
        !tab.remove(i).contains(tab[i]),
        forall|x: (TileSuit, u8)| tab.remove(i).contains(x) ==> tab.contains(x),
{
    let r = tab.remove(i);
    assert forall|a: int, b: int| 0 <= a < r.len() && 0 <= b < r.len() && a != b implies r[a] != r[b] by {
        let ia = if a < i { a } else { a + 1 };
        let ib = if b < i { b } else { b + 1 };
        assert(r[a] == tab[ia] && r[b] == tab[ib]);
    }
    if r.contains(tab[i]) {
        let a = choose|a: int| 0 <= a < r.len() && r[a] == tab[i];
        let ia = if a < i { a } else { a + 1 };
        assert(r[a] == tab[ia]);
    }
    assert forall|x: (TileSuit, u8)| r.contains(x) implies tab.contains(x) by {
        let a = choose|a: int| 0 <= a < r.len() && r[a] == x;
        let ia = if a < i { a } else { a + 1 };
        assert(r[a] == tab[ia]);
    }
}

/// The patterns of the honor-set check.
pub open spec fn honor_set_pattern(y: Yaku) -> bool {
    y == Yaku::Shousangen || y == Yaku::Daisangen || y == Yaku::Shousuushii || y == Yaku::Daisuushii
}

/// The patterns of the honor checks: value triplets and honor sets.
pub open spec fn honor_pattern(y: Yaku) -> bool {
    honor_set_pattern(y) || y is DragonPon || y is WindPon
}

proof fn lemma_common_lacks_honor_set(s: Seq<Tile>, y: Yaku)
    requires
        honor_pattern(y),
    ensures
        !common_yaku(s).contains(y),
{
    let a1 = when(all_simple(s), Yaku::Tanyao);
    let a2 = when(s.len() > 0 && all_terminal_or_honor(s), Yaku::Chanta);
    let a3 = when(toitoi(s), Yaku::Toitoi);
    let a4 = when(sanshoku(s), Yaku::Sanshoku);
    let a5 = when(ittsu(s), Yaku::Ittsu);
    let a6 = when(seven_pairs(s), Yaku::Chiitoitsu);
    assert(common_yaku(s) == a1 + a2 + a3 + a4 + a5 + a6);
    lemma_concat_contains(a1 + a2 + a3 + a4 + a5, a6, y);
    lemma_concat_contains(a1 + a2 + a3 + a4, a5, y);
    lemma_concat_contains(a1 + a2 + a3, a4, y);
    lemma_concat_contains(a1 + a2, a3, y);
    lemma_concat_contains(a1, a2, y);
    lemma_when_contains(all_simple(s), Yaku::Tanyao, y);
    lemma_when_contains(s.len() > 0 && all_terminal_or_honor(s), Yaku::Chanta, y);
    lemma_when_contains(toitoi(s), Yaku::Toitoi, y);
    lemma_when_contains(sanshoku(s), Yaku::Sanshoku, y);
    lemma_when_contains(ittsu(s), Yaku::Ittsu, y);
    lemma_when_contains(seven_pairs(s), Yaku::Chiitoitsu, y);
}

proof fn lemma_suit_lacks_honor_set(s: Seq<Tile>, y: Yaku)
    requires
        honor_pattern(y),
    ensures
        !suit_yaku(s).contains(y),
{
    let a1 = when(has_honor_tile(s) && one_numbered_suit(s), Yaku::Honitsu);
    let a2 = when(!has_honor_tile(s) && one_numbered_suit(s), Yaku::Chinitsu);
    let a3 = when(s.len() > 0 && all_green(s), Yaku::Ryuuiisou);
    assert(suit_yaku(s) == a1 + a2 + a3);
    lemma_concat_contains(a1 + a2, a3, y);
    lemma_concat_contains(a1, a2, y);
    lemma_when_contains(has_honor_tile(s) && one_numbered_suit(s), Yaku::Honitsu, y);
    lemma_when_contains(!has_honor_tile(s) && one_numbered_suit(s), Yaku::Chinitsu, y);
    lemma_when_contains(s.len() > 0 && all_green(s), Yaku::Ryuuiisou, y);
}

proof fn lemma_value_triplets_lack_honor_set(s: Seq<Tile>, y: Yaku)
    requires
        honor_set_pattern(y),
    ensures
        !value_triplet_yaku(s).contains(y),
{
    reveal(value_triplet_yaku);
    let d1 = when(face_count(s, TileSuit::Dragon, 1) >= 3, Yaku::DragonPon(1));
    let d2 = when(face_count(s, TileSuit::Dragon, 2) >= 3, Yaku::DragonPon(2));
    let d3 = when(face_count(s, TileSuit::Dragon, 3) >= 3, Yaku::DragonPon(3));
    let x1 = when(face_count(s, TileSuit::Wind, 1) >= 3, Yaku::WindPon(1));
    let x2 = when(face_count(s, TileSuit::Wind, 2) >= 3, Yaku::WindPon(2));
    let x3 = when(face_count(s, TileSuit::Wind, 3) >= 3, Yaku::WindPon(3));
    let x4 = when(face_count(s, TileSuit::Wind, 4) >= 3, Yaku::WindPon(4));
    assert(value_triplet_yaku(s) == d1 + d2 + d3 + x1 + x2 + x3 + x4);
    lemma_concat_contains(d1 + d2 + d3 + x1 + x2 + x3, x4, y);
    lemma_concat_contains(d1 + d2 + d3 + x1 + x2, x3, y);
    lemma_concat_contains(d1 + d2 + d3 + x1, x2, y);
    lemma_concat_contains(d1 + d2 + d3, x1, y);
    lemma_concat_contains(d1 + d2, d3, y);
    lemma_concat_contains(d1, d2, y);
    lemma_when_contains(face_count(s, TileSuit::Dragon, 1) >= 3, Yaku::DragonPon(1), y);
    lemma_when_contains(face_count(s, TileSuit::Dragon, 2) >= 3, Yaku::DragonPon(2), y);
    lemma_when_contains(face_count(s, TileSuit::Dragon, 3) >= 3, Yaku::DragonPon(3), y);
    lemma_when_contains(face_count(s, TileSuit::Wind, 1) >= 3, Yaku::WindPon(1), y);
    lemma_when_contains(face_count(s, TileSuit::Wind, 2) >= 3, Yaku::WindPon(2), y);
    lemma_when_contains(face_count(s, TileSuit::Wind, 3) >= 3, Yaku::WindPon(3), y);
    lemma_when_contains(face_count(s, TileSuit::Wind, 4) >= 3, Yaku::WindPon(4), y);
}

proof fn lemma_honor_tiles_lack_honor_set(s: Seq<Tile>, y: Yaku)
    requires
        honor_pattern(y),
    ensures
        !honor_tiles_yaku(s).contains(y),
{
    reveal(honor_tiles_yaku);
    let t1 = when(s.len() > 0 && all_honor(s), Yaku::Tsuuiisou);
    let t2 = when(s.len() > 0 && all_numbered_terminal(s), Yaku::Chinroutou);
    let t3 = when(s.len() > 0 && all_terminal_or_honor(s) && has_honor_tile(s), Yaku::Honroutou);
    assert(honor_tiles_yaku(s) == t1 + t2 + t3);
    lemma_concat_contains(t1 + t2, t3, y);
    lemma_concat_contains(t1, t2, y);
    lemma_when_contains(s.len() > 0 && all_honor(s), Yaku::Tsuuiisou, y);
    lemma_when_contains(s.len() > 0 && all_numbered_terminal(s), Yaku::Chinroutou, y);
    lemma_when_contains(s.len() > 0 && all_terminal_or_honor(s) && has_honor_tile(s), Yaku::Honroutou, y);
}

proof fn lemma_special_lacks_honor_set(s: Seq<Tile>, y: Yaku)
    requires
        honor_pattern(y),
    ensures
        !special_yaku(s).contains(y),
{
    let pon_count = count_where(face_table(s), at_least(s, 3));
    let kan_count = count_where(face_table(s), at_least(s, 4));
    let peikou = count_where(face_table(s), double_run(s));
    let gates = s.len() >= 14 && (nine_gates(s, TileSuit::Manzu) || nine_gates(s, TileSuit::Pinzu)
        || nine_gates(s, TileSuit::Souzu));
    let k1 = when(thirteen_orphans(s), Yaku::Kokushi);
    let k2 = when(pon_count >= 4, Yaku::Suuankou);
    let k3 = when(pon_count == 3, Yaku::Sanankou);
    let k4 = when(kan_count >= 4, Yaku::Suukantsu);
    let k5 = when(kan_count == 3, Yaku::Sankantsu);
    let k6 = when(gates, Yaku::Chuuren);
    let k7: Seq<Yaku> = if peikou >= 2 {
        seq![Yaku::Ryanpeikou]
    } else if peikou == 1 {
        seq![Yaku::Iipeikou]
    } else {
        seq![]
    };
    assert(special_yaku(s) == k1 + k2 + k3 + k4 + k5 + k6 + k7);
    lemma_concat_contains(k1 + k2 + k3 + k4 + k5 + k6, k7, y);
    lemma_concat_contains(k1 + k2 + k3 + k4 + k5, k6, y);
    lemma_concat_contains(k1 + k2 + k3 + k4, k5, y);
    lemma_concat_contains(k1 + k2 + k3, k4, y);
    lemma_concat_contains(k1 + k2, k3, y);
    lemma_concat_contains(k1, k2, y);
    lemma_when_contains(thirteen_orphans(s), Yaku::Kokushi, y);
    lemma_when_contains(pon_count >= 4, Yaku::Suuankou, y);
    lemma_when_contains(pon_count == 3, Yaku::Sanankou, y);
    lemma_when_contains(kan_count >= 4, Yaku::Suukantsu, y);
    lemma_when_contains(kan_count == 3, Yaku::Sankantsu, y);
    lemma_when_contains(gates, Yaku::Chuuren, y);
    if k7.contains(y) {
        let k = choose|k: int| 0 <= k < k7.len() && k7[k] == y;
    }
}

/// A pattern of the honor-set check is found only by that check.
proof fn lemma_honor_set_source(s: Seq<Tile>, y: Yaku)
    requires
        honor_set_pattern(y),
        found_yaku(s).contains(y),
    ensures
        honor_set_yaku(s).contains(y),
{
    let c = common_yaku(s);
    let su = suit_yaku(s);
    let h = honor_yaku(s);
    let sp = special_yaku(s);
    lemma_concat_contains(c + su + h, sp, y);
    lemma_concat_contains(c + su, h, y);
    lemma_concat_contains(c, su, y);
    lemma_concat_contains(value_triplet_yaku(s) + honor_set_yaku(s), honor_tiles_yaku(s), y);
    lemma_concat_contains(value_triplet_yaku(s), honor_set_yaku(s), y);
    lemma_common_lacks_honor_set(s, y);
    lemma_suit_lacks_honor_set(s, y);
    lemma_value_triplets_lack_honor_set(s, y);
    lemma_honor_tiles_lack_honor_set(s, y);
    lemma_special_lacks_honor_set(s, y);
}

/// What the honor-set check finds, pattern by pattern.
proof fn lemma_honor_set_contents(s: Seq<Tile>, y: Yaku)
    requires
        honor_set_pattern(y),
    ensures
        honor_set_yaku(s).contains(y) <==> ({
            let dp = pons_of_suit(s, TileSuit::Dragon);
            let wp = pons_of_suit(s, TileSuit::Wind);
            let dpair = face_count(s, TileSuit::Dragon, 1) == 2 || face_count(s, TileSuit::Dragon, 2) == 2
                || face_count(s, TileSuit::Dragon, 3) == 2;
            let wpair = face_count(s, TileSuit::Wind, 1) == 2 || face_count(s, TileSuit::Wind, 2) == 2
                || face_count(s, TileSuit::Wind, 3) == 2 || face_count(s, TileSuit::Wind, 4) == 2;
            ||| y == Yaku::Shousangen && dp >= 2 && dpair
            ||| y == Yaku::Daisangen && dp >= 3
            ||| y == Yaku::Shousuushii && wp >= 3 && wpair
            ||| y == Yaku::Daisuushii && wp >= 4
        }),
{
    reveal(honor_set_yaku);
    let dp = pons_of_suit(s, TileSuit::Dragon);
    let wp = pons_of_suit(s, TileSuit::Wind);
    let dpair = face_count(s, TileSuit::Dragon, 1) == 2 || face_count(s, TileSuit::Dragon, 2) == 2
        || face_count(s, TileSuit::Dragon, 3) == 2;
    let wpair = face_count(s, TileSuit::Wind, 1) == 2 || face_count(s, TileSuit::Wind, 2) == 2
        || face_count(s, TileSuit::Wind, 3) == 2 || face_count(s, TileSuit::Wind, 4) == 2;
    let h1 = when(dp >= 2 && dpair, Yaku::Shousangen);
    let h2 = when(dp >= 3, Yaku::Daisangen);
    let h3 = when(wp >= 3 && wpair, Yaku::Shousuushii);
    let h4 = when(wp >= 4, Yaku::Daisuushii);
    assert(honor_set_yaku(s) == h1 + h2 + h3 + h4);
    lemma_concat_contains(h1 + h2 + h3, h4, y);
    lemma_concat_contains(h1 + h2, h3, y);
    lemma_concat_contains(h1, h2, y);
    lemma_when_contains(dp >= 2 && dpair, Yaku::Shousangen, y);
    lemma_when_contains(dp >= 3, Yaku::Daisangen, y);
    lemma_when_contains(wp >= 3 && wpair, Yaku::Shousuushii, y);
    lemma_when_contains(wp >= 4, Yaku::Daisuushii, y);
    if dp >= 2 && dpair && y == Yaku::Shousangen {
        assert(h1[0] == y);
    }
    if dp >= 3 && y == Yaku::Daisangen {
        assert(h2[0] == y);
    }
    if wp >= 3 && wpair && y == Yaku::Shousuushii {
        assert(h3[0] == y);
    }
    if wp >= 4 && y == Yaku::Daisuushii {
        assert(h4[0] == y);
    }
}

/// Big three dragons is found only by the honor-set check, and only when
/// at least three dragon faces hold triplets.
proof fn lemma_daisangen_needs_three_dragon_pons(s: Seq<Tile>)
    requires
        found_yaku(s).contains(Yaku::Daisangen),
    ensures
        pons_of_suit(s, TileSuit::Dragon) >= 3,
{
    lemma_honor_set_source(s, Yaku::Daisangen);
    lemma_honor_set_contents(s, Yaku::Daisangen);
}

/// Three dragon triplets among the faces are three different dragon ranks,
/// each with three tiles or more.
proof fn lemma_three_dragon_faces(s: Seq<Tile>) -> (r: (u8, u8, u8))
    requires
        pons_of_suit(s, TileSuit::Dragon) >= 3,
    ensures
        r.0 < r.1 < r.2,
        face_count(s, TileSuit::Dragon, r.0) >= 3,
        face_count(s, TileSuit::Dragon, r.1) >= 3,
        face_count(s, TileSuit::Dragon, r.2) >= 3,
{
    let p = triplet_of_suit(s, TileSuit::Dragon);
    let t1 = face_table(s);
    lemma_face_table(s);
    let i1 = lemma_count_where_pos(t1, p);
    lemma_count_where_remove(t1, i1, p);
    lemma_remove_nodup(t1, i1);
    let t2 = t1.remove(i1);
    let i2 = lemma_count_where_pos(t2, p);
    lemma_count_where_remove(t2, i2, p);
    lemma_remove_nodup(t2, i2);
    let t3 = t2.remove(i2);
    let i3 = lemma_count_where_pos(t3, p);
    let e1 = t1[i1];
    let e2 = t2[i2];
    let e3 = t3[i3];
    assert(t2.contains(e2));
    assert(t3.contains(e3));
    assert(e1 != e2);
    assert(e2 != e3);
    assert(t2.contains(e3));
    assert(e1 != e3);
    assert(e1.0 == TileSuit::Dragon && e2.0 == TileSuit::Dragon && e3.0 == TileSuit::Dragon);
    let lo = if e1.1 <= e2.1 && e1.1 <= e3.1 { e1.1 } else if e2.1 <= e3.1 { e2.1 } else { e3.1 };
    let hi = if e1.1 >= e2.1 && e1.1 >= e3.1 { e1.1 } else if e2.1 >= e3.1 { e2.1 } else { e3.1 };
    let mid = if e1.1 != lo && e1.1 != hi { e1.1 } else if e2.1 != lo && e2.1 != hi { e2.1 } else { e3.1 };
    (lo, mid, hi)
}

/// Big three dragons is reported only when three different dragon faces
/// each have at least three tiles in the play; when every tile shows an
/// existing face, that means three tiles or more of each of the white,
/// green and red dragons.
pub proof fn law_big_three_dragons(s: Seq<Tile>)
    ensures
        reported_yaku(s).contains(Yaku::Daisangen) ==> exists|r1: u8, r2: u8, r3: u8|
            #![trigger face_count(s, TileSuit::Dragon, r1), face_count(s, TileSuit::Dragon, r2), face_count(s, TileSuit::Dragon, r3)]
            r1 < r2 < r3 && face_count(s, TileSuit::Dragon, r1) >= 3 && face_count(s, TileSuit::Dragon, r2)
                >= 3 && face_count(s, TileSuit::Dragon, r3) >= 3,
        reported_yaku(s).contains(Yaku::Daisangen) && (forall|i: int|
            0 <= i < s.len() ==> face_exists((#[trigger] s[i]).suit, s[i].rank)) ==> face_count(
            s,
            TileSuit::Dragon,
            1,
        ) >= 3 && face_count(s, TileSuit::Dragon, 2) >= 3 && face_count(s, TileSuit::Dragon, 3) >= 3,
{
    if reported_yaku(s).contains(Yaku::Daisangen) {
        lemma_reported_found(s, Yaku::Daisangen);
        lemma_daisangen_needs_three_dragon_pons(s);
        let (lo, mid, hi) = lemma_three_dragon_faces(s);
        assert(face_count(s, TileSuit::Dragon, lo) >= 3 && face_count(s, TileSuit::Dragon, mid) >= 3
            && face_count(s, TileSuit::Dragon, hi) >= 3);
        if forall|i: int| 0 <= i < s.len() ==> face_exists((#[trigger] s[i]).suit, s[i].rank) {
            assert forall|r: u8| face_count(s, TileSuit::Dragon, r) > 0 implies 1 <= r <= 3 by {
                lemma_face_count_bounds(s, TileSuit::Dragon, r);
                let i = choose|i: int| 0 <= i < s.len() && #[trigger] shows(s[i], TileSuit::Dragon, r);
                assert(face_exists(s[i].suit, s[i].rank));
            }
            assert(1 <= lo && hi <= 3);
        }
    }
}


/// No other pattern shares the id of a pattern of the honor-set check.
proof fn lemma_honor_set_id(z: Yaku, y: Yaku)
    requires
        honor_set_pattern(y),
    ensures
        yaku_id(z) == yaku_id(y) ==> z == y,
{
    reveal_strlit("shousangen");
    reveal_strlit("daisangen");
    reveal_strlit("shousuushii");
    reveal_strlit("daisuushii");
    if yaku_id(z) == yaku_id(y) {
        assert(yaku_id(z).len() == yaku_id(y).len());
        assert(yaku_id(z)[0] == yaku_id(y)[0]);
        assert(yaku_id(z)[1] == yaku_id(y)[1]);
        assert(yaku_id(z)[2] == yaku_id(y)[2]);
        assert(yaku_id(z)[3] == yaku_id(y)[3]);
        match z {
            Yaku::Tanyao => { reveal_strlit("tanyao"); },
            Yaku::Chanta => { reveal_strlit("chanta"); },
            Yaku::Toitoi => { reveal_strlit("toitoi"); },
            Yaku::Sanshoku => { reveal_strlit("sanshoku"); },
            Yaku::Ittsu => { reveal_strlit("ittsu"); },
            Yaku::Chiitoitsu => { reveal_strlit("chiitoitsu"); },
            Yaku::Honitsu => { reveal_strlit("honitsu"); },
            Yaku::Chinitsu => { reveal_strlit("chinitsu"); },
            Yaku::Ryuuiisou => { reveal_strlit("ryuuiisou"); },
            Yaku::DragonPon(r) => {
                reveal_strlit("yakuhai_dragon_");
                assert(yaku_id(z)[0] == "yakuhai_dragon_"@[0]);
            },
            Yaku::WindPon(r) => {
                reveal_strlit("yakuhai_wind_");
                assert(yaku_id(z)[0] == "yakuhai_wind_"@[0]);
            },
            Yaku::Shousangen => {},
            Yaku::Daisangen => {},
            Yaku::Shousuushii => {},
            Yaku::Daisuushii => {},
            Yaku::Tsuuiisou => { reveal_strlit("tsuuiisou"); },
            Yaku::Chinroutou => { reveal_strlit("chinroutou"); },
            Yaku::Honroutou => { reveal_strlit("honroutou"); },
            Yaku::Kokushi => { reveal_strlit("kokushi"); },
            Yaku::Suuankou => { reveal_strlit("suuankou"); },
            Yaku::Sanankou => { reveal_strlit("sanankou"); },
            Yaku::Suukantsu => { reveal_strlit("suukantsu"); },
            Yaku::Sankantsu => { reveal_strlit("sankantsu"); },
            Yaku::Chuuren => { reveal_strlit("chuuren"); },
            Yaku::Ryanpeikou => { reveal_strlit("ryanpeikou"); },
            Yaku::Iipeikou => { reveal_strlit("iipeikou"); },
        }
    }
}

/// A pattern whose id no other pattern of `ys` shares survives dropping
/// repeated ids.
proof fn lemma_dedup_keeps(ys: Seq<Yaku>, y: Yaku)
    requires
        ys.contains(y),
        forall|z: Yaku| ys.contains(z) && yaku_id(z) == yaku_id(y) ==> z == y,
    ensures
        dedup_by_id(ys).contains(y),
    decreases ys.len(),
{
    lemma_dedup_props(ys);
    let d = ys.drop_last();
    let prev = dedup_by_id(d);
    let r = dedup_by_id(ys);
    if ys.last() == y {
        if prev.len() > 0 && yaku_id(prev.last()) == yaku_id(ys.last()) {
            lemma_dedup_props(d);
            assert(d.contains(prev[prev.len() - 1]));
            let m = choose|m: int| 0 <= m < d.len() && d[m] == prev[prev.len() - 1];
            assert(ys[m] == d[m]);
            assert(ys.contains(prev.last()));
            assert(prev.last() == y);
            assert(r == prev);
            assert(r[r.len() - 1] == y);
        } else {
            assert(r[r.len() - 1] == y);
        }
    } else {
        let k = choose|k: int| 0 <= k < ys.len() && ys[k] == y;
        assert(k < ys.len() - 1);
        assert(d[k] == y);
        assert forall|z: Yaku| d.contains(z) && yaku_id(z) == yaku_id(y) implies z == y by {
            let m = choose|m: int| 0 <= m < d.len() && d[m] == z;
            assert(ys[m] == z);
        }
        lemma_dedup_keeps(d, y);
        let j = choose|j: int| 0 <= j < prev.len() && prev[j] == y;
        if prev.len() > 0 && yaku_id(prev.last()) == yaku_id(ys.last()) {
            assert(r == prev);
        } else {
            assert(r[j] == y);
        }
    }
}

/// A pattern of `ys` with fan `f` is among `with_fan(ys, f)`.
proof fn lemma_with_fan_has(ys: Seq<Yaku>, f: u32, y: Yaku)
    requires
        ys.contains(y),
        yaku_fan(y) == f,
    ensures
        with_fan(ys, f).contains(y),
    decreases ys.len(),
{
    let d = ys.drop_last();
    if ys.last() == y {
        assert(with_fan(ys, f)[with_fan(ys, f).len() - 1] == y);
    } else {
        let k = choose|k: int| 0 <= k < ys.len() && ys[k] == y;
        assert(d[k] == y);
        lemma_with_fan_has(d, f, y);
        let j = choose|j: int| 0 <= j < with_fan(d, f).len() && with_fan(d, f)[j] == y;
        assert(with_fan(ys, f)[j] == y);
    }
}

/// A face of the table that is not the one removed is still there.
proof fn lemma_remove_keeps(tab: Seq<(TileSuit, u8)>, i: int, x: (TileSuit, u8))
    requires
        0 <= i < tab.len(),
        tab.contains(x),
        x != tab[i],
    ensures
        tab.remove(i).contains(x),
{
    let k = choose|k: int| 0 <= k < tab.len() && tab[k] == x;
    if k < i {
        assert(tab.remove(i)[k] == x);
    } else {
        assert(tab.remove(i)[k - 1] == x);
    }
}

/// With three tiles or more of each of the three dragons, three dragon
/// faces hold triplets.
proof fn lemma_three_dragon_pons(s: Seq<Tile>)
    requires
        face_count(s, TileSuit::Dragon, 1) >= 3,
        face_count(s, TileSuit::Dragon, 2) >= 3,
        face_count(s, TileSuit::Dragon, 3) >= 3,
    ensures
        pons_of_suit(s, TileSuit::Dragon) >= 3,
{
    let p = triplet_of_suit(s, TileSuit::Dragon);
    let f1 = (TileSuit::Dragon, 1u8);
    let f2 = (TileSuit::Dragon, 2u8);
    let f3 = (TileSuit::Dragon, 3u8);
    lemma_face_count_bounds(s, TileSuit::Dragon, 1);
    lemma_face_count_bounds(s, TileSuit::Dragon, 2);
    lemma_face_count_bounds(s, TileSuit::Dragon, 3);
    lemma_face_table(s);
    let t1 = face_table(s);
    assert(t1.contains(f1) && t1.contains(f2) && t1.contains(f3));
    let i1 = choose|i: int| 0 <= i < t1.len() && t1[i] == f1;
    lemma_count_where_remove(t1, i1, p);
    let t2 = t1.remove(i1);
    lemma_remove_keeps(t1, i1, f2);
    lemma_remove_keeps(t1, i1, f3);
    let i2 = choose|i: int| 0 <= i < t2.len() && t2[i] == f2;
    lemma_count_where_remove(t2, i2, p);
    let t3 = t2.remove(i2);
    lemma_remove_keeps(t2, i2, f3);
    let i3 = choose|i: int| 0 <= i < t3.len() && t3[i] == f3;
    lemma_count_where_remove(t3, i3, p);
}

/// The only pattern with the id of `y` is `y` itself.
pub open spec fn unique_id(y: Yaku) -> bool {
    forall|z: Yaku| yaku_id(z) == yaku_id(y) ==> z == y
}

/// A found pattern whose id no other pattern has is also reported.
proof fn lemma_found_reported(s: Seq<Tile>, y: Yaku)
    requires
        unique_id(y),
        found_yaku(s).contains(y),
    ensures
        reported_yaku(s).contains(y),
{
    let f = found_yaku(s);
    lemma_with_fan_has(f, yaku_fan(y), y);
    let w13 = with_fan(f, 13);
    let w6 = with_fan(f, 6);
    let w4 = with_fan(f, 4);
    let w3 = with_fan(f, 3);
    let w2 = with_fan(f, 2);
    let w1 = with_fan(f, 1);
    lemma_concat_contains(w13, w6, y);
    lemma_concat_contains(w13 + w6, w4, y);
    lemma_concat_contains(w13 + w6 + w4, w3, y);
    lemma_concat_contains(w13 + w6 + w4 + w3, w2, y);
    lemma_concat_contains(w13 + w6 + w4 + w3 + w2, w1, y);
    assert(by_fan_desc(f).contains(y));
    lemma_dedup_keeps(by_fan_desc(f), y);
}

/// Little three dragons, big three dragons, little four winds and big four
/// winds are each reported exactly when their condition holds: two dragon
/// faces with triplets and a dragon pair; three dragon faces with
/// triplets; three wind faces with triplets and a wind pair; four wind
/// faces with triplets.
pub proof fn law_honor_sets_reported(s: Seq<Tile>, y: Yaku)
    requires
        honor_set_pattern(y),
    ensures
        reported_yaku(s).contains(y) <==> ({
            let dp = pons_of_suit(s, TileSuit::Dragon);
            let wp = pons_of_suit(s, TileSuit::Wind);
            let dpair = face_count(s, TileSuit::Dragon, 1) == 2 || face_count(s, TileSuit::Dragon, 2) == 2
                || face_count(s, TileSuit::Dragon, 3) == 2;
            let wpair = face_count(s, TileSuit::Wind, 1) == 2 || face_count(s, TileSuit::Wind, 2) == 2
                || face_count(s, TileSuit::Wind, 3) == 2 || face_count(s, TileSuit::Wind, 4) == 2;
            ||| y == Yaku::Shousangen && dp >= 2 && dpair
            ||| y == Yaku::Daisangen && dp >= 3
            ||| y == Yaku::Shousuushii && wp >= 3 && wpair
            ||| y == Yaku::Daisuushii && wp >= 4
        }),
{
    lemma_honor_set_contents(s, y);
    if reported_yaku(s).contains(y) {
        lemma_reported_found(s, y);
        lemma_honor_set_source(s, y);
    }
    if honor_set_yaku(s).contains(y) {
        lemma_concat_contains(value_triplet_yaku(s), honor_set_yaku(s), y);
        lemma_concat_contains(value_triplet_yaku(s) + honor_set_yaku(s), honor_tiles_yaku(s), y);
        let c = common_yaku(s);
        let su = suit_yaku(s);
        let h = honor_yaku(s);
        let sp = special_yaku(s);
        lemma_concat_contains(c + su, h, y);
        lemma_concat_contains(c + su + h, sp, y);
        assert forall|z: Yaku| yaku_id(z) == yaku_id(y) implies z == y by {
            lemma_honor_set_id(z, y);
        }
        lemma_found_reported(s, y);
    }
}

/// Big three dragons is reported exactly when three different dragon faces
/// each have three tiles or more; for a play whose tiles all show existing
/// faces, exactly when it holds three tiles or more of each of the white,
/// green and red dragons.
pub proof fn law_big_three_dragons_exact(s: Seq<Tile>)
    ensures
        face_count(s, TileSuit::Dragon, 1) >= 3 && face_count(s, TileSuit::Dragon, 2) >= 3
            && face_count(s, TileSuit::Dragon, 3) >= 3 ==> reported_yaku(s).contains(Yaku::Daisangen),
        (forall|i: int| 0 <= i < s.len() ==> face_exists((#[trigger] s[i]).suit, s[i].rank)) ==> (
        reported_yaku(s).contains(Yaku::Daisangen) <==> face_count(s, TileSuit::Dragon, 1) >= 3
            && face_count(s, TileSuit::Dragon, 2) >= 3 && face_count(s, TileSuit::Dragon, 3) >= 3),
{
    law_big_three_dragons(s);
    if face_count(s, TileSuit::Dragon, 1) >= 3 && face_count(s, TileSuit::Dragon, 2) >= 3
        && face_count(s, TileSuit::Dragon, 3) >= 3 {
        lemma_three_dragon_pons(s);
        law_honor_sets_reported(s, Yaku::Daisangen);
    }
}

/// Four wind triplets among the faces are four different wind ranks, each
/// with three tiles or more.
proof fn lemma_four_wind_faces(s: Seq<Tile>) -> (r: (u8, u8, u8, u8))
    requires
        pons_of_suit(s, TileSuit::Wind) >= 4,
    ensures
        r.0 < r.1 < r.2 < r.3,
        face_count(s, TileSuit::Wind, r.0) >= 3,
        face_count(s, TileSuit::Wind, r.1) >= 3,
        face_count(s, TileSuit::Wind, r.2) >= 3,
        face_count(s, TileSuit::Wind, r.3) >= 3,
{
    let p = triplet_of_suit(s, TileSuit::Wind);
    let t1 = face_table(s);
    lemma_face_table(s);
    let i1 = lemma_count_where_pos(t1, p);
    lemma_count_where_remove(t1, i1, p);
    lemma_remove_nodup(t1, i1);
    let t2 = t1.remove(i1);
    let i2 = lemma_count_where_pos(t2, p);
    lemma_count_where_remove(t2, i2, p);
    lemma_remove_nodup(t2, i2);
    let t3 = t2.remove(i2);
    let i3 = lemma_count_where_pos(t3, p);
    lemma_count_where_remove(t3, i3, p);
    lemma_remove_nodup(t3, i3);
    let t4 = t3.remove(i3);
    let i4 = lemma_count_where_pos(t4, p);
    let e1 = t1[i1];
    let e2 = t2[i2];
    let e3 = t3[i3];
    let e4 = t4[i4];
    assert(t2.contains(e2) && t3.contains(e3) && t4.contains(e4));
    assert(t3.contains(e4) && t2.contains(e4) && t2.contains(e3));
    assert(e1 != e2 && e1 != e3 && e1 != e4 && e2 != e3 && e2 != e4 && e3 != e4);
    assert(e1.0 == TileSuit::Wind && e2.0 == TileSuit::Wind && e3.0 == TileSuit::Wind && e4.0
        == TileSuit::Wind);
    let a = e1.1;
    let b = e2.1;
    let c = e3.1;
    let d = e4.1;
    // Sort the four distinct ranks.
    let lo1 = if a < b { a } else { b };
    let hi1 = if a < b { b } else { a };
    let lo2 = if c < d { c } else { d };
    let hi2 = if c < d { d } else { c };
    let r0 = if lo1 < lo2 { lo1 } else { lo2 };
    let r3 = if hi1 < hi2 { hi2 } else { hi1 };
    let m1 = if lo1 < lo2 { lo2 } else { lo1 };
    let m2 = if hi1 < hi2 { hi1 } else { hi2 };
    let r1 = if m1 < m2 { m1 } else { m2 };
    let r2 = if m1 < m2 { m2 } else { m1 };
    (r0, r1, r2, r3)
}

/// With three tiles or more of each of the four winds, four wind faces
/// hold triplets.
proof fn lemma_four_wind_pons(s: Seq<Tile>)
    requires
        face_count(s, TileSuit::Wind, 1) >= 3,
        face_count(s, TileSuit::Wind, 2) >= 3,
        face_count(s, TileSuit::Wind, 3) >= 3,
        face_count(s, TileSuit::Wind, 4) >= 3,
    ensures
        pons_of_suit(s, TileSuit::Wind) >= 4,
{
    let p = triplet_of_suit(s, TileSuit::Wind);
    let f1 = (TileSuit::Wind, 1u8);
    let f2 = (TileSuit::Wind, 2u8);
    let f3 = (TileSuit::Wind, 3u8);
    let f4 = (TileSuit::Wind, 4u8);
    lemma_face_count_bounds(s, TileSuit::Wind, 1);
    lemma_face_count_bounds(s, TileSuit::Wind, 2);
    lemma_face_count_bounds(s, TileSuit::Wind, 3);
    lemma_face_count_bounds(s, TileSuit::Wind, 4);
    lemma_face_table(s);
    let t1 = face_table(s);
    assert(t1.contains(f1) && t1.contains(f2) && t1.contains(f3) && t1.contains(f4));
    let i1 = choose|i: int| 0 <= i < t1.len() && t1[i] == f1;
    lemma_count_where_remove(t1, i1, p);
    let t2 = t1.remove(i1);
    lemma_remove_keeps(t1, i1, f2);
    lemma_remove_keeps(t1, i1, f3);
    lemma_remove_keeps(t1, i1, f4);
    let i2 = choose|i: int| 0 <= i < t2.len() && t2[i] == f2;
    lemma_count_where_remove(t2, i2, p);
    let t3 = t2.remove(i2);
    lemma_remove_keeps(t2, i2, f3);
    lemma_remove_keeps(t2, i2, f4);
    let i3 = choose|i: int| 0 <= i < t3.len() && t3[i] == f3;
    lemma_count_where_remove(t3, i3, p);
    let t4 = t3.remove(i3);
    lemma_remove_keeps(t3, i3, f4);
    let i4 = choose|i: int| 0 <= i < t4.len() && t4[i] == f4;
    lemma_count_where_remove(t4, i4, p);
}

/// Big four winds is reported exactly when four different wind faces each
/// have three tiles or more; for a play whose tiles all show existing
/// faces, exactly when it holds three tiles or more of each of the east,
/// south, west and north winds.
pub proof fn law_big_four_winds(s: Seq<Tile>)
    ensures
        reported_yaku(s).contains(Yaku::Daisuushii) ==> exists|r1: u8, r2: u8, r3: u8, r4: u8|
            #![trigger face_count(s, TileSuit::Wind, r1), face_count(s, TileSuit::Wind, r2), face_count(s, TileSuit::Wind, r3), face_count(s, TileSuit::Wind, r4)]
            r1 < r2 < r3 < r4 && face_count(s, TileSuit::Wind, r1) >= 3 && face_count(s, TileSuit::Wind, r2)
                >= 3 && face_count(s, TileSuit::Wind, r3) >= 3 && face_count(s, TileSuit::Wind, r4) >= 3,
        face_count(s, TileSuit::Wind, 1) >= 3 && face_count(s, TileSuit::Wind, 2) >= 3 && face_count(
            s,
            TileSuit::Wind,
            3,
        ) >= 3 && face_count(s, TileSuit::Wind, 4) >= 3 ==> reported_yaku(s).contains(Yaku::Daisuushii),
        (forall|i: int| 0 <= i < s.len() ==> face_exists((#[trigger] s[i]).suit, s[i].rank)) ==> (
        reported_yaku(s).contains(Yaku::Daisuushii) <==> face_count(s, TileSuit::Wind, 1) >= 3
            && face_count(s, TileSuit::Wind, 2) >= 3 && face_count(s, TileSuit::Wind, 3) >= 3
            && face_count(s, TileSuit::Wind, 4) >= 3),
{
    law_honor_sets_reported(s, Yaku::Daisuushii);
    if face_count(s, TileSuit::Wind, 1) >= 3 && face_count(s, TileSuit::Wind, 2) >= 3 && face_count(
        s,
        TileSuit::Wind,
        3,
    ) >= 3 && face_count(s, TileSuit::Wind, 4) >= 3 {
        lemma_four_wind_pons(s);
    }
    if reported_yaku(s).contains(Yaku::Daisuushii) {
        let (a, b, c, d) = lemma_four_wind_faces(s);
        assert(face_count(s, TileSuit::Wind, a) >= 3 && face_count(s, TileSuit::Wind, b) >= 3
            && face_count(s, TileSuit::Wind, c) >= 3 && face_count(s, TileSuit::Wind, d) >= 3);
        if forall|i: int| 0 <= i < s.len() ==> face_exists((#[trigger] s[i]).suit, s[i].rank) {
            assert forall|r: u8| face_count(s, TileSuit::Wind, r) > 0 implies 1 <= r <= 4 by {
                lemma_face_count_bounds(s, TileSuit::Wind, r);
                let i = choose|i: int| 0 <= i < s.len() && #[trigger] shows(s[i], TileSuit::Wind, r);
                assert(face_exists(s[i].suit, s[i].rank));
            }
            assert(1 <= a && d <= 4);
        }
    }
}

/// The honor-set check finds no value triplet.
proof fn lemma_honor_set_lacks_value(s: Seq<Tile>, y: Yaku)
    requires
        y is DragonPon || y is WindPon,
    ensures
        !honor_set_yaku(s).contains(y),
{
    reveal(honor_set_yaku);
    let dp = pons_of_suit(s, TileSuit::Dragon);
    let wp = pons_of_suit(s, TileSuit::Wind);
    let dpair = face_count(s, TileSuit::Dragon, 1) == 2 || face_count(s, TileSuit::Dragon, 2) == 2
        || face_count(s, TileSuit::Dragon, 3) == 2;
    let wpair = face_count(s, TileSuit::Wind, 1) == 2 || face_count(s, TileSuit::Wind, 2) == 2
        || face_count(s, TileSuit::Wind, 3) == 2 || face_count(s, TileSuit::Wind, 4) == 2;
    let h1 = when(dp >= 2 && dpair, Yaku::Shousangen);
    let h2 = when(dp >= 3, Yaku::Daisangen);
    let h3 = when(wp >= 3 && wpair, Yaku::Shousuushii);
    let h4 = when(wp >= 4, Yaku::Daisuushii);
    assert(honor_set_yaku(s) == h1 + h2 + h3 + h4);
    lemma_concat_contains(h1 + h2 + h3, h4, y);
    lemma_concat_contains(h1 + h2, h3, y);
    lemma_concat_contains(h1, h2, y);
    lemma_when_contains(dp >= 2 && dpair, Yaku::Shousangen, y);
    lemma_when_contains(dp >= 3, Yaku::Daisangen, y);
    lemma_when_contains(wp >= 3 && wpair, Yaku::Shousuushii, y);
    lemma_when_contains(wp >= 4, Yaku::Daisuushii, y);
}

/// What the value-triplet check finds: a dragon triplet of ranks 1-3 and a
/// wind triplet of ranks 1-4, each when its face has three tiles or more.
proof fn lemma_value_triplet_contents(s: Seq<Tile>, r: u8)
    ensures
        value_triplet_yaku(s).contains(Yaku::DragonPon(r)) <==> 1 <= r <= 3 && face_count(
            s,
            TileSuit::Dragon,
            r,
        ) >= 3,
        value_triplet_yaku(s).contains(Yaku::WindPon(r)) <==> 1 <= r <= 4 && face_count(
            s,
            TileSuit::Wind,
            r,
        ) >= 3,
{
    reveal(value_triplet_yaku);
    let d1 = when(face_count(s, TileSuit::Dragon, 1) >= 3, Yaku::DragonPon(1));
    let d2 = when(face_count(s, TileSuit::Dragon, 2) >= 3, Yaku::DragonPon(2));
    let d3 = when(face_count(s, TileSuit::Dragon, 3) >= 3, Yaku::DragonPon(3));
    let x1 = when(face_count(s, TileSuit::Wind, 1) >= 3, Yaku::WindPon(1));
    let x2 = when(face_count(s, TileSuit::Wind, 2) >= 3, Yaku::WindPon(2));
    let x3 = when(face_count(s, TileSuit::Wind, 3) >= 3, Yaku::WindPon(3));
    let x4 = when(face_count(s, TileSuit::Wind, 4) >= 3, Yaku::WindPon(4));
    assert(value_triplet_yaku(s) == d1 + d2 + d3 + x1 + x2 + x3 + x4);
    let parts = seq![d1, d2, d3, x1, x2, x3, x4];
    let conds = seq![
        face_count(s, TileSuit::Dragon, 1) >= 3,
        face_count(s, TileSuit::Dragon, 2) >= 3,
        face_count(s, TileSuit::Dragon, 3) >= 3,
        face_count(s, TileSuit::Wind, 1) >= 3,
        face_count(s, TileSuit::Wind, 2) >= 3,
        face_count(s, TileSuit::Wind, 3) >= 3,
        face_count(s, TileSuit::Wind, 4) >= 3,
    ];
    let ys = seq![
        Yaku::DragonPon(1),
        Yaku::DragonPon(2),
        Yaku::DragonPon(3),
        Yaku::WindPon(1),
        Yaku::WindPon(2),
        Yaku::WindPon(3),
        Yaku::WindPon(4),
    ];
    let yd = Yaku::DragonPon(r);
    let yw = Yaku::WindPon(r);
    lemma_concat_contains(d1 + d2 + d3 + x1 + x2 + x3, x4, yd);
    lemma_concat_contains(d1 + d2 + d3 + x1 + x2, x3, yd);
    lemma_concat_contains(d1 + d2 + d3 + x1, x2, yd);
    lemma_concat_contains(d1 + d2 + d3, x1, yd);
    lemma_concat_contains(d1 + d2, d3, yd);
    lemma_concat_contains(d1, d2, yd);
    lemma_concat_contains(d1 + d2 + d3 + x1 + x2 + x3, x4, yw);
    lemma_concat_contains(d1 + d2 + d3 + x1 + x2, x3, yw);
    lemma_concat_contains(d1 + d2 + d3 + x1, x2, yw);
    lemma_concat_contains(d1 + d2 + d3, x1, yw);
    lemma_concat_contains(d1 + d2, d3, yw);
    lemma_concat_contains(d1, d2, yw);
    assert forall|k: int| 0 <= k < 7 implies ((#[trigger] parts[k]).contains(yd) <==> conds[k] && ys[k] == yd)
        && (parts[k].contains(yw) <==> conds[k] && ys[k] == yw) by {
        lemma_when_contains(conds[k], ys[k], yd);
        lemma_when_contains(conds[k], ys[k], yw);
        if conds[k] {
            assert(parts[k][0] == ys[k]);
        }
    }
    assert(parts[0] == d1 && parts[1] == d2 && parts[2] == d3 && parts[3] == x1 && parts[4] == x2
        && parts[5] == x3 && parts[6] == x4);
}

/// A value triplet is found only by the value-triplet check.
proof fn lemma_value_triplet_source(s: Seq<Tile>, y: Yaku)
    requires
        y is DragonPon || y is WindPon,
        found_yaku(s).contains(y),
    ensures
        value_triplet_yaku(s).contains(y),
{
    let c = common_yaku(s);
    let su = suit_yaku(s);
    let h = honor_yaku(s);
    let sp = special_yaku(s);
    lemma_concat_contains(c + su + h, sp, y);
    lemma_concat_contains(c + su, h, y);
    lemma_concat_contains(c, su, y);
    lemma_concat_contains(value_triplet_yaku(s) + honor_set_yaku(s), honor_tiles_yaku(s), y);
    lemma_concat_contains(value_triplet_yaku(s), honor_set_yaku(s), y);
    lemma_common_lacks_honor_set(s, y);
    lemma_suit_lacks_honor_set(s, y);
    lemma_honor_set_lacks_value(s, y);
    lemma_honor_tiles_lack_honor_set(s, y);
    lemma_special_lacks_honor_set(s, y);
}

proof fn lemma_decimal_len(n: nat)
    ensures
        decimal(n).len() >= 1,
        n >= 10 ==> decimal(n).len() >= 2,
        n < 10 ==> decimal(n) == seq![digit_char(n)],
    decreases n,
{
    if n >= 10 {
        lemma_decimal_len(n / 10);
    }
}

/// No other pattern shares the id of a dragon triplet of ranks 1-3 or a
/// wind triplet of ranks 1-4.
proof fn lemma_value_triplet_id(z: Yaku, y: Yaku)
    requires
        (y is DragonPon && 1 <= y->DragonPon_0 <= 3) || (y is WindPon && 1 <= y->WindPon_0 <= 4),
    ensures
        yaku_id(z) == yaku_id(y) ==> z == y,
{
    reveal_strlit("yakuhai_dragon_");
    reveal_strlit("yakuhai_wind_");
    if yaku_id(z) == yaku_id(y) {
        let r: u8 = match y {
            Yaku::DragonPon(r) => r,
            Yaku::WindPon(r) => r,
            _ => 0,
        };
        lemma_decimal_len(r as nat);
        assert(yaku_id(z).len() == yaku_id(y).len());
        assert(yaku_id(z)[0] == yaku_id(y)[0]);
        assert(yaku_id(z)[8] == yaku_id(y)[8]);
        assert(yaku_id(y)[0] == 'y');
        match z {
            Yaku::Tanyao => { reveal_strlit("tanyao"); },
            Yaku::Chanta => { reveal_strlit("chanta"); },
            Yaku::Toitoi => { reveal_strlit("toitoi"); },
            Yaku::Sanshoku => { reveal_strlit("sanshoku"); },
            Yaku::Ittsu => { reveal_strlit("ittsu"); },
            Yaku::Chiitoitsu => { reveal_strlit("chiitoitsu"); },
            Yaku::Honitsu => { reveal_strlit("honitsu"); },
            Yaku::Chinitsu => { reveal_strlit("chinitsu"); },
            Yaku::Ryuuiisou => { reveal_strlit("ryuuiisou"); },
            Yaku::DragonPon(q) => {
                lemma_decimal_len(q as nat);
                assert(yaku_id(y)[8] == 'd');
                assert(y is DragonPon);
                assert(yaku_id(z)[15] == yaku_id(y)[15]);
                assert(yaku_id(z)[15] == decimal(q as nat)[0]);
                assert(yaku_id(y)[15] == decimal(r as nat)[0]);
            },
            Yaku::WindPon(q) => {
                lemma_decimal_len(q as nat);
                assert(yaku_id(y)[8] == 'w');
                assert(y is WindPon);
                assert(yaku_id(z)[13] == yaku_id(y)[13]);
                assert(yaku_id(z)[13] == decimal(q as nat)[0]);
                assert(yaku_id(y)[13] == decimal(r as nat)[0]);
            },
            Yaku::Shousangen => { reveal_strlit("shousangen"); },
            Yaku::Daisangen => { reveal_strlit("daisangen"); },
            Yaku::Shousuushii => { reveal_strlit("shousuushii"); },
            Yaku::Daisuushii => { reveal_strlit("daisuushii"); },
            Yaku::Tsuuiisou => { reveal_strlit("tsuuiisou"); },
            Yaku::Chinroutou => { reveal_strlit("chinroutou"); },
            Yaku::Honroutou => { reveal_strlit("honroutou"); },
            Yaku::Kokushi => { reveal_strlit("kokushi"); },
            Yaku::Suuankou => { reveal_strlit("suuankou"); },
            Yaku::Sanankou => { reveal_strlit("sanankou"); },
            Yaku::Suukantsu => { reveal_strlit("suukantsu"); },
            Yaku::Sankantsu => { reveal_strlit("sankantsu"); },
            Yaku::Chuuren => { reveal_strlit("chuuren"); },
            Yaku::Ryanpeikou => { reveal_strlit("ryanpeikou"); },
            Yaku::Iipeikou => { reveal_strlit("iipeikou"); },
        }
    }
}

/// A dragon triplet is reported exactly for a dragon of rank 1-3 with
/// three tiles or more in the play, and a wind triplet exactly for a wind
/// of rank 1-4 with three tiles or more.
pub proof fn law_value_triplets_reported(s: Seq<Tile>, r: u8)
    ensures
        reported_yaku(s).contains(Yaku::DragonPon(r)) <==> 1 <= r <= 3 && face_count(
            s,
            TileSuit::Dragon,
            r,
        ) >= 3,
        reported_yaku(s).contains(Yaku::WindPon(r)) <==> 1 <= r <= 4 && face_count(
            s,
            TileSuit::Wind,
            r,
        ) >= 3,
{
    lemma_value_triplet_contents(s, r);
    let yd = Yaku::DragonPon(r);
    let yw = Yaku::WindPon(r);
    if reported_yaku(s).contains(yd) {
        lemma_reported_found(s, yd);
        lemma_value_triplet_source(s, yd);
    }
    if reported_yaku(s).contains(yw) {
        lemma_reported_found(s, yw);
        lemma_value_triplet_source(s, yw);
    }
    let c = common_yaku(s);
    let su = suit_yaku(s);
    let h = honor_yaku(s);
    let sp = special_yaku(s);
    if value_triplet_yaku(s).contains(yd) {
        lemma_concat_contains(value_triplet_yaku(s), honor_set_yaku(s), yd);
        lemma_concat_contains(value_triplet_yaku(s) + honor_set_yaku(s), honor_tiles_yaku(s), yd);
        lemma_concat_contains(c + su, h, yd);
        lemma_concat_contains(c + su + h, sp, yd);
        assert forall|z: Yaku| yaku_id(z) == yaku_id(yd) implies z == yd by {
            lemma_value_triplet_id(z, yd);
        }
        lemma_found_reported(s, yd);
    }
    if value_triplet_yaku(s).contains(yw) {
        lemma_concat_contains(value_triplet_yaku(s), honor_set_yaku(s), yw);
        lemma_concat_contains(value_triplet_yaku(s) + honor_set_yaku(s), honor_tiles_yaku(s), yw);
        lemma_concat_contains(c + su, h, yw);
        lemma_concat_contains(c + su + h, sp, yw);
        assert forall|z: Yaku| yaku_id(z) == yaku_id(yw) implies z == yw by {
            lemma_value_triplet_id(z, yw);
        }
        lemma_found_reported(s, yw);
    }
}

} // verus!
