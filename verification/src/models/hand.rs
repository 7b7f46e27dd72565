//! Melds, plays, and the check that a selection of tiles forms a legal play.

use vstd::prelude::*;

use crate::models::faces::{count_face, face_count, has_face, lemma_face_count_bounds};
use crate::models::split::{all_zero, count_keys, counts_of, counts_ok, counts_view, drop_key, face_key, find_split, group_need, group_ok, is_meld_kind, key_count, lemma_all_zero_empty, lemma_face_key_same, lemma_lowest_split, lemma_plan_groups, lemma_take_group, lemma_take_key, lowest_split, plan_counts, plan_fits, plan_groups, plan_kinds_ok, plan_rest, plan_view, splits, take_counts, take_group_tiles, take_key};
use crate::models::tile::{Tile, TileSuit, is_numbered_suit, numbered};
use crate::text::{decimal, decimal_string};

verus! {

#[derive(Clone, Copy, Debug, PartialEq, Eq, Hash, Structural)]
pub enum MeldKind {
    /// Sequence: 3 consecutive tiles of one numbered suit.
    Chi,
    /// Triplet: 3 tiles of one face.
    Pon,
    /// Quad: 4 tiles of one face.
    Kan,
    /// Pair: 2 tiles of one face.
    Pair,
}

#[derive(Clone, Debug)]
pub struct Meld {
    pub kind: MeldKind,
    pub tiles: Vec<Tile>,
}

/// A single play submission: melds and an optional pair.
#[derive(Clone, Debug)]
pub struct Play {
    pub melds: Vec<Meld>,
    pub pair: Option<Meld>,
}

/// A meld seen as its kind and its tiles.
pub open spec fn meld_view(m: Meld) -> (MeldKind, Seq<Tile>) {
    (m.kind, m.tiles@)
}

pub open spec fn melds_view(ms: Seq<Meld>) -> Seq<(MeldKind, Seq<Tile>)> {
    ms.map_values(|m: Meld| meld_view(m))
}

/// All tiles of a list of melds, meld by meld.
pub open spec fn melds_tiles(ms: Seq<Meld>) -> Seq<Tile>
    decreases ms.len(),
{
    if ms.len() == 0 {
        seq![]
    } else {
        melds_tiles(ms.drop_last()) + ms.last().tiles@
    }
}

/// `p` has exactly these melds (kind and tiles, in order) and this pair.
pub open spec fn play_shape(
    p: Play,
    melds: Seq<(MeldKind, Seq<Tile>)>,
    pair: Option<Seq<Tile>>,
) -> bool {
    &&& melds_view(p.melds@) == melds
    &&& match pair {
        None => p.pair is None,
        Some(t) => p.pair matches Some(m) && m.kind == MeldKind::Pair && m.tiles@ == t,
    }
}

impl Meld {
    pub fn new(kind: MeldKind, tiles: Vec<Tile>) -> (m: Self)
        ensures
            m.kind == kind,
            m.tiles == tiles,
    {
        Meld { kind, tiles }
    }

    pub fn tile_count(&self) -> (n: usize)
        ensures
            n == self.tiles@.len(),
    {
        self.tiles.len()
    }
}

impl Play {
    /// Every tile of the play: the melds' tiles in order, then the pair's.
    pub open spec fn tiles_seq(self) -> Seq<Tile> {
        melds_tiles(self.melds@) + match self.pair {
            Some(p) => p.tiles@,
            None => seq![],
        }
    }

    pub fn new(melds: Vec<Meld>, pair: Option<Meld>) -> (p: Self)
        ensures
            p.melds == melds,
            p.pair == pair,
    {
        Play { melds, pair }
    }

    pub fn all_tiles(&self) -> (tiles: Vec<&Tile>)
        ensures
            tiles@.len() == self.tiles_seq().len(),
            forall|i: int| 0 <= i < tiles@.len() ==> *#[trigger] tiles@[i] == self.tiles_seq()[i],
    {
        let mut tiles: Vec<&Tile> = Vec::new();
        let mut k: usize = 0;
        while k < self.melds.len()
            invariant
                k <= self.melds@.len(),
                tiles@.len() == melds_tiles(self.melds@.take(k as int)).len(),
                forall|i: int|
                    0 <= i < tiles@.len() ==> *#[trigger] tiles@[i] == melds_tiles(
                        self.melds@.take(k as int),
                    )[i],
            decreases self.melds@.len() - k,
        {
            let meld = &self.melds[k];
            let ghost before = melds_tiles(self.melds@.take(k as int));
            let mut j: usize = 0;
            while j < meld.tiles.len()
                invariant
                    j <= meld.tiles@.len(),
                    tiles@.len() == before.len() + j,
                    forall|i: int| 0 <= i < before.len() ==> *#[trigger] tiles@[i] == before[i],
                    forall|i: int|
                        before.len() <= i < tiles@.len() ==> *#[trigger] tiles@[i]
                            == meld.tiles@[i - before.len()],
                decreases meld.tiles@.len() - j,
            {
                tiles.push(&meld.tiles[j]);
                j = j + 1;
            }
            proof {
                assert(self.melds@.take(k + 1).drop_last() =~= self.melds@.take(k as int));
            }
            k = k + 1;
        }
        assert(self.melds@.take(k as int) =~= self.melds@);
        let ghost before = melds_tiles(self.melds@);
        if let Some(pair) = &self.pair {
            let mut j: usize = 0;
            while j < pair.tiles.len()
                invariant
                    j <= pair.tiles@.len(),
                    tiles@.len() == before.len() + j,
                    forall|i: int| 0 <= i < before.len() ==> *#[trigger] tiles@[i] == before[i],
                    forall|i: int|
                        before.len() <= i < tiles@.len() ==> *#[trigger] tiles@[i]
                            == pair.tiles@[i - before.len()],
                decreases pair.tiles@.len() - j,
            {
                tiles.push(&pair.tiles[j]);
                j = j + 1;
            }
        }
        tiles
    }

    pub fn total_tile_count(&self) -> (n: usize)
        requires
            self.tiles_seq().len() <= usize::MAX,
        ensures
            n == self.tiles_seq().len(),
    {
        let mut count: usize = 0;
        let mut k: usize = 0;
        proof {
            lemma_melds_tiles_prefix_len(self.melds@, self.melds@.len() as int);
            assert(self.melds@.take(self.melds@.len() as int) =~= self.melds@);
        }
        while k < self.melds.len()
            invariant
                k <= self.melds@.len(),
                count == melds_tiles(self.melds@.take(k as int)).len(),
                melds_tiles(self.melds@).len() <= usize::MAX,
                forall|n: int|
                    0 <= n <= self.melds@.len() ==> melds_tiles(self.melds@.take(n)).len()
                        <= melds_tiles(self.melds@).len(),
            decreases self.melds@.len() - k,
        {
            proof {
                assert(self.melds@.take(k + 1).drop_last() =~= self.melds@.take(k as int));
            }
            count = count + self.melds[k].tile_count();
            k = k + 1;
        }
        assert(self.melds@.take(k as int) =~= self.melds@);
        if let Some(pair) = &self.pair {
            count = count + pair.tile_count();
        }
        count
    }
}

proof fn lemma_melds_tiles_prefix_len(ms: Seq<Meld>, n: int)
    requires
        0 <= n <= ms.len(),
    ensures
        forall|k: int| 0 <= k <= n ==> melds_tiles(ms.take(k)).len() <= melds_tiles(ms.take(n)).len(),
    decreases n,
{
    if n > 0 {
        lemma_melds_tiles_prefix_len(ms, n - 1);
        assert(ms.take(n).drop_last() =~= ms.take(n - 1));
    }
    assert(ms.take(ms.len() as int) =~= ms);
}

// ---------------------------------------------------------------------------
// Meld shapes
// ---------------------------------------------------------------------------

pub open spec fn pair_shape(s: Seq<Tile>) -> bool {
    s.len() == 2 && s[0].same_kind(s[1])
}

pub open spec fn pon_shape(s: Seq<Tile>) -> bool {
    s.len() == 3 && s[0].same_kind(s[1]) && s[1].same_kind(s[2])
}

pub open spec fn kan_shape(s: Seq<Tile>) -> bool {
    s.len() == 4 && s[0].same_kind(s[1]) && s[1].same_kind(s[2]) && s[2].same_kind(s[3])
}

pub open spec fn min3(a: int, b: int, c: int) -> int {
    if a <= b && a <= c { a } else if b <= c { b } else { c }
}

pub open spec fn max3(a: int, b: int, c: int) -> int {
    if a >= b && a >= c { a } else if b >= c { b } else { c }
}

/// Three ranks that are m, m+1, m+2 in some order.
pub open spec fn consecutive3(a: int, b: int, c: int) -> bool {
    let lo = min3(a, b, c);
    let hi = max3(a, b, c);
    let mid = a + b + c - lo - hi;
    lo + 1 == mid && mid + 1 == hi
}

pub open spec fn chi_shape(s: Seq<Tile>) -> bool {
    &&& s.len() == 3
    &&& numbered(s[0].suit)
    &&& s[1].suit == s[0].suit
    &&& s[2].suit == s[0].suit
    &&& consecutive3(s[0].rank as int, s[1].rank as int, s[2].rank as int)
}

/// The meld kind that `is_meld` recognises: a 3-tile triplet (checked
/// first) or sequence, or a 4-tile quad.
pub open spec fn meld_kind_of(s: Seq<Tile>) -> Option<MeldKind> {
    if s.len() == 3 && pon_shape(s) {
        Some(MeldKind::Pon)
    } else if s.len() == 3 && chi_shape(s) {
        Some(MeldKind::Chi)
    } else if s.len() == 4 && kan_shape(s) {
        Some(MeldKind::Kan)
    } else {
        None
    }
}

/// Whether a meld's tiles fit its kind.
pub open spec fn meld_fits(kind: MeldKind, s: Seq<Tile>) -> bool {
    match kind {
        MeldKind::Chi => chi_shape(s),
        MeldKind::Pon => pon_shape(s),
        MeldKind::Kan => kan_shape(s),
        MeldKind::Pair => pair_shape(s),
    }
}

pub fn is_pair(tiles: &[Tile]) -> (b: bool)
    ensures
        b == pair_shape(tiles@),
{
    tiles.len() == 2 && tiles[0].same_type(&tiles[1])
}

pub fn is_meld(tiles: &[Tile]) -> (k: Option<MeldKind>)
    ensures
        k == meld_kind_of(tiles@),
{
    if tiles.len() == 3 {
        if is_pon(tiles) {
            return Some(MeldKind::Pon);
        }
        if is_chi(tiles) {
            return Some(MeldKind::Chi);
        }
    }
    if tiles.len() == 4 && is_kan(tiles) {
        return Some(MeldKind::Kan);
    }
    None
}

pub fn is_pon(tiles: &[Tile]) -> (b: bool)
    ensures
        b == pon_shape(tiles@),
{
    tiles.len() == 3 && tiles[0].same_type(&tiles[1]) && tiles[1].same_type(&tiles[2])
}

/// Three tiles of one numbered suit whose ranks, sorted, are consecutive.
pub fn is_chi(tiles: &[Tile]) -> (b: bool)
    ensures
        b == chi_shape(tiles@),
{
    if tiles.len() != 3 {
        return false;
    }
    let suit = tiles[0].suit;
    if !is_numbered_suit(suit) {
        return false;
    }
    if tiles[1].suit != suit || tiles[2].suit != suit {
        return false;
    }
    let mut r0 = tiles[0].rank;
    let mut r1 = tiles[1].rank;
    let mut r2 = tiles[2].rank;
    if r1 < r0 {
        let t = r0;
        r0 = r1;
        r1 = t;
    }
    if r2 < r1 {
        let t = r1;
        r1 = r2;
        r2 = t;
    }
    if r1 < r0 {
        let t = r0;
        r0 = r1;
        r1 = t;
    }
    (r0 as u16) + 1 == (r1 as u16) && (r1 as u16) + 1 == (r2 as u16)
}

pub fn is_kan(tiles: &[Tile]) -> (b: bool)
    ensures
        b == kan_shape(tiles@),
{
    tiles.len() == 4 && tiles[0].same_type(&tiles[1]) && tiles[1].same_type(&tiles[2])
        && tiles[2].same_type(&tiles[3])
}

// ---------------------------------------------------------------------------
// One meld and one pair (5 or 6 tiles)
// ---------------------------------------------------------------------------

/// `s` without the tiles at positions `i` and `j` (i < j), order kept.
pub open spec fn without_two(s: Seq<Tile>, i: int, j: int) -> Seq<Tile> {
    s.remove(j).remove(i)
}

/// Positions `i` < `j` hold a pair, and the other tiles form the meld that
/// a play of this size needs: any meld for 5 tiles, a quad for 6.
pub open spec fn meld_pair_split(s: Seq<Tile>, i: int, j: int) -> bool {
    &&& 0 <= i < j < s.len()
    &&& s[i].same_kind(s[j])
    &&& if s.len() == 5 {
        meld_kind_of(without_two(s, i, j)) is Some
    } else {
        without_two(s, i, j).len() == 4 && kan_shape(without_two(s, i, j))
    }
}

/// (i2, j2) comes before (i, j) in the order the positions are tried.
pub open spec fn tried_before(i2: int, j2: int, i: int, j: int) -> bool {
    i2 < i || (i2 == i && j2 < j)
}

/// (i, j) is the first split in trying order.
pub open spec fn first_split(s: Seq<Tile>, i: int, j: int) -> bool {
    &&& meld_pair_split(s, i, j)
    &&& forall|i2: int, j2: int| tried_before(i2, j2, i, j) ==> !meld_pair_split(s, i2, j2)
}

/// The play made from the split (i, j): the meld of the other tiles, and
/// the pair `s[i]`, `s[j]`.
pub open spec fn play_of_split(p: Play, s: Seq<Tile>, i: int, j: int) -> bool {
    let rest = without_two(s, i, j);
    let kind = if s.len() == 5 { meld_kind_of(rest).unwrap() } else { MeldKind::Kan };
    play_shape(p, seq![(kind, rest)], Some(seq![s[i], s[j]]))
}

/// What `validate_single_meld_play` gives for 5 or 6 tiles.
pub open spec fn single_meld_outcome(s: Seq<Tile>, r: Result<Play, String>) -> bool {
    match r {
        Ok(p) => exists|i: int, j: int| #[trigger] first_split(s, i, j) && play_of_split(p, s, i, j),
        Err(e) => (forall|i: int, j: int| !#[trigger] meld_pair_split(s, i, j))
            && e@ == "选中的牌无法组成合法的面子+对子组合"@,
    }
}

/// The tiles of `tiles` except those at positions `i` and `j`.
fn without_positions(tiles: &[Tile], i: usize, j: usize) -> (r: Vec<Tile>)
    requires
        i < j < tiles@.len(),
    ensures
        r@ == without_two(tiles@, i as int, j as int),
{
    let ghost s = tiles@;
    let mut r: Vec<Tile> = Vec::new();
    let mut k: usize = 0;
    while k < tiles.len()
        invariant
            i < j < s.len(),
            s == tiles@,
            k <= s.len(),
            r@ == if k <= i {
                s.take(k as int)
            } else if k <= j {
                s.take(i as int) + s.subrange(i + 1, k as int)
            } else {
                s.take(i as int) + s.subrange(i + 1, j as int) + s.subrange(j + 1, k as int)
            },
        decreases s.len() - k,
    {
        if k != i && k != j {
            r.push(tiles[k]);
        }
        proof {
            if k < i {
                assert(s.take(k + 1) =~= s.take(k as int).push(s[k as int]));
            } else if k == i {
                assert(s.take(i as int) + s.subrange(i + 1, k + 1) =~= s.take(i as int));
            } else if k < j {
                assert(s.subrange(i + 1, k + 1) =~= s.subrange(i + 1, k as int).push(s[k as int]));
            } else if k == j {
                assert(s.subrange(j + 1, k + 1) =~= Seq::<Tile>::empty());
                assert(s.take(i as int) + s.subrange(i + 1, j as int) + s.subrange(j + 1, k + 1)
                    =~= s.take(i as int) + s.subrange(i + 1, k as int));
            } else {
                assert(s.subrange(j + 1, k + 1) =~= s.subrange(j + 1, k as int).push(s[k as int]));
            }
        }
        k = k + 1;
    }
    assert(r@ =~= s.remove(j as int).remove(i as int));
    r
}

/// Looks for one meld and one pair among 5 tiles (any meld) or 6 tiles
/// (a quad), trying pair positions in order.
fn validate_single_meld_play(tiles: &[Tile]) -> (r: Result<Play, String>)
    requires
        tiles@.len() == 5 || tiles@.len() == 6,
    ensures
        single_meld_outcome(tiles@, r),
{
    let n = tiles.len();
    let ghost s = tiles@;
    let mut i: usize = 0;
    while i < n
        invariant
            n == s.len(),
            s == tiles@,
            n == 5 || n == 6,
            i <= n,
            forall|i2: int, j2: int| i2 < i ==> !#[trigger] meld_pair_split(s, i2, j2),
        decreases n - i,
    {
        let mut j: usize = i + 1;
        while j < n
            invariant
                n == s.len(),
                s == tiles@,
                n == 5 || n == 6,
                i < n,
                i + 1 <= j <= n,
                forall|i2: int, j2: int|
                    tried_before(i2, j2, i as int, j as int) ==> !#[trigger] meld_pair_split(
                        s,
                        i2,
                        j2,
                    ),
            decreases n - j,
        {
            if tiles[i].same_type(&tiles[j]) {
                let remaining = without_positions(tiles, i, j);
                if n == 5 {
                    if let Some(kind) = is_meld(remaining.as_slice()) {
                        let pair_tiles = vec![tiles[i], tiles[j]];
                        let meld = Meld::new(kind, remaining);
                        let melds = vec![meld];
                        let play = Play::new(melds, Some(Meld::new(MeldKind::Pair, pair_tiles)));
                        proof {
                            assert(melds_view(play.melds@) =~= seq![(kind, without_two(s, i as int, j as int))]);
                            assert(pair_tiles@ =~= seq![s[i as int], s[j as int]]);
                            assert(first_split(s, i as int, j as int));
                            assert(play_of_split(play, s, i as int, j as int));
                        }
                        return Ok(play);
                    }
                } else if remaining.len() == 4 && is_kan(remaining.as_slice()) {
                    let pair_tiles = vec![tiles[i], tiles[j]];
                    let meld = Meld::new(MeldKind::Kan, remaining);
                    let melds = vec![meld];
                    let play = Play::new(melds, Some(Meld::new(MeldKind::Pair, pair_tiles)));
                    proof {
                        assert(melds_view(play.melds@) =~= seq![(MeldKind::Kan, without_two(s, i as int, j as int))]);
                        assert(pair_tiles@ =~= seq![s[i as int], s[j as int]]);
                        assert(first_split(s, i as int, j as int));
                        assert(play_of_split(play, s, i as int, j as int));
                    }
                    return Ok(play);
                }
            }
            j = j + 1;
        }
        i = i + 1;
    }
    Err(String::from_str("选中的牌无法组成合法的面子+对子组合"))
}

// ---------------------------------------------------------------------------
// Full hands (14 tiles)
// ---------------------------------------------------------------------------

/// The counts split into a pair at key `p` and four triplets or
/// sequences.
pub open spec fn pair_and_melds(c: Seq<int>, p: int) -> bool {
    &&& 0 <= p < 1280
    &&& c[p] >= 2
    &&& splits(take_counts(c, MeldKind::Pair, p), 4)
}

/// Fourteen tiles that split into four triplets or sequences and a pair,
/// in whatever order they come.
pub open spec fn standard_hand(s: Seq<Tile>) -> bool {
    s.len() == 14 && exists|p: int| #[trigger] pair_and_melds(counts_of(s), p)
}

/// The lowest pair key from `i` on whose removal leaves four melds (1280
/// if none).
pub open spec fn first_pair_key(c: Seq<int>, i: int) -> int
    decreases 1280 - i,
{
    if i >= 1280 {
        1280
    } else if c[i] >= 2 && lowest_split(take_counts(c, MeldKind::Pair, i), 4) is Some {
        i
    } else {
        first_pair_key(c, i + 1)
    }
}

/// The standard reading of a hand: the pair of the lowest face that
/// leaves four melds, and the lowest split of the other tiles.
pub open spec fn standard_play(s: Seq<Tile>, p: Play) -> bool {
    let c = counts_of(s);
    let k = first_pair_key(c, 0);
    play_shape(
        p,
        plan_groups(drop_key(s, k, 2), lowest_split(take_counts(c, MeldKind::Pair, k), 4).unwrap()),
        Some(take_key(s, k, 2)),
    )
}

proof fn lemma_first_pair_key(c: Seq<int>, i: int)
    requires
        0 <= i <= 1280,
        c.len() == 1280,
    ensures
        i <= first_pair_key(c, i) <= 1280,
        forall|q: int|
            i <= q < first_pair_key(c, i) ==> !(c[q] >= 2 && lowest_split(
                take_counts(c, MeldKind::Pair, q),
                4,
            ) is Some),
        first_pair_key(c, i) < 1280 ==> c[first_pair_key(c, i)] >= 2 && lowest_split(
            take_counts(c, MeldKind::Pair, first_pair_key(c, i)),
            4,
        ) is Some,
    decreases 1280 - i,
{
    if i < 1280 && !(c[i] >= 2 && lowest_split(take_counts(c, MeldKind::Pair, i), 4) is Some) {
        lemma_first_pair_key(c, i + 1);
    }
}

/// A hand is standard exactly when some pair key leaves four melds; the
/// lowest such key is the one the reading takes.
pub proof fn lemma_standard_hand(s: Seq<Tile>)
    requires
        s.len() == 14,
    ensures
        standard_hand(s) <==> first_pair_key(counts_of(s), 0) < 1280,
        first_pair_key(counts_of(s), 0) < 1280 ==> pair_and_melds(counts_of(s), first_pair_key(counts_of(s), 0)),
{
    let c = counts_of(s);
    lemma_first_pair_key(c, 0);
    let k = first_pair_key(c, 0);
    if k < 1280 {
        lemma_counts_ok(s);
        lemma_take_ok_pair(c, k);
        lemma_lowest_split(take_counts(c, MeldKind::Pair, k), 4);
        assert(pair_and_melds(c, k));
    }
    if standard_hand(s) {
        let p = choose|p: int| #[trigger] pair_and_melds(c, p);
        lemma_counts_ok(s);
        lemma_take_ok_pair(c, p);
        lemma_lowest_split(take_counts(c, MeldKind::Pair, p), 4);
        if k > p {
            assert(!(c[p] >= 2 && lowest_split(take_counts(c, MeldKind::Pair, p), 4) is Some));
        }
    }
}

proof fn lemma_counts_ok(s: Seq<Tile>)
    ensures
        counts_ok(counts_of(s)),
{
}

proof fn lemma_take_ok_pair(c: Seq<int>, k: int)
    requires
        counts_ok(c),
        0 <= k < 1280,
        c[k] >= 2,
    ensures
        counts_ok(take_counts(c, MeldKind::Pair, k)),
{
    assert forall|j: int| 0 <= j < 1280 implies #[trigger] take_counts(c, MeldKind::Pair, k)[j] >= 0 by {}
}

/// The keys of `c` below `i` that hold exactly two tiles, as pairs, in
/// order.
pub open spec fn pair_keys(c: Seq<int>, i: int) -> Seq<(MeldKind, int)>
    decreases i,
{
    if i <= 0 {
        seq![]
    } else {
        pair_keys(c, i - 1) + if c[i - 1] == 2 {
            seq![(MeldKind::Pair, i - 1)]
        } else {
            seq![]
        }
    }
}

/// Takes the groups of `plan` from `tiles` in turn, as melds.
fn build_groups(tiles: Vec<Tile>, plan: &Vec<(MeldKind, usize)>) -> (melds: Vec<Meld>)
    requires
        forall|i: int| 0 <= i < plan@.len() ==> group_ok((#[trigger] plan@[i]).0, plan@[i].1 as int),
    ensures
        melds_view(melds@) == plan_groups(tiles@, plan_view(plan@)),
{
    let ghost s = tiles@;
    let ghost pv = plan_view(plan@);
    let mut rest = tiles;
    let mut melds: Vec<Meld> = Vec::new();
    let mut i: usize = 0;
    while i < plan.len()
        invariant
            i <= plan@.len(),
            pv == plan_view(plan@),
            forall|q: int| 0 <= q < plan@.len() ==> group_ok((#[trigger] plan@[q]).0, plan@[q].1 as int),
            rest@ == plan_rest(s, pv.take(i as int)),
            melds_view(melds@) == plan_groups(s, pv.take(i as int)),
        decreases plan@.len() - i,
    {
        proof {
            assert(pv.take(i + 1).drop_last() =~= pv.take(i as int));
            assert(pv.take(i + 1).last() == (plan@[i as int].0, plan@[i as int].1 as int));
        }
        let (kind, k) = plan[i];
        let (taken, left) = take_group_tiles(rest.as_slice(), kind, k);
        let ghost before = melds_view(melds@);
        let ghost tv = taken@;
        melds.push(Meld::new(kind, taken));
        proof {
            assert(melds_view(melds@) =~= before.push((kind, tv)));
        }
        rest = left;
        i = i + 1;
    }
    assert(pv.take(i as int) =~= pv);
    melds
}

/// Splits tiles, a multiple of three, into triplets and sequences: the
/// lowest split (at the lowest face left, a triplet if the rest splits,
/// else a sequence). There is one exactly when the tiles split at all,
/// whatever their order; each meld fits its kind and the melds hold
/// exactly the tiles.
fn try_decompose_melds(tiles: &[Tile]) -> (r: Option<Vec<Meld>>)
    requires
        tiles@.len() % 3 == 0,
    ensures
        match r {
            Some(ms) => lowest_split(counts_of(tiles@), (tiles@.len() / 3) as nat) matches Some(plan)
                && melds_view(ms@) == plan_groups(tiles@, plan),
            None => lowest_split(counts_of(tiles@), (tiles@.len() / 3) as nat) is None,
        },
        r is Some <==> splits(counts_of(tiles@), (tiles@.len() / 3) as nat),
        r matches Some(ms) ==> ms@.len() == tiles@.len() / 3 && melds_tiles(ms@).to_multiset()
            == tiles@.to_multiset() && forall|k: int|
            0 <= k < ms@.len() ==> ((#[trigger] ms@[k]).kind is Pon || ms@[k].kind is Chi) && meld_fits(
                ms@[k].kind,
                ms@[k].tiles@,
            ),
{
    let ghost s = tiles@;
    let ghost n = (s.len() / 3) as nat;
    let counts = count_keys(tiles);
    proof {
        lemma_counts_ok(s);
        lemma_lowest_split(counts_of(s), n);
    }
    match find_split(&counts, tiles.len() / 3) {
        Some(plan) => {
            let ghost pv = plan_view(plan@);
            proof {
                assert forall|i: int| 0 <= i < plan@.len() implies group_ok((#[trigger] plan@[i]).0, plan@[i].1 as int) by {
                    lemma_plan_fits_ok(counts_of(s), pv, i);
                }
            }
            let mut v: Vec<Tile> = Vec::new();
            let mut j: usize = 0;
            while j < tiles.len()
                invariant
                    j <= tiles@.len(),
                    v@ == tiles@.take(j as int),
                decreases tiles@.len() - j,
            {
                v.push(tiles[j]);
                j = j + 1;
            }
            assert(tiles@.take(j as int) =~= tiles@);
            let ms = build_groups(v, &plan);
            proof {
                assert(plan_kinds_ok(pv)) by {
                    assert forall|i: int| 0 <= i < pv.len() implies !((#[trigger] pv[i]).0 is Kan) by {
                        assert(is_meld_kind(pv[i].0));
                    }
                }
                lemma_plan_groups(s, pv);
                lemma_all_zero_empty(plan_rest(s, pv));
                let g = plan_groups(s, pv);
                assert(groups_tiles(g) + plan_rest(s, pv) =~= groups_tiles(g));
                lemma_melds_tiles_groups(ms@);
                assert(melds_view(ms@).len() == ms@.len());
                assert forall|k: int| 0 <= k < ms@.len() implies ((#[trigger] ms@[k]).kind is Pon || ms@[k].kind is Chi)
                    && meld_fits(ms@[k].kind, ms@[k].tiles@) by {
                    assert(melds_view(ms@)[k] == meld_view(ms@[k]));
                    assert(g[k].0 == pv[k].0);
                    assert(is_meld_kind(pv[k].0));
                }
            }
            Some(ms)
        },
        None => None,
    }
}

/// Every group of a plan that fits starts where a group can start.
proof fn lemma_plan_fits_ok(c: Seq<int>, plan: Seq<(MeldKind, int)>, i: int)
    requires
        plan_fits(c, plan),
        0 <= i < plan.len(),
    ensures
        group_ok(plan[i].0, plan[i].1),
    decreases plan.len(),
{
    if i < plan.len() - 1 {
        lemma_plan_fits_ok(c, plan.drop_last(), i);
        assert(plan.drop_last()[i] == plan[i]);
    }
}

/// Tries each face holding two tiles or more as the pair, lowest face
/// first, and splits the other 12 tiles.
fn try_standard_decomposition(tiles: &[Tile]) -> (r: Option<Play>)
    requires
        tiles@.len() == 14,
    ensures
        match r {
            Some(p) => standard_hand(tiles@) && standard_play(tiles@, p),
            None => !standard_hand(tiles@),
        },
{
    let ghost s = tiles@;
    let ghost c = counts_of(s);
    let counts = count_keys(tiles);
    proof {
        lemma_standard_hand(s);
        lemma_first_pair_key(c, 0);
    }
    let mut k: usize = 0;
    while k < 1280
        invariant
            k <= 1280,
            s == tiles@,
            s.len() == 14,
            c == counts_of(s),
            counts@.len() == 1280,
            counts_view(counts@) == c,
            forall|q: int|
                0 <= q < k ==> !(c[q] >= 2 && lowest_split(take_counts(c, MeldKind::Pair, q), 4) is Some),
        decreases 1280 - k,
    {
        if counts[k] >= 2 {
            let (pair_tiles, rest) = take_group_tiles(tiles, MeldKind::Pair, k);
            proof {
                assert(c[k as int] >= 2);
                assert(group_need(MeldKind::Pair, k as int, k as int) == 2);
                lemma_take_group(s, MeldKind::Pair, k as int);
                lemma_take_key(s, k as int, 2);
                (pair_tiles@ + rest@).to_multiset_ensures();
                s.to_multiset_ensures();
                assert(pair_tiles@.len() == 2);
                assert(rest@.len() == 12);
                assert(counts_of(rest@) == take_counts(c, MeldKind::Pair, k as int));
            }
            match try_decompose_melds(rest.as_slice()) {
                Some(melds) => {
                    proof {
                        lemma_first_pair_key(c, 0);
                        let f = first_pair_key(c, 0);
                        if f < k {
                            assert(!(c[f] >= 2 && lowest_split(take_counts(c, MeldKind::Pair, f), 4) is Some));
                        }
                        if f > k {
                            assert(!(c[k as int] >= 2 && lowest_split(take_counts(c, MeldKind::Pair, k as int), 4) is Some));
                        }
                    }
                    let ghost pv = pair_tiles@;
                    let ghost mv = melds@;
                    proof {
                        assert(first_pair_key(c, 0) == k);
                        lemma_standard_hand(s);
                        assert(standard_hand(s));
                        assert(pv == take_key(s, k as int, 2));
                        assert(rest@ == drop_key(s, k as int, 2));
                        assert(lowest_split(take_counts(c, MeldKind::Pair, k as int), 4) == lowest_split(counts_of(rest@), 4));
                    }
                    let play = Play::new(melds, Some(Meld::new(MeldKind::Pair, pair_tiles)));
                    assert(standard_play(s, play));
                    return Some(play);
                },
                None => {},
            }
        }
        k = k + 1;
    }
    proof {
        lemma_standard_hand(s);
        lemma_first_pair_key(c, 0);
        let f = first_pair_key(c, 0);
        if f < 1280 {
            assert(!(c[f] >= 2 && lowest_split(take_counts(c, MeldKind::Pair, f), 4) is Some));
        }
    }
    None
}

/// Fourteen tiles in which every face occurs exactly twice (seven pairs).
pub open spec fn seven_pairs(s: Seq<Tile>) -> bool {
    &&& s.len() == 14
    &&& forall|i: int| 0 <= i < 14 ==> face_count(s, #[trigger] s[i].suit, s[i].rank) == 2
}

/// The 13 orphan faces: the 1 and 9 of each numbered suit, the four winds
/// and the three dragons.
pub open spec fn orphan_face(suit: TileSuit, rank: u8) -> bool {
    match suit {
        TileSuit::Wind => 1 <= rank <= 4,
        TileSuit::Dragon => 1 <= rank <= 3,
        _ => rank == 1 || rank == 9,
    }
}

/// Fourteen tiles whose faces are exactly the 13 orphan faces.
pub open spec fn thirteen_orphans(s: Seq<Tile>) -> bool {
    &&& s.len() == 14
    &&& forall|i: int| 0 <= i < 14 ==> orphan_face(#[trigger] s[i].suit, s[i].rank)
    &&& forall|suit: TileSuit, rank: u8| #[trigger] orphan_face(suit, rank) ==> has_face(s, suit, rank)
}

pub(crate) fn is_seven_pairs(tiles: &[Tile]) -> (b: bool)
    ensures
        b == seven_pairs(tiles@),
{
    if tiles.len() != 14 {
        return false;
    }
    let mut i: usize = 0;
    while i < 14
        invariant
            tiles@.len() == 14,
            i <= 14,
            forall|k: int| 0 <= k < i ==> face_count(tiles@, #[trigger] tiles@[k].suit, tiles@[k].rank) == 2,
        decreases 14 - i,
    {
        if count_face(tiles, tiles[i].suit, tiles[i].rank) != 2 {
            return false;
        }
        i = i + 1;
    }
    true
}

fn holds_face(tiles: &[Tile], suit: TileSuit, rank: u8) -> (b: bool)
    ensures
        b == has_face(tiles@, suit, rank),
{
    proof {
        lemma_face_count_bounds(tiles@, suit, rank);
    }
    count_face(tiles, suit, rank) > 0
}

fn is_orphan_face(suit: TileSuit, rank: u8) -> (b: bool)
    ensures
        b == orphan_face(suit, rank),
{
    match suit {
        TileSuit::Wind => 1 <= rank && rank <= 4,
        TileSuit::Dragon => 1 <= rank && rank <= 3,
        _ => rank == 1 || rank == 9,
    }
}

/// The 13 orphan faces in the order they are checked.
pub open spec fn orphan_faces() -> Seq<(TileSuit, u8)> {
    seq![
        (TileSuit::Manzu, 1u8),
        (TileSuit::Manzu, 9u8),
        (TileSuit::Pinzu, 1u8),
        (TileSuit::Pinzu, 9u8),
        (TileSuit::Souzu, 1u8),
        (TileSuit::Souzu, 9u8),
        (TileSuit::Wind, 1u8),
        (TileSuit::Wind, 2u8),
        (TileSuit::Wind, 3u8),
        (TileSuit::Wind, 4u8),
        (TileSuit::Dragon, 1u8),
        (TileSuit::Dragon, 2u8),
        (TileSuit::Dragon, 3u8),
    ]
}

pub(crate) fn is_thirteen_orphans(tiles: &[Tile]) -> (b: bool)
    ensures
        b == thirteen_orphans(tiles@),
{
    if tiles.len() != 14 {
        return false;
    }
    let mut i: usize = 0;
    while i < 14
        invariant
            tiles@.len() == 14,
            i <= 14,
            forall|k: int| 0 <= k < i ==> orphan_face(#[trigger] tiles@[k].suit, tiles@[k].rank),
        decreases 14 - i,
    {
        if !is_orphan_face(tiles[i].suit, tiles[i].rank) {
            return false;
        }
        i = i + 1;
    }
    let faces = [
        (TileSuit::Manzu, 1u8),
        (TileSuit::Manzu, 9u8),
        (TileSuit::Pinzu, 1u8),
        (TileSuit::Pinzu, 9u8),
        (TileSuit::Souzu, 1u8),
        (TileSuit::Souzu, 9u8),
        (TileSuit::Wind, 1u8),
        (TileSuit::Wind, 2u8),
        (TileSuit::Wind, 3u8),
        (TileSuit::Wind, 4u8),
        (TileSuit::Dragon, 1u8),
        (TileSuit::Dragon, 2u8),
        (TileSuit::Dragon, 3u8),
    ];
    assert(faces@ =~= orphan_faces());
    let mut k: usize = 0;
    while k < 13
        invariant
            k <= 13,
            faces@ == orphan_faces(),
            forall|m: int| 0 <= m < k ==> has_face(tiles@, #[trigger] faces@[m].0, faces@[m].1),
        decreases 13 - k,
    {
        let (suit, rank) = faces[k];
        if !holds_face(tiles, suit, rank) {
            assert(orphan_face(suit, rank));
            return false;
        }
        k = k + 1;
    }
    assert forall|suit: TileSuit, rank: u8| #[trigger] orphan_face(suit, rank) implies has_face(
        tiles@,
        suit,
        rank,
    ) by {
        let m: int = match suit {
            TileSuit::Manzu => if rank == 1 { 0 } else { 1 },
            TileSuit::Pinzu => if rank == 1 { 2 } else { 3 },
            TileSuit::Souzu => if rank == 1 { 4 } else { 5 },
            TileSuit::Wind => 5 + rank,
            TileSuit::Dragon => 9 + rank,
        };
        assert(0 <= m < 13);
        assert(faces@[m] == (suit, rank));
        assert(has_face(tiles@, faces@[m].0, faces@[m].1));
    }
    true
}

/// What `validate_full_hand` gives.
pub open spec fn full_hand_outcome(s: Seq<Tile>, r: Result<Play, String>) -> bool {
    match r {
        Ok(p) => s.len() == 14 && if standard_hand(s) {
            standard_play(s, p)
        } else if seven_pairs(s) {
            play_shape(p, plan_groups(s, pair_keys(counts_of(s), 1280)), None)
        } else {
            thirteen_orphans(s) && play_shape(p, seq![], None)
        },
        Err(e) => !(s.len() == 14 && (standard_hand(s) || seven_pairs(s) || thirteen_orphans(s)))
            && e@ == "无法组成合法的和牌牌型"@,
    }
}

/// The pairs of a seven-pairs hand, face by face.
fn seven_pair_melds(tiles: &[Tile]) -> (melds: Vec<Meld>)
    requires
        tiles@.len() == 14,
    ensures
        melds_view(melds@) == plan_groups(tiles@, pair_keys(counts_of(tiles@), 1280)),
{
    let ghost c = counts_of(tiles@);
    let counts = count_keys(tiles);
    let mut plan: Vec<(MeldKind, usize)> = Vec::new();
    let mut k: usize = 0;
    while k < 1280
        invariant
            k <= 1280,
            counts@.len() == 1280,
            counts_view(counts@) == c,
            plan_view(plan@) == pair_keys(c, k as int),
            forall|q: int| 0 <= q < plan@.len() ==> group_ok((#[trigger] plan@[q]).0, plan@[q].1 as int),
        decreases 1280 - k,
    {
        let ghost before = plan_view(plan@);
        if counts[k] == 2 {
            plan.push((MeldKind::Pair, k));
            assert(plan_view(plan@) =~= before + seq![(MeldKind::Pair, k as int)]);
        } else {
            assert(plan_view(plan@) =~= before + Seq::<(MeldKind, int)>::empty());
        }
        k = k + 1;
    }
    let mut v: Vec<Tile> = Vec::new();
    let mut j: usize = 0;
    while j < tiles.len()
        invariant
            j <= tiles@.len(),
            v@ == tiles@.take(j as int),
        decreases tiles@.len() - j,
    {
        v.push(tiles[j]);
        j = j + 1;
    }
    assert(tiles@.take(j as int) =~= tiles@);
    build_groups(v, &plan)
}

/// A full hand of 14 tiles: a standard hand (four melds and a pair),
/// seven pairs, or thirteen orphans, tried in that order.
fn validate_full_hand(tiles: &[Tile]) -> (r: Result<Play, String>)
    ensures
        full_hand_outcome(tiles@, r),
{
    if tiles.len() == 14 {
        if let Some(result) = try_standard_decomposition(tiles) {
            return Ok(result);
        }
        if is_seven_pairs(tiles) {
            let pairs = seven_pair_melds(tiles);
            return Ok(Play::new(pairs, None));
        }
        if is_thirteen_orphans(tiles) {
            let melds: Vec<Meld> = Vec::new();
            assert(melds_view(melds@) =~= seq![]);
            return Ok(Play::new(melds, None));
        }
    }
    Err(String::from_str("无法组成合法的和牌牌型"))
}

/// What `validate_play_structure` gives for a selection of tiles.
pub open spec fn play_structure_outcome(s: Seq<Tile>, r: Result<Play, String>) -> bool {
    if s.len() < 5 || s.len() > 14 {
        r matches Err(e) && e@ == "选牌数量无效: "@ + decimal(s.len()) + "张 (需要5-14张)"@
    } else if s.len() == 5 || s.len() == 6 {
        single_meld_outcome(s, r)
    } else {
        full_hand_outcome(s, r)
    }
}

/// Validate whether selected tiles form a valid play structure: one meld
/// and one pair (5 tiles, or 6 with a quad), or a full hand of 14.
pub fn validate_play_structure(tiles: &[Tile]) -> (r: Result<Play, String>)
    ensures
        play_structure_outcome(tiles@, r),
        r matches Ok(p) ==> play_sound(tiles@, p),
{
    if tiles.len() < 5 || tiles.len() > 14 {
        let mut msg = String::from_str("选牌数量无效: ");
        let n = decimal_string(tiles.len() as u64);
        msg.append(n.as_str());
        msg.append("张 (需要5-14张)");
        return Err(msg);
    }
    let r = if tiles.len() == 5 || tiles.len() == 6 {
        validate_single_meld_play(tiles)
    } else {
        validate_full_hand(tiles)
    };
    proof {
        if r is Ok {
            law_play_uses_selected(tiles@, r->Ok_0);
        }
    }
    r
}

// ---------------------------------------------------------------------------
// Laws
// ---------------------------------------------------------------------------

/// A play accepted from 5 or 6 tiles is one genuine meld (triplet or
/// sequence, or a quad for 6 tiles) and one genuine pair, and it uses
/// exactly the selected tiles.
pub proof fn law_single_meld_play_sound(s: Seq<Tile>, p: Play)
    requires
        s.len() == 5 || s.len() == 6,
        play_structure_outcome(s, Ok(p)),
    ensures
        p.melds@.len() == 1,
        meld_fits(p.melds@[0].kind, p.melds@[0].tiles@),
        p.pair matches Some(m) && m.kind == MeldKind::Pair && pair_shape(m.tiles@),
        p.tiles_seq().to_multiset() == s.to_multiset(),
{
    let (i, j) = choose|i: int, j: int| #[trigger] first_split(s, i, j) && play_of_split(p, s, i, j);
    let rest = without_two(s, i, j);
    let kind = if s.len() == 5 { meld_kind_of(rest).unwrap() } else { MeldKind::Kan };
    assert(melds_view(p.melds@) == seq![(kind, rest)]);
    assert(melds_view(p.melds@).len() == p.melds@.len());
    assert(p.melds@.len() == 1);
    assert(melds_view(p.melds@)[0] == meld_view(p.melds@[0]));
    assert(p.melds@[0].tiles@ == rest);
    assert(melds_tiles(p.melds@) =~= rest) by {
        assert(p.melds@.drop_last().len() == 0);
        assert(melds_tiles(p.melds@.drop_last()) == Seq::<Tile>::empty());
        assert(p.melds@.last() == p.melds@[0]);
    }
    let m = p.pair.unwrap();
    assert(p.tiles_seq() == rest + seq![s[i], s[j]]);
    assert(s.to_multiset() == (rest + seq![s[i], s[j]]).to_multiset()) by {
        s.to_multiset_ensures();
        s.remove(j).to_multiset_ensures();
        rest.to_multiset_ensures();
        rest.push(s[i]).to_multiset_ensures();
        assert(s.remove(j)[i] == s[i]);
        assert(rest + seq![s[i], s[j]] =~= rest.push(s[i]).push(s[j]));
        assert(s.remove(j).remove(i).to_multiset() == s.remove(j).to_multiset().remove(s[i]));
        assert(s.remove(j).to_multiset() == s.to_multiset().remove(s[j]));
        assert(s.to_multiset().count(s[j]) > 0) by {
            assert(s.contains(s[j]));
        }
        assert(s.remove(j).to_multiset().count(s[i]) > 0) by {
            assert(s.remove(j).contains(s[i]));
        }
        assert(rest.push(s[i]).push(s[j]).to_multiset() =~= s.to_multiset());
    }
}

// ---------------------------------------------------------------------------
// Plays use the selected tiles
// ---------------------------------------------------------------------------

/// All tiles of a list of (kind, tiles) groups, group by group.
pub open spec fn groups_tiles(ms: Seq<(MeldKind, Seq<Tile>)>) -> Seq<Tile>
    decreases ms.len(),
{
    if ms.len() == 0 {
        seq![]
    } else {
        groups_tiles(ms.drop_last()) + ms.last().1
    }
}

proof fn lemma_melds_tiles_groups(ms: Seq<Meld>)
    ensures
        melds_tiles(ms) == groups_tiles(melds_view(ms)),
    decreases ms.len(),
{
    if ms.len() > 0 {
        lemma_melds_tiles_groups(ms.drop_last());
        assert(melds_view(ms).drop_last() =~= melds_view(ms.drop_last()));
        assert(melds_view(ms).last() == meld_view(ms.last()));
    }
}

/// A play is sound for the selected tiles `s`: each meld fits its kind,
/// the pair is a pair, and the play's tiles are the selected tiles, each
/// as often (thirteen orphans is accepted as a play of no tiles).
pub open spec fn play_sound(s: Seq<Tile>, p: Play) -> bool {
    &&& forall|k: int| 0 <= k < p.melds@.len() ==> #[trigger] meld_fits(p.melds@[k].kind, p.melds@[k].tiles@)
    &&& (p.pair matches Some(m) ==> m.kind == MeldKind::Pair && pair_shape(m.tiles@))
    &&& (p.tiles_seq().to_multiset() == s.to_multiset() || (thirteen_orphans(s) && p.tiles_seq().len() == 0))
}

/// Every key below 1280 holds none or two tiles of a seven-pairs hand.
proof fn lemma_seven_pairs_counts(s: Seq<Tile>)
    requires
        seven_pairs(s),
    ensures
        forall|j: int| 0 <= j < 1280 ==> #[trigger] counts_of(s)[j] == 0 || counts_of(s)[j] == 2,
{
    assert forall|j: int| 0 <= j < 1280 implies #[trigger] counts_of(s)[j] == 0 || counts_of(s)[j] == 2 by {
        if key_count(s, j) > 0 {
            let i = lemma_key_present(s, j);
            lemma_face_count_key(s, s[i]);
            assert(face_count(s, s[i].suit, s[i].rank) == 2);
        }
    }
}

/// A key that some tile carries.
proof fn lemma_key_present(s: Seq<Tile>, j: int) -> (i: int)
    requires
        key_count(s, j) > 0,
    ensures
        0 <= i < s.len(),
        face_key(s[i]) == j,
    decreases s.len(),
{
    if face_key(s.last()) == j {
        (s.len() - 1) as int
    } else {
        let i = lemma_key_present(s.drop_last(), j);
        assert(s.drop_last()[i] == s[i]);
        i
    }
}

/// The count of a tile's face is the count of its key.
proof fn lemma_face_count_key(s: Seq<Tile>, t: Tile)
    ensures
        face_count(s, t.suit, t.rank) == key_count(s, face_key(t)),
    decreases s.len(),
{
    if s.len() > 0 {
        lemma_face_count_key(s.drop_last(), t);
        lemma_face_key_same(s.last(), t);
    }
}

/// Pairing the keys below `i` that hold two tiles takes them all.
proof fn lemma_pair_keys(c: Seq<int>, i: int)
    requires
        counts_ok(c),
        forall|j: int| 0 <= j < 1280 ==> #[trigger] c[j] == 0 || c[j] == 2,
        0 <= i <= 1280,
    ensures
        plan_fits(c, pair_keys(c, i)),
        plan_kinds_ok(pair_keys(c, i)),
        forall|j: int| 0 <= j < 1280 ==> #[trigger] plan_counts(c, pair_keys(c, i))[j] == if j < i { 0 } else { c[j] },
    decreases i,
{
    if i > 0 {
        lemma_pair_keys(c, i - 1);
        let q = pair_keys(c, i - 1);
        if c[i - 1] == 2 {
            let x = (MeldKind::Pair, i - 1);
            assert(pair_keys(c, i) == q.push(x));
            assert(q.push(x).drop_last() =~= q);
            assert forall|j: int| 0 <= j < pair_keys(c, i).len() implies !((#[trigger] pair_keys(c, i)[j]).0 is Kan) by {
                if j < q.len() {
                    assert(pair_keys(c, i)[j] == q[j]);
                }
            }
            assert(plan_counts(c, pair_keys(c, i)) == take_counts(plan_counts(c, q), MeldKind::Pair, i - 1));
            assert forall|j: int| 0 <= j < 1280 implies #[trigger] plan_counts(c, pair_keys(c, i))[j] == if j < i {
                0
            } else {
                c[j]
            } by {
                assert(plan_counts(c, q)[j] == if j < i - 1 { 0 } else { c[j] });
            }
        } else {
            assert(pair_keys(c, i) =~= q);
            assert(c[i - 1] == 0 || c[i - 1] == 2);
            assert forall|j: int| 0 <= j < 1280 implies #[trigger] plan_counts(c, pair_keys(c, i))[j] == if j < i {
                0
            } else {
                c[j]
            } by {
                assert(plan_counts(c, q)[j] == if j < i - 1 { 0 } else { c[j] });
            }
        }
    } else {
        assert(pair_keys(c, i) =~= Seq::<(MeldKind, int)>::empty());
        assert(plan_kinds_ok(pair_keys(c, i)));
        assert(plan_counts(c, pair_keys(c, i)) == c);
    }
}

/// An accepted full hand is sound for its tiles.
pub proof fn law_full_hand_sound(s: Seq<Tile>, p: Play)
    requires
        full_hand_outcome(s, Ok(p)),
    ensures
        play_sound(s, p),
{
    broadcast use vstd::seq_lib::lemma_multiset_commutative;

    lemma_melds_tiles_groups(p.melds@);
    assert(melds_view(p.melds@).len() == p.melds@.len());
    let c = counts_of(s);
    lemma_counts_ok(s);
    if standard_hand(s) {
        lemma_standard_hand(s);
        let k = first_pair_key(c, 0);
        let rest = drop_key(s, k, 2);
        lemma_take_group(s, MeldKind::Pair, k);
        lemma_take_key(s, k, 2);
        let cr = take_counts(c, MeldKind::Pair, k);
        lemma_take_ok_pair(c, k);
        lemma_lowest_split(cr, 4);
        let plan = lowest_split(cr, 4).unwrap();
        assert(plan_kinds_ok(plan)) by {
            assert forall|i: int| 0 <= i < plan.len() implies !((#[trigger] plan[i]).0 is Kan) by {
                assert(is_meld_kind(plan[i].0));
            }
        }
        lemma_plan_groups(rest, plan);
        lemma_all_zero_empty(plan_rest(rest, plan));
        let g = plan_groups(rest, plan);
        assert(groups_tiles(g) + plan_rest(rest, plan) =~= groups_tiles(g));
        assert forall|i: int| 0 <= i < p.melds@.len() implies #[trigger] meld_fits(p.melds@[i].kind, p.melds@[i].tiles@) by {
            assert(melds_view(p.melds@)[i] == meld_view(p.melds@[i]));
            assert(g[i].0 == plan[i].0);
        }
        assert(p.tiles_seq() == groups_tiles(g) + take_key(s, k, 2));
        assert((groups_tiles(g) + take_key(s, k, 2)).to_multiset() =~= (take_key(s, k, 2) + rest).to_multiset());
    } else if seven_pairs(s) {
        lemma_seven_pairs_counts(s);
        lemma_pair_keys(c, 1280);
        let plan = pair_keys(c, 1280);
        lemma_plan_groups(s, plan);
        assert(all_zero(plan_counts(c, plan)));
        lemma_all_zero_empty(plan_rest(s, plan));
        let g = plan_groups(s, plan);
        assert(groups_tiles(g) + plan_rest(s, plan) =~= groups_tiles(g));
        assert forall|i: int| 0 <= i < p.melds@.len() implies #[trigger] meld_fits(p.melds@[i].kind, p.melds@[i].tiles@) by {
            assert(melds_view(p.melds@)[i] == meld_view(p.melds@[i]));
            assert(g[i].0 == plan[i].0);
        }
        assert(p.tiles_seq() =~= groups_tiles(g));
    } else {
        assert(p.melds@.len() == 0);
        assert(p.tiles_seq() =~= Seq::<Tile>::empty());
    }
}

/// An accepted play uses exactly the selected tiles (each as often as it
/// was selected); the one exception is thirteen orphans, which is
/// accepted as a play of no melds and no pair. Every meld fits its kind
/// and the pair is a pair.
pub proof fn law_play_uses_selected(s: Seq<Tile>, p: Play)
    requires
        play_structure_outcome(s, Ok(p)),
    ensures
        play_sound(s, p),
{
    if s.len() == 5 || s.len() == 6 {
        law_single_meld_play_sound(s, p);
        assert forall|k: int| 0 <= k < p.melds@.len() implies #[trigger] meld_fits(p.melds@[k].kind, p.melds@[k].tiles@) by {}
    } else {
        law_full_hand_sound(s, p);
    }
}

/// An accepted play has at most 12 melds and at most 38 tiles.
pub proof fn lemma_play_size(s: Seq<Tile>, p: Play)
    requires
        play_structure_outcome(s, Ok(p)),
    ensures
        p.melds@.len() <= 12,
        p.tiles_seq().len() <= 38,
{
    law_play_uses_selected(s, p);
    p.tiles_seq().to_multiset_ensures();
    s.to_multiset_ensures();
    assert(p.tiles_seq().to_multiset().len() == p.tiles_seq().len());
    lemma_melds_len(p.melds@);
}

/// Melds that fit their kinds hold at least two tiles each.
proof fn lemma_melds_len(ms: Seq<Meld>)
    requires
        forall|k: int| 0 <= k < ms.len() ==> #[trigger] meld_fits(ms[k].kind, ms[k].tiles@),
    ensures
        melds_tiles(ms).len() >= 2 * ms.len(),
    decreases ms.len(),
{
    if ms.len() > 0 {
        assert forall|k: int| 0 <= k < ms.drop_last().len() implies #[trigger] meld_fits(
            ms.drop_last()[k].kind,
            ms.drop_last()[k].tiles@,
        ) by {
            assert(ms.drop_last()[k] == ms[k]);
        }
        lemma_melds_len(ms.drop_last());
        assert(meld_fits(ms[ms.len() - 1].kind, ms[ms.len() - 1].tiles@));
    }
}

/// A sequence is three tiles of one numbered suit with three different
/// ranks, no two more than 2 apart: ranks r, r+1, r+2 in some order.
pub proof fn law_chi_is_run(s: Seq<Tile>)
    ensures
        chi_shape(s) <==> {
            &&& s.len() == 3
            &&& numbered(s[0].suit)
            &&& s[1].suit == s[0].suit
            &&& s[2].suit == s[0].suit
            &&& s[0].rank != s[1].rank && s[0].rank != s[2].rank && s[1].rank != s[2].rank
            &&& forall|i: int, j: int| 0 <= i < 3 && 0 <= j < 3 ==> s[i].rank - s[j].rank <= 2
        },
{
    if s.len() == 3 {
        let a = s[0].rank as int;
        let b = s[1].rank as int;
        let c = s[2].rank as int;
        assert(consecutive3(a, b, c) <==> (a != b && a != c && b != c && a - b <= 2 && b - a <= 2
            && a - c <= 2 && c - a <= 2 && b - c <= 2 && c - b <= 2));
        if chi_shape(s) {
            assert forall|i: int, j: int| 0 <= i < 3 && 0 <= j < 3 implies s[i].rank - s[j].rank <= 2 by {}
        }
    }
}

/// A sequence of an accepted play is a run of three consecutive ranks of
/// one numbered suit.
pub proof fn law_accepted_chi_is_run(s: Seq<Tile>, p: Play, k: int)
    requires
        play_structure_outcome(s, Ok(p)),
        0 <= k < p.melds@.len(),
        p.melds@[k].kind == MeldKind::Chi,
    ensures
        ({
            let t = p.melds@[k].tiles@;
            &&& t.len() == 3
            &&& numbered(t[0].suit) && t[1].suit == t[0].suit && t[2].suit == t[0].suit
            &&& t[0].rank != t[1].rank && t[0].rank != t[2].rank && t[1].rank != t[2].rank
            &&& forall|i: int, j: int| 0 <= i < 3 && 0 <= j < 3 ==> t[i].rank - t[j].rank <= 2
        }),
{
    law_play_uses_selected(s, p);
    assert(meld_fits(p.melds@[k].kind, p.melds@[k].tiles@));
    law_chi_is_run(p.melds@[k].tiles@);
}

} // verus!
