//! The state of a run: rounds, plays, the hand and the wall.

use vstd::prelude::*;

use crate::models::artifact::{Artifact, ArtifactEffect};
use crate::models::boss::Boss;
use crate::models::faces::{contains_id, id_count, lemma_id_count_concat, lemma_id_count_perm, unique_ids, without_ids};
use crate::models::gadget::Gadget;
use crate::game::scoring_engine::{artifacts_fu, lemma_play_tally_bounds, tally_of, tally_score, ScoreTally};
use crate::models::hand::{law_play_uses_selected, lemma_play_size, play_structure_outcome, validate_play_structure, Play};
use crate::models::scoring::ScoreResult;
use crate::models::tile::{law_standard_set_ids, Tile};
use crate::models::wall::{law_remove_then_add_conserves, lemma_unique_with_ids, lemma_with_ids_members, lemma_with_ids_same_filter, seeded_shuffle, standard_set, with_ids, Wall};

verus! {

#[derive(Clone, Copy, Debug, PartialEq, Eq, Hash, Structural)]
pub enum GamePhase {
    MainMenu,
    DeckSelect,
    RoundIntro,
    Playing,
    PlayScoring,
    Shop,
    RoundResult,
    GameOver,
    Victory,
}

#[derive(Clone, Copy, Debug, PartialEq, Eq, Hash, Structural)]
pub enum Wind {
    East,
    South,
    West,
    North,
}

/// A scored play: the play, its final score, the names of the patterns it
/// matched and the score's details.
#[derive(Clone, Debug)]
pub struct PlayResult {
    pub play: Play,
    pub score: u64,
    pub patterns_matched: Vec<String>,
    pub score_detail: ScoreResult,
}

#[derive(Clone, Debug)]
pub struct GameState {
    pub phase: GamePhase,
    pub run_seed: u64,
    pub current_wind: Wind,
    pub current_round: u8,
    pub current_play: u8,
    pub wall: Wall,
    pub hand_tiles: Vec<Tile>,
    pub selected_tile_ids: Vec<u32>,
    pub plays_made: Vec<PlayResult>,
    pub round_score: u64,
    pub round_target: u64,
    pub artifacts: Vec<Artifact>,
    pub gadgets: Vec<Gadget>,
    pub currency: u32,
    pub boss: Option<Boss>,
    pub max_plays: u8,
}

#[derive(Clone, Copy, Debug, PartialEq, Eq, Structural)]
pub enum RoundOutcome {
    Pass { score: u64, target: u64, bonus: u32 },
    Fail { score: u64, target: u64 },
    Victory,
}

/// 0 for East, 1 for South, 2 for West, 3 for North.
pub open spec fn wind_number(w: Wind) -> int {
    match w {
        Wind::East => 0,
        Wind::South => 1,
        Wind::West => 2,
        Wind::North => 3,
    }
}

/// The target scores of the 16 rounds (four winds of four rounds), then a
/// flat target beyond them.
pub open spec fn target_table(i: int) -> u64 {
    if i == 0 { 300 }
    else if i == 1 { 800 }
    else if i == 2 { 2000 }
    else if i == 3 { 5000 }
    else if i == 4 { 12000 }
    else if i == 5 { 30000 }
    else if i == 6 { 80000 }
    else if i == 7 { 200000 }
    else if i == 8 { 500000 }
    else if i == 9 { 1500000 }
    else if i == 10 { 5000000 }
    else if i == 11 { 15000000 }
    else if i == 12 { 50000000 }
    else if i == 13 { 200000000 }
    else if i == 14 { 800000000 }
    else if i == 15 { 3000000000 }
    else { 5000000000 }
}

/// The target score of round `round` (counted from 1) of wind `w`.
pub open spec fn target_score(w: Wind, round: u8) -> u64 {
    target_table(4 * wind_number(w) + round - 1)
}

/// The seed of a round's wall.
pub open spec fn round_seed(seed: u64, round: u8, w: Wind) -> int {
    seed + round * 1000 + wind_number(w) * 10000
}

/// The wind after `w`, if any.
pub open spec fn next_wind(w: Wind) -> Option<Wind> {
    match w {
        Wind::East => Some(Wind::South),
        Wind::South => Some(Wind::West),
        Wind::West => Some(Wind::North),
        Wind::North => None,
    }
}

/// The overkill bonus base of a wind.
pub open spec fn bonus_base(w: Wind) -> u32 {
    match w {
        Wind::East => 50,
        Wind::South => 100,
        Wind::West => 200,
        Wind::North => 500,
    }
}

/// All tiles of a list of play results, play by play.
pub open spec fn results_tiles(rs: Seq<PlayResult>) -> Seq<Tile>
    decreases rs.len(),
{
    if rs.len() == 0 {
        seq![]
    } else {
        results_tiles(rs.drop_last()) + rs.last().play.tiles_seq()
    }
}

/// Advances a scaling-fu artifact by its per-round amount; other
/// artifacts are unchanged.
pub open spec fn advanced(a: Artifact) -> Artifact {
    match a.effect {
        ArtifactEffect::ScalingAddFu { per_round, current } => Artifact {
            effect: ArtifactEffect::ScalingAddFu {
                per_round,
                current: (current + per_round) as u64,
            },
            ..a
        },
        _ => a,
    }
}

/// Scaling-fu artifacts can advance without overflow.
pub open spec fn scaling_room(arts: Seq<Artifact>) -> bool {
    forall|i: int|
        0 <= i < arts.len() ==> match (#[trigger] arts[i]).effect {
            ArtifactEffect::ScalingAddFu { per_round, current } => current + per_round <= u64::MAX,
            _ => true,
        }
}

/// The tiles of a round: those in the hand, those left in the wall and
/// those played so far.
pub open spec fn round_tiles(st: GameState) -> Seq<Tile> {
    st.hand_tiles@ + st.wall.remaining_tiles() + results_tiles(st.plays_made@)
}

/// The play's tiles are exactly the hand's tiles with the play's ids,
/// each as often.
pub open spec fn played_from_hand(hand: Seq<Tile>, play: Play) -> bool {
    play.tiles_seq().to_multiset() == with_ids(hand, play.tiles_seq().map_values(|t: Tile| t.id)).to_multiset()
}

/// The tiles of `hand` with the selected ids form a play.
pub open spec fn selection_accepted(hand: Seq<Tile>, ids: Seq<u32>) -> bool {
    exists|p: Play| #[trigger] play_structure_outcome(with_ids(hand, ids), Ok(p))
}

/// Recording a play whose tiles are the hand's tiles with the play's ids
/// keeps the round's tiles: the kept hand, the drawn tiles, the rest of
/// the wall and the plays with the new one hold what the hand, the wall
/// and the plays held before.
proof fn lemma_play_conserves(h: Seq<Tile>, r: Seq<Tile>, pt: Seq<Tile>, t: Seq<Tile>, ids: Seq<u32>, n: int)
    requires
        0 <= n <= r.len(),
        t.to_multiset() == with_ids(h, ids).to_multiset(),
    ensures
        ((without_ids(h, ids) + r.take(n)) + r.skip(n) + (pt + t)).to_multiset() == (h + r + pt).to_multiset(),
{
    broadcast use vstd::seq_lib::lemma_multiset_commutative;
    broadcast use vstd::multiset::group_multiset_axioms;

    law_remove_then_add_conserves(h, ids);
    let w = without_ids(h, ids);
    let wi = with_ids(h, ids);
    assert((w + r.take(n)) + r.skip(n) + (pt + t) =~= ((w + r) + pt) + t) by {
        assert(r.take(n) + r.skip(n) =~= r);
    }
    assert((((w + r) + pt) + t).to_multiset() =~= (((w + wi) + r) + pt).to_multiset());
    assert(h.to_multiset() == (w + wi).to_multiset());
    assert((((w + wi) + r) + pt).to_multiset() =~= (h + r + pt).to_multiset());
}

/// `f` and `outcome` are how the round of `o` ends when its score has
/// earned the overkill multiplier `m`. A round whose score reaches the
/// target passes: the bonus is paid and the next round comes (after the
/// fourth round, the next wind; after North's fourth, victory). Otherwise
/// the game is over.
pub open spec fn round_end(o: GameState, f: GameState, outcome: RoundOutcome, m: u32) -> bool {
    let bonus = (bonus_base(o.current_wind) * m) as u32;
    if o.round_score >= o.round_target {
        &&& f.currency == o.currency + bonus
        &&& if o.current_round + 1 <= 4 {
            &&& outcome == (RoundOutcome::Pass { score: o.round_score, target: o.round_target, bonus })
            &&& f == (GameState { currency: f.currency, current_round: (o.current_round + 1) as u8, ..o })
        } else if next_wind(o.current_wind) is Some {
            &&& outcome == (RoundOutcome::Pass { score: o.round_score, target: o.round_target, bonus })
            &&& f == (GameState {
                currency: f.currency,
                current_round: 1,
                current_wind: next_wind(o.current_wind).unwrap(),
                ..o
            })
        } else {
            &&& outcome == RoundOutcome::Victory
            &&& f == (GameState { currency: f.currency, current_round: 1, phase: GamePhase::Victory, ..o })
        }
    } else {
        &&& outcome == (RoundOutcome::Fail { score: o.round_score, target: o.round_target })
        &&& f == (GameState { phase: GamePhase::GameOver, ..o })
    }
}

impl GameState {
    /// The state of a new game, before any run.
    pub open spec fn is_initial(self) -> bool {
        &&& self.phase == GamePhase::MainMenu
        &&& self.run_seed == 0
        &&& self.current_wind == Wind::East
        &&& self.current_round == 1
        &&& self.current_play == 0
        &&& self.wall.fresh_from(0)
        &&& self.hand_tiles@ == Seq::<Tile>::empty()
        &&& self.selected_tile_ids@ == Seq::<u32>::empty()
        &&& self.plays_made@ == Seq::<PlayResult>::empty()
        &&& self.round_score == 0
        &&& self.round_target == 0
        &&& self.artifacts@ == Seq::<Artifact>::empty()
        &&& self.gadgets@ == Seq::<Gadget>::empty()
        &&& self.currency == 0
        &&& self.boss is None
        &&& self.max_plays == 4
    }

    /// Between the hand, the wall and the plays, the round holds the
    /// standard set: no tile lost or gained, none twice.
    pub open spec fn tiles_conserved(self) -> bool {
        round_tiles(self).to_multiset() == standard_set().to_multiset()
    }

    /// `self` is `before` with a round started from `seed`: a fresh wall
    /// for the round, 14 tiles dealt to the hand, the round's counters
    /// reset and its target set.
    pub open spec fn round_started(self, before: GameState, seed: u64) -> bool {
        let deck = seeded_shuffle(standard_set(), round_seed(seed, before.current_round, before.current_wind) as u64);
        &&& deck.len() == 136
        &&& self.wall.remaining_tiles() == deck.skip(14)
        &&& self.wall.drawn_tiles() == deck.take(14)
        &&& self.wall.initial() == 136
        &&& self.hand_tiles@ == deck.take(14)
        &&& self.selected_tile_ids@ == Seq::<u32>::empty()
        &&& self.plays_made@ == Seq::<PlayResult>::empty()
        &&& self.round_score == 0
        &&& self.current_play == 0
        &&& self.round_target == target_score(before.current_wind, before.current_round)
        &&& self.phase == GamePhase::Playing
        &&& self.run_seed == before.run_seed
        &&& self.current_wind == before.current_wind
        &&& self.current_round == before.current_round
        &&& self.artifacts == before.artifacts
        &&& self.gadgets == before.gadgets
        &&& self.currency == before.currency
        &&& self.boss == before.boss
        &&& self.max_plays == before.max_plays
    }

    pub fn new() -> (s: Self)
        ensures
            s.is_initial(),
    {
        GameState {
            phase: GamePhase::MainMenu,
            run_seed: 0,
            current_wind: Wind::East,
            current_round: 1,
            current_play: 0,
            wall: Wall::new(0),
            hand_tiles: Vec::new(),
            selected_tile_ids: Vec::new(),
            plays_made: Vec::new(),
            round_score: 0,
            round_target: 0,
            artifacts: Vec::new(),
            gadgets: Vec::new(),
            currency: 0,
            boss: None,
            max_plays: 4,
        }
    }

    /// Starts a run: East round 1, no currency, no items, and the first
    /// round dealt.
    pub fn start_run(&mut self, seed: u64)
        requires
            seed + 1000 <= u64::MAX,
        ensures
            final(self).run_seed == seed,
            final(self).currency == 0,
            final(self).artifacts@ == Seq::<Artifact>::empty(),
            final(self).gadgets@ == Seq::<Gadget>::empty(),
            final(self).round_started(
                GameState {
                    run_seed: seed,
                    current_wind: Wind::East,
                    current_round: 1,
                    current_play: 0,
                    currency: 0,
                    artifacts: final(self).artifacts,
                    gadgets: final(self).gadgets,
                    ..*old(self)
                },
                seed,
            ),
            final(self).tiles_conserved(),
    {
        self.run_seed = seed;
        self.phase = GamePhase::RoundIntro;
        self.current_wind = Wind::East;
        self.current_round = 1;
        self.current_play = 0;
        self.currency = 0;
        self.artifacts.clear();
        self.gadgets.clear();
        self.start_round(seed);
    }

    /// Deals a round: a new wall from the run seed, the round and the wind,
    /// then 14 tiles to the hand.
    pub fn start_round(&mut self, seed: u64)
        requires
            old(self).current_round >= 1,
            round_seed(seed, old(self).current_round, old(self).current_wind) <= u64::MAX,
        ensures
            final(self).round_started(*old(self), seed),
            final(self).tiles_conserved(),
    {
        let wind_number: u64 = match self.current_wind {
            Wind::East => 0,
            Wind::South => 1,
            Wind::West => 2,
            Wind::North => 3,
        };
        self.wall = Wall::new(seed + (self.current_round as u64 * 1000) + (wind_number * 10000));
        let ghost deck = self.wall.remaining_tiles();
        proof {
            self.wall.remaining_tiles().to_multiset_ensures();
            standard_set().to_multiset_ensures();
        }
        self.hand_tiles = self.wall.draw(14);
        self.selected_tile_ids.clear();
        self.plays_made.clear();
        self.round_score = 0;
        self.current_play = 0;
        self.round_target = self.get_target_score();
        self.phase = GamePhase::Playing;
        proof {
            assert(self.hand_tiles@ + self.wall.remaining_tiles() =~= deck);
            assert(results_tiles(self.plays_made@) =~= Seq::<Tile>::empty());
            assert(round_tiles(*self) =~= deck);
        }
    }

    /// The target score of the current round.
    pub fn get_target_score(&self) -> (t: u64)
        requires
            self.current_round >= 1,
        ensures
            t == target_score(self.current_wind, self.current_round),
    {
        let wind_base: u32 = match self.current_wind {
            Wind::East => 0,
            Wind::South => 4,
            Wind::West => 8,
            Wind::North => 12,
        };
        let round_index = wind_base + (self.current_round - 1) as u32;
        let targets: [u64; 16] = [
            300,
            800,
            2000,
            5000,
            12000,
            30000,
            80000,
            200000,
            500000,
            1500000,
            5000000,
            15000000,
            50000000,
            200000000,
            800000000,
            3000000000,
        ];
        if (round_index as usize) < 16 {
            targets[round_index as usize]
        } else {
            5000000000
        }
    }

    /// Draws up to `count` more tiles into the hand; returns them.
    pub fn draw_more_tiles(&mut self, count: usize) -> (tiles: Vec<Tile>)
        ensures
            ({
                let n = if count < old(self).wall.remaining_tiles().len() {
                    count as int
                } else {
                    old(self).wall.remaining_tiles().len() as int
                };
                &&& tiles@ == old(self).wall.remaining_tiles().take(n)
                &&& final(self).wall.remaining_tiles() == old(self).wall.remaining_tiles().skip(n)
                &&& final(self).wall.drawn_tiles() == old(self).wall.drawn_tiles() + tiles@
                &&& final(self).wall.initial() == old(self).wall.initial()
                &&& final(self).hand_tiles@ == old(self).hand_tiles@ + tiles@
            }),
            *final(self) == (GameState { wall: final(self).wall, hand_tiles: final(self).hand_tiles, ..*old(self) }),
            old(self).tiles_conserved() ==> final(self).tiles_conserved(),
    {
        let tiles = self.wall.draw(count);
        let mut k: usize = 0;
        let ghost hand_before = self.hand_tiles@;
        let ghost mid = *self;
        while k < tiles.len()
            invariant
                *self == (GameState { hand_tiles: self.hand_tiles, ..mid }),
                k <= tiles@.len(),
                self.hand_tiles@ == hand_before + tiles@.take(k as int),
            decreases tiles@.len() - k,
        {
            self.hand_tiles.push(tiles[k]);
            proof {
                assert(hand_before + tiles@.take(k + 1) =~= (hand_before + tiles@.take(k as int)).push(tiles@[k as int]));
            }
            k = k + 1;
        }
        assert(tiles@.take(k as int) =~= tiles@);
        proof {
            let r = old(self).wall.remaining_tiles();
            assert(tiles@ + self.wall.remaining_tiles() =~= r);
            assert(round_tiles(*self) =~= round_tiles(*old(self)));
        }
        tiles
    }

    /// The tiles of the hand whose id is selected, in hand order.
    pub fn get_selected_tiles(&self) -> (tiles: Vec<Tile>)
        ensures
            tiles@ == with_ids(self.hand_tiles@, self.selected_tile_ids@),
    {
        let ghost hand = self.hand_tiles@;
        let mut tiles: Vec<Tile> = Vec::new();
        let mut i: usize = 0;
        while i < self.hand_tiles.len()
            invariant
                hand == self.hand_tiles@,
                i <= hand.len(),
                tiles@ == with_ids(hand.take(i as int), self.selected_tile_ids@),
            decreases hand.len() - i,
        {
            proof {
                assert(hand.take(i + 1).drop_last() =~= hand.take(i as int));
            }
            let t = self.hand_tiles[i];
            if contains_id(self.selected_tile_ids.as_slice(), t.id) {
                tiles.push(t);
            }
            i = i + 1;
        }
        assert(hand.take(i as int) =~= hand);
        tiles
    }

    /// All tiles played so far this round, play by play.
    pub fn played_tiles(&self) -> (tiles: Vec<Tile>)
        ensures
            tiles@ == results_tiles(self.plays_made@),
    {
        let mut tiles: Vec<Tile> = Vec::new();
        let mut k: usize = 0;
        while k < self.plays_made.len()
            invariant
                k <= self.plays_made@.len(),
                tiles@ == results_tiles(self.plays_made@.take(k as int)),
            decreases self.plays_made@.len() - k,
        {
            proof {
                assert(self.plays_made@.take(k + 1).drop_last() =~= self.plays_made@.take(k as int));
            }
            let refs = self.plays_made[k].play.all_tiles();
            let ghost before = tiles@;
            let mut j: usize = 0;
            while j < refs.len()
                invariant
                    j <= refs@.len(),
                    refs@.len() == self.plays_made@[k as int].play.tiles_seq().len(),
                    forall|i: int| 0 <= i < refs@.len() ==> *#[trigger] refs@[i] == self.plays_made@[k as int].play.tiles_seq()[i],
                    tiles@ =~= before + self.plays_made@[k as int].play.tiles_seq().take(j as int),
                decreases refs@.len() - j,
            {
                tiles.push(*refs[j]);
                j = j + 1;
            }
            assert(self.plays_made@[k as int].play.tiles_seq().take(j as int) =~= self.plays_made@[k as int].play.tiles_seq());
            k = k + 1;
        }
        assert(self.plays_made@.take(k as int) =~= self.plays_made@);
        tiles
    }

    /// Checks the selected tiles as a play and tallies its score against
    /// the artifacts, with the tiles played so far this round and the hand
    /// as context. An error is the play check's message.
    pub fn evaluate_selection(&self) -> (r: Result<(Play, ScoreTally), String>)
        requires
            selection_accepted(self.hand_tiles@, self.selected_tile_ids@) ==> artifacts_fu(self.artifacts@)
                <= u64::MAX,
        ensures
            match r {
                Ok((play, t)) => play_structure_outcome(
                    with_ids(self.hand_tiles@, self.selected_tile_ids@),
                    Ok(play),
                ) && tally_of(t, play, self.artifacts@),
                Err(e) => play_structure_outcome(with_ids(self.hand_tiles@, self.selected_tile_ids@), Err(e)),
            },
    {
        let selected = self.get_selected_tiles();
        let play = match validate_play_structure(selected.as_slice()) {
            Ok(p) => p,
            Err(e) => return Err(e),
        };
        proof {
            assert(play_structure_outcome(selected@, Ok(play)));
            assert(selection_accepted(self.hand_tiles@, self.selected_tile_ids@));
            lemma_play_size(selected@, play);
            lemma_play_tally_bounds(play);
        }
        let all_played = self.played_tiles();
        let t = tally_score(&play, self.artifacts.as_slice(), all_played.as_slice(), self.hand_tiles.as_slice());
        Ok((play, t))
    }

    /// Records a scored play: its tiles leave the hand, its score is added
    /// to the round, the selection is cleared, the play counter advances,
    /// scaling-fu artifacts grow by their per-round amount, and up to 3
    /// tiles are drawn. The play's score is its score detail's final
    /// score. (Scaling fan amounts are fractional; the caller grows them.)
    pub fn record_play(&mut self, result: PlayResult)
        requires
            result.score == result.score_detail.final_score,
            old(self).round_score + result.score <= u64::MAX,
            old(self).current_play < 255,
            scaling_room(old(self).artifacts@),
        ensures
            ({
                let played_ids = result.play.tiles_seq().map_values(|t: Tile| t.id);
                let kept = without_ids(old(self).hand_tiles@, played_ids);
                let n = if 3 < old(self).wall.remaining_tiles().len() {
                    3int
                } else {
                    old(self).wall.remaining_tiles().len() as int
                };
                let drawn = old(self).wall.remaining_tiles().take(n);
                &&& final(self).hand_tiles@ == kept + drawn
                &&& final(self).wall.remaining_tiles() == old(self).wall.remaining_tiles().skip(n)
                &&& final(self).wall.drawn_tiles() == old(self).wall.drawn_tiles() + drawn
                &&& final(self).wall.initial() == old(self).wall.initial()
            }),
            final(self).round_score == old(self).round_score + result.score,
            final(self).plays_made@ == old(self).plays_made@.push(result),
            final(self).selected_tile_ids@ == Seq::<u32>::empty(),
            final(self).current_play == old(self).current_play + 1,
            final(self).artifacts@ == old(self).artifacts@.map_values(|a: Artifact| advanced(a)),
            final(self).phase == old(self).phase,
            final(self).run_seed == old(self).run_seed,
            final(self).current_wind == old(self).current_wind,
            final(self).current_round == old(self).current_round,
            final(self).round_target == old(self).round_target,
            final(self).gadgets == old(self).gadgets,
            final(self).currency == old(self).currency,
            final(self).boss == old(self).boss,
            final(self).max_plays == old(self).max_plays,
            old(self).tiles_conserved() && played_from_hand(old(self).hand_tiles@, result.play)
                ==> final(self).tiles_conserved(),
    {
        let ghost played = result.play.tiles_seq();
        let ghost o = *self;
        let refs = result.play.all_tiles();
        let mut played_ids: Vec<u32> = Vec::new();
        let mut k: usize = 0;
        while k < refs.len()
            invariant
                k <= refs@.len(),
                refs@.len() == played.len(),
                forall|i: int| 0 <= i < refs@.len() ==> *#[trigger] refs@[i] == played[i],
                played_ids@ =~= played.take(k as int).map_values(|t: Tile| t.id),
            decreases refs@.len() - k,
        {
            played_ids.push(refs[k].id);
            k = k + 1;
        }
        assert(played.take(k as int) =~= played);
        let ghost hand = self.hand_tiles@;
        let mut kept: Vec<Tile> = Vec::new();
        let mut i: usize = 0;
        while i < self.hand_tiles.len()
            invariant
                hand == self.hand_tiles@,
                i <= hand.len(),
                kept@ == without_ids(hand.take(i as int), played_ids@),
            decreases hand.len() - i,
        {
            proof {
                assert(hand.take(i + 1).drop_last() =~= hand.take(i as int));
            }
            let t = self.hand_tiles[i];
            if !contains_id(played_ids.as_slice(), t.id) {
                kept.push(t);
            }
            i = i + 1;
        }
        assert(hand.take(i as int) =~= hand);
        self.hand_tiles = kept;

        self.round_score = self.round_score + result.score;
        self.plays_made.push(result);
        self.selected_tile_ids.clear();
        self.current_play = self.current_play + 1;

        let ghost arts = self.artifacts@;
        let ghost mid = *self;
        let mut a: usize = 0;
        while a < self.artifacts.len()
            invariant
                *self == (GameState { artifacts: self.artifacts, ..mid }),
                a <= arts.len(),
                self.artifacts@.len() == arts.len(),
                scaling_room(arts),
                forall|j: int| 0 <= j < a ==> #[trigger] self.artifacts@[j] == advanced(arts[j]),
                forall|j: int| a <= j < arts.len() ==> #[trigger] self.artifacts@[j] == arts[j],
            decreases arts.len() - a,
        {
            let next = match &self.artifacts[a].effect {
                ArtifactEffect::ScalingAddFu { per_round, current } => {
                    assert(arts[a as int].effect == ArtifactEffect::ScalingAddFu { per_round: *per_round, current: *current });
                    Some(ArtifactEffect::ScalingAddFu { per_round: *per_round, current: *current + *per_round })
                },
                _ => None,
            };
            if let Some(effect) = next {
                let mut art = self.artifacts[a].duplicate();
                art.effect = effect;
                self.artifacts.set(a, art);
            }
            a = a + 1;
        }
        assert(self.artifacts@ =~= arts.map_values(|a: Artifact| advanced(a)));

        let remaining = self.wall.remaining();
        let tiles_to_draw = if 3 < remaining { 3 } else { remaining };
        if tiles_to_draw > 0 {
            self.draw_more_tiles(tiles_to_draw);
        } else {
            assert(self.wall.remaining_tiles().take(0) =~= Seq::<Tile>::empty());
            assert(self.wall.remaining_tiles().skip(0) =~= self.wall.remaining_tiles());
            assert(self.hand_tiles@ + Seq::<Tile>::empty() =~= self.hand_tiles@);
            assert(self.wall.drawn_tiles() + Seq::<Tile>::empty() =~= self.wall.drawn_tiles());
        }
        proof {
            let pid = played.map_values(|t: Tile| t.id);
            let rem = o.wall.remaining_tiles();
            let n = if 3 < rem.len() { 3int } else { rem.len() as int };
            assert(o.plays_made@.push(result).drop_last() =~= o.plays_made@);
            assert(results_tiles(self.plays_made@) == results_tiles(o.plays_made@) + played);
            if o.tiles_conserved() && played_from_hand(o.hand_tiles@, result.play) {
                lemma_play_conserves(o.hand_tiles@, rem, results_tiles(o.plays_made@), played, pid, n);
            }
        }
    }

    /// The round is over once all plays are used or the target is reached.
    pub fn is_round_over(&self) -> (b: bool)
        ensures
            b == (self.current_play >= self.max_plays || self.round_score >= self.round_target),
    {
        self.current_play >= self.max_plays || self.round_score >= self.round_target
    }

    /// The overkill bonus: the wind's base (East 50, South 100, West 200,
    /// North 500) times the multiplier that the ratio of score to target
    /// earns (10 from 5x, 6 from 4x, 4 from 3x, 2 from 2x, else 1).
    pub fn calculate_overkill_bonus(&self, multiplier: u32) -> (b: u32)
        requires
            multiplier <= 10,
        ensures
            b == bonus_base(self.current_wind) * multiplier,
    {
        let base: u32 = match self.current_wind {
            Wind::East => 50,
            Wind::South => 100,
            Wind::West => 200,
            Wind::North => 500,
        };
        base * multiplier
    }

    /// Ends the round. A round whose score reaches the target passes: the
    /// overkill bonus is paid and the next round comes (after the fourth
    /// round, the next wind; after North's fourth, victory). Otherwise the
    /// game is over. `overkill_multiplier` is the multiplier that the ratio
    /// of score to target earns (see `calculate_overkill_bonus`).
    pub fn end_round(&mut self, overkill_multiplier: u32) -> (outcome: RoundOutcome)
        requires
            overkill_multiplier <= 10,
            old(self).round_score >= old(self).round_target ==> old(self).currency + bonus_base(
                old(self).current_wind,
            ) * overkill_multiplier <= u32::MAX,
            old(self).round_score >= old(self).round_target ==> old(self).current_round < 255,
        ensures
            round_end(*old(self), *final(self), outcome, overkill_multiplier),
            old(self).tiles_conserved() ==> final(self).tiles_conserved(),
    {
        if self.round_score >= self.round_target {
            let bonus = self.calculate_overkill_bonus(overkill_multiplier);
            self.currency = self.currency + bonus;
            self.current_round = self.current_round + 1;
            if self.current_round > 4 {
                self.current_round = 1;
                let next = match self.current_wind {
                    Wind::East => Wind::South,
                    Wind::South => Wind::West,
                    Wind::West => Wind::North,
                    Wind::North => {
                        self.phase = GamePhase::Victory;
                        return RoundOutcome::Victory;
                    },
                };
                self.current_wind = next;
            }
            RoundOutcome::Pass { score: self.round_score, target: self.round_target, bonus }
        } else {
            self.phase = GamePhase::GameOver;
            RoundOutcome::Fail { score: self.round_score, target: self.round_target }
        }
    }
}

impl Default for GameState {
    fn default() -> (s: Self)
        ensures
            s.is_initial(),
    {
        Self::new()
    }
}

/// Targets rise strictly through the 16 rounds and never fall after.
pub proof fn law_targets_rise(i: int, j: int)
    requires
        0 <= i < j,
    ensures
        j < 17 ==> target_table(i) < target_table(j),
        target_table(i) <= target_table(j),
{
}

/// Passing a round moves to the next round of the wind, or to round 1 of
/// the next wind; passing North's fourth round wins the run.
pub proof fn law_round_order(o: GameState, f: GameState, outcome: RoundOutcome, m: u32)
    requires
        o.round_score >= o.round_target,
        1 <= o.current_round <= 4,
        round_end(o, f, outcome, m),
    ensures
        outcome is Victory <==> (o.current_wind == Wind::North && o.current_round == 4),
        !(outcome is Victory) ==> 4 * wind_number(f.current_wind) + f.current_round == 4
            * wind_number(o.current_wind) + o.current_round + 1,
        1 <= f.current_round <= 4,
{
}

/// While a round keeps its tiles, no two tiles of the hand share an id.
pub proof fn lemma_conserved_hand_unique(st: GameState)
    requires
        st.tiles_conserved(),
    ensures
        unique_ids(st.hand_tiles@),
{
    let h = st.hand_tiles@;
    let r = st.wall.remaining_tiles();
    let pt = results_tiles(st.plays_made@);
    assert forall|id: u32| #[trigger] id_count(h, id) <= 1 by {
        law_standard_set_ids(id);
        lemma_id_count_perm(round_tiles(st), standard_set(), id);
        lemma_id_count_concat(h + r, pt, id);
        lemma_id_count_concat(h, r, id);
    }
}

/// A play accepted from the selected tiles of the hand is played from the
/// hand, while the round keeps its tiles; so submitting it and recording
/// it (see `record_play`) keeps the round's tiles too.
pub proof fn law_selected_play_from_hand(st: GameState, p: Play)
    requires
        st.tiles_conserved(),
        play_structure_outcome(with_ids(st.hand_tiles@, st.selected_tile_ids@), Ok(p)),
    ensures
        played_from_hand(st.hand_tiles@, p),
{
    let h = st.hand_tiles@;
    let sel = st.selected_tile_ids@;
    let s = with_ids(h, sel);
    let t = p.tiles_seq();
    let ids = t.map_values(|x: Tile| x.id);
    lemma_conserved_hand_unique(st);
    lemma_unique_with_ids(h, sel);
    law_play_uses_selected(s, p);
    if t.to_multiset() == s.to_multiset() {
        assert forall|i: int| 0 <= i < h.len() implies (ids.contains(#[trigger] h[i].id) <==> sel.contains(
            h[i].id,
        )) by {
            let x = h[i];
            assert(h.contains(x));
            if sel.contains(x.id) {
                lemma_with_ids_members(h, sel, x);
                t.to_multiset_ensures();
                s.to_multiset_ensures();
                assert(s.contains(x));
                assert(s.to_multiset().count(x) > 0);
                assert(t.to_multiset().count(x) > 0);
                assert(t.contains(x));
                let k = choose|k: int| 0 <= k < t.len() && t[k] == x;
                assert(ids[k] == x.id);
            }
            if ids.contains(x.id) {
                let k = choose|k: int| 0 <= k < ids.len() && ids[k] == x.id;
                let y = t[k];
                t.to_multiset_ensures();
                s.to_multiset_ensures();
                assert(t.contains(y));
                assert(t.to_multiset().count(y) > 0);
                assert(s.to_multiset().count(y) > 0);
                assert(s.contains(y));
                lemma_with_ids_members(h, sel, y);
                crate::models::faces::lemma_unique_same_id(h, x, y);
            }
        }
        lemma_with_ids_same_filter(h, ids, sel);
    } else {
        assert(ids.len() == 0);
        if with_ids(h, ids).len() > 0 {
            lemma_with_ids_members(h, ids, with_ids(h, ids)[0]);
            assert(with_ids(h, ids).contains(with_ids(h, ids)[0]));
        }
        assert(with_ids(h, ids) =~= t);
    }
}

/// A round is dealt by its seed, round and wind alone: two rounds started
/// from the same seed at the same round of the same wind hold the same
/// hand and the same wall, with the same target.
pub proof fn law_same_seed_same_deal(a: GameState, a0: GameState, b: GameState, b0: GameState, seed: u64)
    requires
        a.round_started(a0, seed),
        b.round_started(b0, seed),
        a0.current_round == b0.current_round,
        a0.current_wind == b0.current_wind,
    ensures
        a.hand_tiles@ == b.hand_tiles@,
        a.wall.remaining_tiles() == b.wall.remaining_tiles(),
        a.round_target == b.round_target,
{
}

/// Round targets rise strictly in the order the run plays its rounds:
/// each round of a wind asks more than the one before it, and the first
/// round of the next wind asks more than the fourth round of the wind
/// before (so West 1 asks more than South 4).
pub proof fn law_targets_in_run_order(w: Wind, round: u8)
    requires
        1 <= round <= 4,
    ensures
        round < 4 ==> target_score(w, round) < target_score(w, (round + 1) as u8),
        round == 4 && next_wind(w) is Some ==> target_score(w, 4) < target_score(next_wind(w).unwrap(), 1),
{
}


/// The winds in the order a run plays them.
pub open spec fn wind_order() -> Seq<Wind> {
    seq![Wind::East, Wind::South, Wind::West, Wind::North]
}

/// Round `r1` of wind `w1` is played before round `r2` of wind `w2`.
pub open spec fn played_before(w1: Wind, r1: u8, w2: Wind, r2: u8) -> bool {
    exists|i: int, j: int|
        0 <= i <= j < 4 && #[trigger] wind_order()[i] == w1 && #[trigger] wind_order()[j] == w2 && (i < j
            || r1 < r2)
}

/// Round targets rise strictly over the whole run: every round asks more
/// than each round played before it.
pub proof fn law_targets_rise_over_run(w1: Wind, r1: u8, w2: Wind, r2: u8)
    requires
        1 <= r1 <= 4,
        1 <= r2 <= 4,
        played_before(w1, r1, w2, r2),
    ensures
        target_score(w1, r1) < target_score(w2, r2),
{
    let (i, j) = choose|i: int, j: int|
        0 <= i <= j < 4 && #[trigger] wind_order()[i] == w1 && #[trigger] wind_order()[j] == w2 && (i < j
            || r1 < r2);
    assert(wind_number(w1) == i && wind_number(w2) == j);
    law_targets_rise(4 * i + r1 - 1, 4 * j + r2 - 1);
}

} // verus!
