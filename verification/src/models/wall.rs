//! The wall: the shuffled tiles still to be drawn, and those drawn so far.

use rand::seq::SliceRandom;
use rand::SeedableRng;
use rand_chacha::ChaCha8Rng;
use vstd::prelude::*;

use crate::models::faces::{contains_id, id_count, unique_ids, without_ids};
use crate::models::tile::{standard_tile, standard_tile_set, Tile};

verus! {

/// The standard 136-tile set, as a sequence.
pub open spec fn standard_set() -> Seq<Tile> {
    Seq::new(136, |i: int| standard_tile(i))
}

/// The order that `tiles` takes when shuffled with a ChaCha8 generator
/// seeded with `seed`.
pub uninterp spec fn seeded_shuffle(tiles: Seq<Tile>, seed: u64) -> Seq<Tile>;

/// Calls `SliceRandom::shuffle` (rand) with `ChaCha8Rng::seed_from_u64`
/// (rand_chacha). Trusted: the result is the seeded shuffle of the input,
/// and, as the shuffle only swaps elements, a permutation of it.
#[verifier::external_body]
fn shuffle_with_seed(tiles: Vec<Tile>, seed: u64) -> (r: Vec<Tile>)
    ensures
        r@ == seeded_shuffle(tiles@, seed),
        r@.to_multiset() == tiles@.to_multiset(),
{
    let mut tiles = tiles;
    let mut rng = ChaCha8Rng::seed_from_u64(seed);
    tiles.shuffle(&mut rng);
    tiles
}

/// `s` restricted to the tiles whose id is in `ids` (order kept).
pub open spec fn with_ids(s: Seq<Tile>, ids: Seq<u32>) -> Seq<Tile>
    decreases s.len(),
{
    if s.len() == 0 {
        s
    } else {
        let prev = with_ids(s.drop_last(), ids);
        if ids.contains(s.last().id) {
            prev.push(s.last())
        } else {
            prev
        }
    }
}

#[derive(Clone, Debug)]
pub struct Wall {
    tiles: Vec<Tile>,
    drawn: Vec<Tile>,
    initial_count: usize,
}

impl Wall {
    /// The tiles still in the wall, next to be drawn first.
    pub closed spec fn remaining_tiles(self) -> Seq<Tile> {
        self.tiles@
    }

    /// The tiles drawn so far, in drawing order.
    pub closed spec fn drawn_tiles(self) -> Seq<Tile> {
        self.drawn@
    }

    /// The number of tiles the wall was built with.
    pub closed spec fn initial(self) -> nat {
        self.initial_count as nat
    }

    /// A wall just built from `seed`: the standard set shuffled with that
    /// seed, nothing drawn.
    pub open spec fn fresh_from(self, seed: u64) -> bool {
        &&& self.remaining_tiles() == seeded_shuffle(standard_set(), seed)
        &&& self.remaining_tiles().to_multiset() == standard_set().to_multiset()
        &&& self.drawn_tiles() == Seq::<Tile>::empty()
        &&& self.initial() == 136
    }

    pub fn new(seed: u64) -> (w: Self)
        ensures
            w.fresh_from(seed),
    {
        let tiles = standard_tile_set();
        assert(tiles@ =~= standard_set());
        let tiles = shuffle_with_seed(tiles, seed);
        let initial_count = tiles.len();
        assert(tiles@.len() == 136) by {
            tiles@.to_multiset_ensures();
            standard_set().to_multiset_ensures();
        }
        Wall { tiles, drawn: Vec::new(), initial_count }
    }

    /// A wall holding exactly these parts (for restoring a saved wall).
    pub fn from_parts(tiles: Vec<Tile>, drawn: Vec<Tile>, initial_count: usize) -> (w: Self)
        ensures
            w.remaining_tiles() == tiles@,
            w.drawn_tiles() == drawn@,
            w.initial() == initial_count,
    {
        Wall { tiles, drawn, initial_count }
    }

    /// Draws up to `count` tiles from the front of the wall.
    pub fn draw(&mut self, count: usize) -> (taken: Vec<Tile>)
        ensures
            ({
                let n = if count < old(self).remaining_tiles().len() {
                    count as int
                } else {
                    old(self).remaining_tiles().len() as int
                };
                &&& taken@ == old(self).remaining_tiles().take(n)
                &&& final(self).remaining_tiles() == old(self).remaining_tiles().skip(n)
                &&& final(self).drawn_tiles() == old(self).drawn_tiles() + taken@
                &&& final(self).initial() == old(self).initial()
            }),
    {
        let len = self.tiles.len();
        let actual = if count < len {
            count
        } else {
            len
        };
        let ghost before = self.tiles@;
        let mut taken: Vec<Tile> = Vec::new();
        let mut rest: Vec<Tile> = Vec::new();
        let mut i: usize = 0;
        while i < len
            invariant
                len == before.len(),
                actual <= len,
                before == self.tiles@,
                i <= len,
                taken@ == before.take(if i < actual { i as int } else { actual as int }),
                rest@ == if i < actual {
                    Seq::<Tile>::empty()
                } else {
                    before.subrange(actual as int, i as int)
                },
            decreases len - i,
        {
            let t = self.tiles[i];
            if i < actual {
                taken.push(t);
                proof {
                    assert(before.take(i + 1) =~= before.take(i as int).push(t));
                }
            } else {
                rest.push(t);
                proof {
                    assert(before.subrange(actual as int, i + 1) =~= before.subrange(
                        actual as int,
                        i as int,
                    ).push(t));
                }
            }
            i = i + 1;
            proof {
                if i == actual {
                    assert(before.subrange(actual as int, i as int) =~= Seq::<Tile>::empty());
                }
            }
        }
        proof {
            if len == actual {
                assert(before.subrange(actual as int, len as int) =~= Seq::<Tile>::empty());
            }
            assert(before.subrange(actual as int, len as int) =~= before.skip(actual as int));
        }
        self.tiles = rest;
        let mut k: usize = 0;
        let ghost drawn_before = self.drawn@;
        while k < taken.len()
            invariant
                k <= taken@.len(),
                self.drawn@ == drawn_before + taken@.take(k as int),
                self.tiles@ == before.skip(actual as int),
                self.initial_count == old(self).initial_count,
            decreases taken@.len() - k,
        {
            self.drawn.push(taken[k]);
            proof {
                assert(taken@.take(k + 1) =~= taken@.take(k as int).push(taken@[k as int]));
                assert(drawn_before + taken@.take(k + 1) =~= (drawn_before + taken@.take(
                    k as int,
                )).push(taken@[k as int]));
            }
            k = k + 1;
        }
        assert(taken@.take(k as int) =~= taken@);
        taken
    }

    pub fn remaining(&self) -> (n: usize)
        ensures
            n == self.remaining_tiles().len(),
    {
        self.tiles.len()
    }

    pub fn drawn_count(&self) -> (n: usize)
        ensures
            n == self.drawn_tiles().len(),
    {
        self.drawn.len()
    }

    pub fn initial_count(&self) -> (n: usize)
        ensures
            n == self.initial(),
    {
        self.initial_count
    }

    /// Remove specific tiles by id (for tile destruction/manipulation);
    /// returns the removed tiles in wall order.
    pub fn remove_by_ids(&mut self, ids: &[u32]) -> (removed: Vec<Tile>)
        ensures
            removed@ == with_ids(old(self).remaining_tiles(), ids@),
            final(self).remaining_tiles() == without_ids(old(self).remaining_tiles(), ids@),
            final(self).drawn_tiles() == old(self).drawn_tiles(),
            final(self).initial() == old(self).initial(),
    {
        let ghost before = self.tiles@;
        let mut removed: Vec<Tile> = Vec::new();
        let mut kept: Vec<Tile> = Vec::new();
        let mut i: usize = 0;
        while i < self.tiles.len()
            invariant
                before == self.tiles@,
                i <= before.len(),
                removed@ == with_ids(before.take(i as int), ids@),
                kept@ == without_ids(before.take(i as int), ids@),
            decreases before.len() - i,
        {
            proof {
                assert(before.take(i + 1).drop_last() =~= before.take(i as int));
            }
            let t = self.tiles[i];
            if contains_id(ids, t.id) {
                removed.push(t);
            } else {
                kept.push(t);
            }
            i = i + 1;
        }
        assert(before.take(i as int) =~= before);
        self.tiles = kept;
        removed
    }

    /// Add tiles back to the end of the wall (for certain gadgets/effects).
    pub fn add_tiles(&mut self, tiles: Vec<Tile>)
        ensures
            final(self).remaining_tiles() == old(self).remaining_tiles() + tiles@,
            final(self).drawn_tiles() == old(self).drawn_tiles(),
            final(self).initial() == old(self).initial(),
    {
        let mut tiles = tiles;
        self.tiles.append(&mut tiles);
    }

    /// The remaining tiles (for peeking/previewing).
    pub fn peek_remaining(&self) -> (r: &[Tile])
        ensures
            r@ == self.remaining_tiles(),
    {
        self.tiles.as_slice()
    }

    /// The tiles already drawn.
    pub fn peek_drawn(&self) -> (r: &[Tile])
        ensures
            r@ == self.drawn_tiles(),
    {
        self.drawn.as_slice()
    }
}

/// Drawing moves tiles from the front of the wall to the end of the drawn
/// pile: what is taken followed by what remains is the wall before, and no
/// tile is lost or gained.
pub proof fn law_draw_conserves_tiles(remaining: Seq<Tile>, drawn: Seq<Tile>, count: nat)
    ensures
        ({
            let n = if count < remaining.len() {
                count as int
            } else {
                remaining.len() as int
            };
            let taken = remaining.take(n);
            let rest = remaining.skip(n);
            &&& taken + rest == remaining
            &&& (drawn + taken).len() + rest.len() == drawn.len() + remaining.len()
            &&& ((drawn + taken) + rest).to_multiset() == (drawn + remaining).to_multiset()
        }),
{
    let n = if count < remaining.len() {
        count as int
    } else {
        remaining.len() as int
    };
    assert(remaining.take(n) + remaining.skip(n) =~= remaining);
    assert((drawn + remaining.take(n)) + remaining.skip(n) =~= drawn + remaining);
}

/// Two walls built from the same seed hold the same tiles in the same order.
pub proof fn law_same_seed_same_wall(a: Wall, b: Wall, seed: u64)
    requires
        a.fresh_from(seed),
        b.fresh_from(seed),
    ensures
        a.remaining_tiles() == b.remaining_tiles(),
        a.drawn_tiles() == b.drawn_tiles(),
{
}

/// Removing tiles by id and adding the removed tiles back loses and gains
/// nothing: what is kept and what was removed are, together, the tiles
/// that were there, each as often as before.
pub proof fn law_remove_then_add_conserves(s: Seq<Tile>, ids: Seq<u32>)
    ensures
        (without_ids(s, ids) + with_ids(s, ids)).to_multiset() == s.to_multiset(),
        without_ids(s, ids).len() + with_ids(s, ids).len() == s.len(),
    decreases s.len(),
{
    broadcast use vstd::seq_lib::group_to_multiset_ensures;
    broadcast use vstd::seq_lib::lemma_multiset_commutative;

    if s.len() > 0 {
        let p = s.drop_last();
        let x = s.last();
        law_remove_then_add_conserves(p, ids);
        assert(p.push(x) =~= s);
        let k = without_ids(p, ids);
        let r = with_ids(p, ids);
        if ids.contains(x.id) {
            assert(without_ids(s, ids) == k);
            assert(with_ids(s, ids) == r.push(x));
            assert((k + r.push(x)).to_multiset() =~= (k + r).to_multiset().insert(x)) by {
                assert(k + r.push(x) =~= (k + r).push(x));
            }
        } else {
            assert(without_ids(s, ids) == k.push(x));
            assert(with_ids(s, ids) == r);
            assert((k.push(x) + r).to_multiset() =~= (k + r).to_multiset().insert(x));
        }
    }
}

/// The tiles that `with_ids` keeps: those of `s` whose id is listed.
pub proof fn lemma_with_ids_members(s: Seq<Tile>, ids: Seq<u32>, v: Tile)
    ensures
        with_ids(s, ids).contains(v) <==> (s.contains(v) && ids.contains(v.id)),
    decreases s.len(),
{
    if s.len() > 0 {
        let p = s.drop_last();
        lemma_with_ids_members(p, ids, v);
        assert(p.push(s.last()) =~= s);
        if with_ids(s, ids).contains(v) {
            let k = choose|k: int| 0 <= k < with_ids(s, ids).len() && with_ids(s, ids)[k] == v;
            if with_ids(s, ids) != with_ids(p, ids) && k == with_ids(s, ids).len() - 1 {
                assert(s[s.len() - 1] == v);
            } else {
                assert(with_ids(p, ids)[k] == v);
                let m = choose|m: int| 0 <= m < p.len() && p[m] == v;
                assert(s[m] == v);
            }
        }
        if s.contains(v) && ids.contains(v.id) {
            let m = choose|m: int| 0 <= m < s.len() && s[m] == v;
            if m < s.len() - 1 {
                assert(p[m] == v);
                let k = choose|k: int| 0 <= k < with_ids(p, ids).len() && with_ids(p, ids)[k] == v;
                assert(with_ids(s, ids)[k] == v);
            } else {
                assert(with_ids(s, ids).last() == v);
            }
        }
    }
}

/// Two id lists that agree on every tile of `s` keep the same tiles.
pub proof fn lemma_with_ids_same_filter(s: Seq<Tile>, a: Seq<u32>, b: Seq<u32>)
    requires
        forall|i: int| 0 <= i < s.len() ==> (a.contains(#[trigger] s[i].id) <==> b.contains(s[i].id)),
    ensures
        with_ids(s, a) == with_ids(s, b),
    decreases s.len(),
{
    if s.len() > 0 {
        let p = s.drop_last();
        assert forall|i: int| 0 <= i < p.len() implies (a.contains(#[trigger] p[i].id) <==> b.contains(
            p[i].id,
        )) by {
            assert(p[i] == s[i]);
        }
        lemma_with_ids_same_filter(p, a, b);
        assert(a.contains(s[s.len() - 1].id) <==> b.contains(s[s.len() - 1].id));
    }
}

/// Keeping tiles by id never adds to the count of an id.
pub proof fn lemma_with_ids_id_count(s: Seq<Tile>, ids: Seq<u32>, id: u32)
    ensures
        id_count(with_ids(s, ids), id) <= id_count(s, id),
    decreases s.len(),
{
    if s.len() > 0 {
        let p = s.drop_last();
        lemma_with_ids_id_count(p, ids, id);
        assert(with_ids(p, ids).push(s.last()).drop_last() =~= with_ids(p, ids));
    }
}

/// Keeping tiles by id keeps ids unique.
pub proof fn lemma_unique_with_ids(s: Seq<Tile>, ids: Seq<u32>)
    requires
        unique_ids(s),
    ensures
        unique_ids(with_ids(s, ids)),
{
    assert forall|id: u32| #[trigger] id_count(with_ids(s, ids), id) <= 1 by {
        lemma_with_ids_id_count(s, ids, id);
        assert(id_count(s, id) <= 1);
    }
}

} // verus!
