//! Counting tiles by face (suit and rank), and picking tiles of a face.

use vstd::prelude::*;

use crate::models::tile::{Tile, TileSuit};

verus! {

/// Whether tile `t` shows the face (`suit`, `rank`).
pub open spec fn shows(t: Tile, suit: TileSuit, rank: u8) -> bool {
    t.suit == suit && t.rank == rank
}

/// How many tiles of `s` show the face (`suit`, `rank`).
pub open spec fn face_count(s: Seq<Tile>, suit: TileSuit, rank: u8) -> nat
    decreases s.len(),
{
    if s.len() == 0 {
        0
    } else {
        face_count(s.drop_last(), suit, rank) + if shows(s.last(), suit, rank) {
            1nat
        } else {
            0nat
        }
    }
}

/// Some tile of `s` shows the face.
pub open spec fn has_face(s: Seq<Tile>, suit: TileSuit, rank: u8) -> bool {
    exists|i: int| 0 <= i < s.len() && #[trigger] shows(s[i], suit, rank)
}

/// `s` without every tile whose id is in `ids` (order kept).
pub open spec fn without_ids(s: Seq<Tile>, ids: Seq<u32>) -> Seq<Tile>
    decreases s.len(),
{
    if s.len() == 0 {
        s
    } else {
        let prev = without_ids(s.drop_last(), ids);
        if ids.contains(s.last().id) {
            prev
        } else {
            prev.push(s.last())
        }
    }
}

pub proof fn lemma_face_count_bounds(s: Seq<Tile>, suit: TileSuit, rank: u8)
    ensures
        face_count(s, suit, rank) <= s.len(),
        face_count(s, suit, rank) > 0 <==> has_face(s, suit, rank),
    decreases s.len(),
{
    if s.len() > 0 {
        lemma_face_count_bounds(s.drop_last(), suit, rank);
        if has_face(s.drop_last(), suit, rank) {
            let i = choose|i: int| 0 <= i < s.drop_last().len() && #[trigger] shows(s.drop_last()[i], suit, rank);
            assert(shows(s[i], suit, rank));
        }
        if has_face(s, suit, rank) {
            let i = choose|i: int| 0 <= i < s.len() && #[trigger] shows(s[i], suit, rank);
            if i < s.len() - 1 {
                assert(shows(s.drop_last()[i], suit, rank));
            }
        }
        if shows(s.last(), suit, rank) {
            assert(shows(s[s.len() - 1], suit, rank));
        }
    }
}

/// Counts the tiles of `tiles` that show the face (`suit`, `rank`).
pub fn count_face(tiles: &[Tile], suit: TileSuit, rank: u8) -> (n: usize)
    ensures
        n == face_count(tiles@, suit, rank),
{
    let mut n: usize = 0;
    let mut i: usize = 0;
    while i < tiles.len()
        invariant
            i <= tiles@.len(),
            n == face_count(tiles@.take(i as int), suit, rank),
            n <= i,
        decreases tiles@.len() - i,
    {
        proof {
            assert(tiles@.take(i + 1).drop_last() =~= tiles@.take(i as int));
        }
        if tiles[i].suit == suit && tiles[i].rank == rank {
            n = n + 1;
        }
        i = i + 1;
    }
    assert(tiles@.take(i as int) =~= tiles@);
    n
}

/// Whether `id` occurs in `ids`.
pub fn contains_id(ids: &[u32], id: u32) -> (b: bool)
    ensures
        b == ids@.contains(id),
{
    let mut i: usize = 0;
    while i < ids.len()
        invariant
            i <= ids@.len(),
            forall|j: int| 0 <= j < i ==> ids@[j] != id,
        decreases ids@.len() - i,
    {
        if ids[i] == id {
            return true;
        }
        i = i + 1;
    }
    false
}

// ---------------------------------------------------------------------------
// Ids
// ---------------------------------------------------------------------------

/// How many tiles of `s` carry the id `id`.
pub open spec fn id_count(s: Seq<Tile>, id: u32) -> nat
    decreases s.len(),
{
    if s.len() == 0 {
        0
    } else {
        id_count(s.drop_last(), id) + if s.last().id == id {
            1nat
        } else {
            0nat
        }
    }
}

/// No two tiles of `s` carry the same id.
pub open spec fn unique_ids(s: Seq<Tile>) -> bool {
    forall|id: u32| #[trigger] id_count(s, id) <= 1
}

/// A tile of `s` counts towards its id; each tile occurs in `s` at most
/// as often as its id does.
pub proof fn lemma_id_count_contains(s: Seq<Tile>, v: Tile)
    ensures
        s.contains(v) ==> id_count(s, v.id) >= 1,
        s.to_multiset().count(v) <= id_count(s, v.id),
    decreases s.len(),
{
    broadcast use vstd::seq_lib::group_to_multiset_ensures;

    if s.len() > 0 {
        let p = s.drop_last();
        lemma_id_count_contains(p, v);
        assert(p.push(s.last()) =~= s);
        if s.contains(v) && s.last() != v {
            let i = choose|i: int| 0 <= i < s.len() && s[i] == v;
            assert(p[i] == v);
        }
    }
}

/// In a sequence with unique ids, two tiles with the same id are the same
/// tile.
pub proof fn lemma_unique_same_id(s: Seq<Tile>, v: Tile, w: Tile)
    requires
        unique_ids(s),
        s.contains(v),
        s.contains(w),
        v.id == w.id,
    ensures
        v == w,
    decreases s.len(),
{
    let p = s.drop_last();
    let x = s.last();
    assert forall|id: u32| #[trigger] id_count(p, id) <= 1 by {
        assert(id_count(s, id) <= 1);
    }
    let i = choose|i: int| 0 <= i < s.len() && s[i] == v;
    let j = choose|j: int| 0 <= j < s.len() && s[j] == w;
    if i < s.len() - 1 && j < s.len() - 1 {
        assert(p[i] == v && p[j] == w);
        lemma_unique_same_id(p, v, w);
    } else if i < s.len() - 1 {
        assert(p[i] == v);
        lemma_id_count_contains(p, v);
        assert(id_count(s, v.id) >= 2);
    } else if j < s.len() - 1 {
        assert(p[j] == w);
        lemma_id_count_contains(p, w);
        assert(id_count(s, w.id) >= 2);
    }
}

/// The count of an id over a concatenation is the sum of the counts.
pub proof fn lemma_id_count_concat(a: Seq<Tile>, b: Seq<Tile>, id: u32)
    ensures
        id_count(a + b, id) == id_count(a, id) + id_count(b, id),
    decreases b.len(),
{
    if b.len() == 0 {
        assert(a + b =~= a);
    } else {
        lemma_id_count_concat(a, b.drop_last(), id);
        assert((a + b).drop_last() =~= a + b.drop_last());
    }
}

proof fn lemma_id_count_remove(b: Seq<Tile>, j: int, id: u32)
    requires
        0 <= j < b.len(),
    ensures
        id_count(b, id) == id_count(b.remove(j), id) + if b[j].id == id {
            1nat
        } else {
            0nat
        },
    decreases b.len(),
{
    if j < b.len() - 1 {
        lemma_id_count_remove(b.drop_last(), j, id);
        assert(b.remove(j).drop_last() =~= b.drop_last().remove(j));
        assert(b.remove(j).last() == b.last());
    } else {
        assert(b.remove(j) =~= b.drop_last());
    }
}

/// Sequences with the same tiles, each as often, have the same count of
/// every id.
pub proof fn lemma_id_count_perm(a: Seq<Tile>, b: Seq<Tile>, id: u32)
    requires
        a.to_multiset() == b.to_multiset(),
    ensures
        id_count(a, id) == id_count(b, id),
    decreases a.len(),
{
    broadcast use vstd::seq_lib::group_to_multiset_ensures;

    if a.len() == 0 {
        assert(a.to_multiset().len() == 0);
        assert(b.to_multiset().len() == b.len());
        assert(b.len() == 0);
        assert(b =~= a);
    } else {
        let x = a.last();
        let p = a.drop_last();
        assert(p.push(x) =~= a);
        assert(b.to_multiset().count(x) > 0);
        assert(b.contains(x));
        let j = choose|j: int| 0 <= j < b.len() && b[j] == x;
        let b2 = b.remove(j);
        assert(b2.to_multiset() =~= b.to_multiset().remove(x));
        assert(p.to_multiset() =~= a.to_multiset().remove(x));
        lemma_id_count_perm(p, b2, id);
        lemma_id_count_remove(b, j, id);
    }
}

} // verus!
