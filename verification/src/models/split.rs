//! Splitting tiles into groups by face. A face (suit and rank) has a key;
//! a hand is seen as its count of tiles per key. A triplet takes three of
//! one key, a sequence one each of three consecutive keys of a numbered
//! suit, a pair two of one key.

use vstd::prelude::*;

use crate::models::hand::{chi_shape, groups_tiles, meld_fits, pair_shape, pon_shape, MeldKind};
use crate::models::tile::{Tile, TileSuit};

verus! {

/// The number of face keys: 5 suits of 256 ranks.
pub const FACE_KEYS: usize = 1280;

pub open spec fn suit_index(s: TileSuit) -> int {
    match s {
        TileSuit::Manzu => 0,
        TileSuit::Pinzu => 1,
        TileSuit::Souzu => 2,
        TileSuit::Wind => 3,
        TileSuit::Dragon => 4,
    }
}

/// The key of a tile's face: faces in order of suit, then rank.
pub open spec fn face_key(t: Tile) -> int {
    suit_index(t.suit) * 256 + t.rank as int
}

/// The key of a tile's face.
pub fn key_of(t: &Tile) -> (k: usize)
    ensures
        k == face_key(*t),
        k < FACE_KEYS,
{
    let s: usize = match t.suit {
        TileSuit::Manzu => 0,
        TileSuit::Pinzu => 1,
        TileSuit::Souzu => 2,
        TileSuit::Wind => 3,
        TileSuit::Dragon => 4,
    };
    s * 256 + t.rank as usize
}

/// Two tiles have the same key exactly when they show the same face.
pub proof fn lemma_face_key_same(a: Tile, b: Tile)
    ensures
        face_key(a) == face_key(b) <==> a.same_kind(b),
        0 <= face_key(a) < 1280,
{
}

// ---------------------------------------------------------------------------
// Counts
// ---------------------------------------------------------------------------

/// How many tiles of `s` have the key `k`.
pub open spec fn key_count(s: Seq<Tile>, k: int) -> nat
    decreases s.len(),
{
    if s.len() == 0 {
        0
    } else {
        key_count(s.drop_last(), k) + if face_key(s.last()) == k {
            1nat
        } else {
            0nat
        }
    }
}

/// The count of each key in `s`.
pub open spec fn counts_of(s: Seq<Tile>) -> Seq<int> {
    Seq::new(1280, |k: int| key_count(s, k) as int)
}

pub open spec fn counts_ok(c: Seq<int>) -> bool {
    c.len() == 1280 && forall|j: int| 0 <= j < 1280 ==> #[trigger] c[j] >= 0
}

pub open spec fn all_zero(c: Seq<int>) -> bool {
    forall|j: int| 0 <= j < 1280 ==> #[trigger] c[j] == 0
}

/// How many tiles of key `j` a group of `kind` at key `k` takes.
pub open spec fn group_need(kind: MeldKind, k: int, j: int) -> int {
    match kind {
        MeldKind::Pair => if j == k { 2 } else { 0 },
        MeldKind::Pon => if j == k { 3 } else { 0 },
        MeldKind::Kan => if j == k { 4 } else { 0 },
        MeldKind::Chi => if k <= j <= k + 2 { 1 } else { 0 },
    }
}

/// A group of `kind` can start at key `k`: a sequence needs a numbered
/// suit and a starting rank of 7 or below.
pub open spec fn group_ok(kind: MeldKind, k: int) -> bool {
    &&& 0 <= k < 1280
    &&& kind is Chi ==> k < 768 && k % 256 <= 7
}

/// The counts hold a group of `kind` at `k`.
pub open spec fn group_fits(c: Seq<int>, kind: MeldKind, k: int) -> bool {
    match kind {
        MeldKind::Chi => c[k] >= 1 && c[k + 1] >= 1 && c[k + 2] >= 1,
        MeldKind::Pair => c[k] >= 2,
        MeldKind::Pon => c[k] >= 3,
        MeldKind::Kan => c[k] >= 4,
    }
}

/// The counts left after taking a group.
pub open spec fn take_counts(c: Seq<int>, kind: MeldKind, k: int) -> Seq<int> {
    Seq::new(1280, |j: int| c[j] - group_need(kind, k, j))
}

pub open spec fn is_meld_kind(kind: MeldKind) -> bool {
    kind is Pon || kind is Chi
}

/// The counts split into exactly `n` triplets and sequences.
pub open spec fn splits(c: Seq<int>, n: nat) -> bool
    decreases n,
{
    if n == 0 {
        all_zero(c)
    } else {
        exists|kind: MeldKind, k: int|
            #[trigger] group_ok(kind, k) && is_meld_kind(kind) && group_fits(c, kind, k) && splits(
                take_counts(c, kind, k),
                (n - 1) as nat,
            )
    }
}

/// The first key from `i` on with a nonzero count (1280 if none).
pub open spec fn first_nonzero(c: Seq<int>, i: int) -> int
    decreases 1280 - i,
{
    if i >= 1280 {
        1280
    } else if c[i] != 0 {
        i
    } else {
        first_nonzero(c, i + 1)
    }
}

/// The split found by taking, at the lowest face left, a triplet if the
/// rest splits, else a sequence if the rest splits.
pub open spec fn lowest_split(c: Seq<int>, n: nat) -> Option<Seq<(MeldKind, int)>>
    decreases n,
{
    if n == 0 {
        if all_zero(c) {
            Some(seq![])
        } else {
            None
        }
    } else {
        let f = first_nonzero(c, 0);
        if f >= 1280 {
            None
        } else {
            let by_pon = if c[f] >= 3 {
                match lowest_split(take_counts(c, MeldKind::Pon, f), (n - 1) as nat) {
                    Some(r) => Some(seq![(MeldKind::Pon, f)] + r),
                    None => None,
                }
            } else {
                None
            };
            if by_pon is Some {
                by_pon
            } else if group_ok(MeldKind::Chi, f) && group_fits(c, MeldKind::Chi, f) {
                match lowest_split(take_counts(c, MeldKind::Chi, f), (n - 1) as nat) {
                    Some(r) => Some(seq![(MeldKind::Chi, f)] + r),
                    None => None,
                }
            } else {
                None
            }
        }
    }
}

/// The counts after taking each group of `plan` in turn.
pub open spec fn plan_counts(c: Seq<int>, plan: Seq<(MeldKind, int)>) -> Seq<int>
    decreases plan.len(),
{
    if plan.len() == 0 {
        c
    } else {
        take_counts(plan_counts(c, plan.drop_last()), plan.last().0, plan.last().1)
    }
}

/// Each group of `plan` is there to take when its turn comes.
pub open spec fn plan_fits(c: Seq<int>, plan: Seq<(MeldKind, int)>) -> bool
    decreases plan.len(),
{
    if plan.len() == 0 {
        true
    } else {
        &&& plan_fits(c, plan.drop_last())
        &&& group_ok(plan.last().0, plan.last().1)
        &&& group_fits(plan_counts(c, plan.drop_last()), plan.last().0, plan.last().1)
    }
}

// ---------------------------------------------------------------------------
// Lemmas on counts
// ---------------------------------------------------------------------------

proof fn lemma_first_nonzero(c: Seq<int>, i: int)
    requires
        0 <= i <= 1280,
        c.len() == 1280,
    ensures
        i <= first_nonzero(c, i) <= 1280,
        forall|j: int| i <= j < first_nonzero(c, i) ==> c[j] == 0,
        first_nonzero(c, i) < 1280 ==> c[first_nonzero(c, i)] != 0,
    decreases 1280 - i,
{
    if i < 1280 && c[i] == 0 {
        lemma_first_nonzero(c, i + 1);
    }
}

/// The first nonzero key is the one with a nonzero count and only zeros
/// below.
pub proof fn lemma_first_nonzero_is(c: Seq<int>, f: int)
    requires
        c.len() == 1280,
        0 <= f <= 1280,
        f < 1280 ==> c[f] != 0,
        forall|j: int| 0 <= j < f ==> c[j] == 0,
    ensures
        first_nonzero(c, 0) == f,
{
    lemma_first_nonzero(c, 0);
    let r = first_nonzero(c, 0);
    if r < f {
        assert(c[r] == 0);
    }
    if r > f {
        assert(c[f] == 0);
    }
}

proof fn lemma_take_ok(c: Seq<int>, kind: MeldKind, k: int)
    requires
        counts_ok(c),
        group_ok(kind, k),
        group_fits(c, kind, k),
    ensures
        counts_ok(take_counts(c, kind, k)),
{
    assert forall|j: int| 0 <= j < 1280 implies #[trigger] take_counts(c, kind, k)[j] >= 0 by {
    }
}

proof fn lemma_take_commute(c: Seq<int>, a: MeldKind, ka: int, b: MeldKind, kb: int)
    ensures
        take_counts(take_counts(c, a, ka), b, kb) == take_counts(take_counts(c, b, kb), a, ka),
{
    assert(take_counts(take_counts(c, a, ka), b, kb) =~= take_counts(take_counts(c, b, kb), a, ka));
}

/// Counts with nothing left split into no groups only.
proof fn lemma_splits_nonzero(c: Seq<int>, n: nat)
    requires
        counts_ok(c),
        splits(c, n),
        n > 0,
    ensures
        first_nonzero(c, 0) < 1280,
{
    let (kind, k) = choose|kind: MeldKind, k: int|
        #[trigger] group_ok(kind, k) && is_meld_kind(kind) && group_fits(c, kind, k) && splits(
            take_counts(c, kind, k),
            (n - 1) as nat,
        );
    lemma_first_nonzero(c, 0);
    assert(c[k] != 0);
}

/// If counts split into `n` melds, some split starts with a triplet or a
/// sequence at the lowest face.
proof fn lemma_exchange(c: Seq<int>, n: nat)
    requires
        counts_ok(c),
        splits(c, n),
        n > 0,
    ensures
        ({
            let f = first_nonzero(c, 0);
            ||| c[f] >= 3 && splits(take_counts(c, MeldKind::Pon, f), (n - 1) as nat)
            ||| group_ok(MeldKind::Chi, f) && group_fits(c, MeldKind::Chi, f) && splits(
                take_counts(c, MeldKind::Chi, f),
                (n - 1) as nat,
            )
        }),
    decreases n,
{
    lemma_splits_nonzero(c, n);
    lemma_first_nonzero(c, 0);
    let f = first_nonzero(c, 0);
    let (kind, k) = choose|kind: MeldKind, k: int|
        #[trigger] group_ok(kind, k) && is_meld_kind(kind) && group_fits(c, kind, k) && splits(
            take_counts(c, kind, k),
            (n - 1) as nat,
        );
    if group_need(kind, k, f) > 0 {
        assert(c[k] != 0);
        assert(k == f);
    } else {
        let c1 = take_counts(c, kind, k);
        lemma_take_ok(c, kind, k);
        assert(c1[f] == c[f]);
        assert forall|j: int| 0 <= j < f implies c1[j] == 0 by {
            assert(c[j] == 0);
            assert(c1[j] >= 0);
        }
        lemma_first_nonzero_is(c1, f);
        if n - 1 == 0 {
            assert(c1[f] == 0);
        }
        lemma_exchange(c1, (n - 1) as nat);
        let kind2 = if c1[f] >= 3 && splits(take_counts(c1, MeldKind::Pon, f), (n - 2) as nat) {
            MeldKind::Pon
        } else {
            MeldKind::Chi
        };
        let c2 = take_counts(c1, kind2, f);
        lemma_take_ok(c1, kind2, f);
        lemma_take_commute(c, kind, k, kind2, f);
        let c3 = take_counts(c, kind2, f);
        assert(group_fits(c3, kind, k)) by {
            assert(c2[k] >= 0);
            if kind is Chi {
                assert(c2[k + 1] >= 0);
                assert(c2[k + 2] >= 0);
            }
        }
        assert(group_fits(c, kind2, f));
        assert(splits(c3, (n - 1) as nat)) by {
            assert(group_ok(kind, k) && is_meld_kind(kind) && group_fits(c3, kind, k) && splits(
                take_counts(c3, kind, k),
                (n - 2) as nat,
            ));
        }
    }
}

/// The lowest split is a split, and it is found whenever the counts
/// split.
pub proof fn lemma_lowest_split(c: Seq<int>, n: nat)
    requires
        counts_ok(c),
    ensures
        lowest_split(c, n) is Some <==> splits(c, n),
        lowest_split(c, n) matches Some(r) ==> r.len() == n && plan_fits(c, r) && all_zero(
            plan_counts(c, r),
        ) && forall|i: int| 0 <= i < r.len() ==> is_meld_kind(#[trigger] r[i].0),
    decreases n,
{
    if n > 0 {
        let f = first_nonzero(c, 0);
        lemma_first_nonzero(c, 0);
        if f < 1280 {
            if c[f] >= 3 {
                lemma_take_ok(c, MeldKind::Pon, f);
                lemma_lowest_split(take_counts(c, MeldKind::Pon, f), (n - 1) as nat);
            }
            if group_ok(MeldKind::Chi, f) && group_fits(c, MeldKind::Chi, f) {
                lemma_take_ok(c, MeldKind::Chi, f);
                lemma_lowest_split(take_counts(c, MeldKind::Chi, f), (n - 1) as nat);
            }
            if splits(c, n) {
                lemma_exchange(c, n);
            }
            if let Some(r) = lowest_split(c, n) {
                let pon_some = c[f] >= 3 && lowest_split(take_counts(c, MeldKind::Pon, f), (n - 1) as nat) is Some;
                let kind = if pon_some { MeldKind::Pon } else { MeldKind::Chi };
                let c1 = take_counts(c, kind, f);
                let rest = lowest_split(c1, (n - 1) as nat).unwrap();
                let x = (kind, f);
                assert(r == seq![x] + rest);
                lemma_plan_cons(c, x, rest);
                assert(group_ok(x.0, x.1) && is_meld_kind(x.0) && group_fits(c, x.0, x.1) && splits(
                    take_counts(c, x.0, x.1),
                    (n - 1) as nat,
                ));
                assert forall|i: int| 0 <= i < r.len() implies is_meld_kind(#[trigger] r[i].0) by {
                    if i > 0 {
                        assert(r[i] == rest[i - 1]);
                    }
                }
            }
        } else if splits(c, n) {
            lemma_splits_nonzero(c, n);
        }
    } else {
        assert(plan_counts(c, Seq::<(MeldKind, int)>::empty()) == c);
    }
}

/// Taking a first group and then the others is taking them all.
proof fn lemma_plan_cons(c: Seq<int>, x: (MeldKind, int), rest: Seq<(MeldKind, int)>)
    ensures
        plan_counts(c, seq![x] + rest) == plan_counts(take_counts(c, x.0, x.1), rest),
        plan_fits(c, seq![x] + rest) <== (group_ok(x.0, x.1) && group_fits(c, x.0, x.1) && plan_fits(
            take_counts(c, x.0, x.1),
            rest,
        )),
    decreases rest.len(),
{
    if rest.len() == 0 {
        assert(seq![x] + rest =~= seq![x]);
        assert(seq![x].drop_last() =~= Seq::<(MeldKind, int)>::empty());
        assert(seq![x].last() == x);
        assert(plan_counts(c, Seq::<(MeldKind, int)>::empty()) == c);
        assert(plan_fits(c, Seq::<(MeldKind, int)>::empty()));
        assert(plan_counts(take_counts(c, x.0, x.1), rest) == take_counts(c, x.0, x.1));
    } else {
        lemma_plan_cons(c, x, rest.drop_last());
        assert((seq![x] + rest).drop_last() =~= seq![x] + rest.drop_last());
        assert((seq![x] + rest).last() == rest.last());
    }
}

// ---------------------------------------------------------------------------
// Searching counts held in a vector
// ---------------------------------------------------------------------------

/// The counts held in `v`.
pub open spec fn counts_view(v: Seq<usize>) -> Seq<int> {
    Seq::new(1280, |j: int| v[j] as int)
}

pub open spec fn plan_view(v: Seq<(MeldKind, usize)>) -> Seq<(MeldKind, int)> {
    v.map_values(|x: (MeldKind, usize)| (x.0, x.1 as int))
}

/// `v` less a group of `kind` at `k`.
pub fn take_group_counts(v: &Vec<usize>, kind: MeldKind, k: usize) -> (r: Vec<usize>)
    requires
        v@.len() == 1280,
        group_ok(kind, k as int),
        group_fits(counts_view(v@), kind, k as int),
    ensures
        r@.len() == 1280,
        counts_view(r@) == take_counts(counts_view(v@), kind, k as int),
{
    let mut r = v.clone();
    assert(r@ == v@);
    match kind {
        MeldKind::Chi => {
            r.set(k, r[k] - 1);
            r.set(k + 1, r[k + 1] - 1);
            r.set(k + 2, r[k + 2] - 1);
        },
        MeldKind::Pair => {
            r.set(k, r[k] - 2);
        },
        MeldKind::Pon => {
            r.set(k, r[k] - 3);
        },
        MeldKind::Kan => {
            r.set(k, r[k] - 4);
        },
    }
    assert(counts_view(r@) =~= take_counts(counts_view(v@), kind, k as int));
    r
}

/// The lowest split of the counts in `v` into `n` triplets and
/// sequences, if they split.
pub fn find_split(v: &Vec<usize>, n: usize) -> (r: Option<Vec<(MeldKind, usize)>>)
    requires
        v@.len() == 1280,
    ensures
        match r {
            Some(p) => lowest_split(counts_view(v@), n as nat) == Some(plan_view(p@)),
            None => lowest_split(counts_view(v@), n as nat) is None,
        },
    decreases n,
{
    let ghost c = counts_view(v@);
    if n == 0 {
        let mut i: usize = 0;
        while i < 1280
            invariant
                n == 0,
                i <= 1280,
                v@.len() == 1280,
                c == counts_view(v@),
                forall|j: int| 0 <= j < i ==> c[j] == 0,
            decreases 1280 - i,
        {
            if v[i] != 0 {
                assert(c[i as int] != 0);
                assert(!all_zero(c));
                return None;
            }
            i = i + 1;
        }
        let e: Vec<(MeldKind, usize)> = Vec::new();
        assert(plan_view(e@) =~= seq![]);
        return Some(e);
    }
    let mut f: usize = 0;
    while f < 1280 && v[f] == 0
        invariant
            f <= 1280,
            v@.len() == 1280,
            c == counts_view(v@),
            forall|j: int| 0 <= j < f ==> c[j] == 0,
        decreases 1280 - f,
    {
        f = f + 1;
    }
    proof {
        lemma_first_nonzero_is(c, f as int);
    }
    if f >= 1280 {
        return None;
    }
    if v[f] >= 3 {
        let v2 = take_group_counts(v, MeldKind::Pon, f);
        if let Some(rest) = find_split(&v2, n - 1) {
            let mut out: Vec<(MeldKind, usize)> = Vec::new();
            out.push((MeldKind::Pon, f));
            let ghost rv = plan_view(rest@);
            let mut rest = rest;
            out.append(&mut rest);
            assert(plan_view(out@) =~= seq![(MeldKind::Pon, f as int)] + rv);
            return Some(out);
        }
    }
    if f < 768 && f % 256 <= 7 && v[f] >= 1 && v[f + 1] >= 1 && v[f + 2] >= 1 {
        let v2 = take_group_counts(v, MeldKind::Chi, f);
        if let Some(rest) = find_split(&v2, n - 1) {
            let mut out: Vec<(MeldKind, usize)> = Vec::new();
            out.push((MeldKind::Chi, f));
            let ghost rv = plan_view(rest@);
            let mut rest = rest;
            out.append(&mut rest);
            assert(plan_view(out@) =~= seq![(MeldKind::Chi, f as int)] + rv);
            return Some(out);
        }
    }
    None
}

// ---------------------------------------------------------------------------
// Taking tiles by key
// ---------------------------------------------------------------------------

/// The first `n` tiles of `s` with key `k`, in order.
pub open spec fn take_key(s: Seq<Tile>, k: int, n: nat) -> Seq<Tile>
    decreases s.len(),
{
    if s.len() == 0 {
        s
    } else {
        let prev = take_key(s.drop_last(), k, n);
        if face_key(s.last()) == k && key_count(s.drop_last(), k) < n {
            prev.push(s.last())
        } else {
            prev
        }
    }
}

/// `s` without its first `n` tiles with key `k`, order kept.
pub open spec fn drop_key(s: Seq<Tile>, k: int, n: nat) -> Seq<Tile>
    decreases s.len(),
{
    if s.len() == 0 {
        s
    } else {
        let prev = drop_key(s.drop_last(), k, n);
        if face_key(s.last()) == k && key_count(s.drop_last(), k) < n {
            prev
        } else {
            prev.push(s.last())
        }
    }
}

pub open spec fn min_nat(a: nat, b: nat) -> nat {
    if a < b { a } else { b }
}

pub proof fn lemma_key_count_push(s: Seq<Tile>, x: Tile, k: int)
    ensures
        key_count(s.push(x), k) == key_count(s, k) + if face_key(x) == k { 1nat } else { 0nat },
{
    assert(s.push(x).drop_last() =~= s);
}

/// Taking the first `n` tiles of a key: they carry the key, there are as
/// many as asked or as there are, and with what is left they are `s`.
pub proof fn lemma_take_key(s: Seq<Tile>, k: int, n: nat)
    ensures
        (take_key(s, k, n) + drop_key(s, k, n)).to_multiset() == s.to_multiset(),
        take_key(s, k, n).len() == min_nat(n, key_count(s, k)),
        forall|i: int| 0 <= i < take_key(s, k, n).len() ==> face_key(#[trigger] take_key(s, k, n)[i]) == k,
        forall|j: int|
            #[trigger] key_count(drop_key(s, k, n), j) == key_count(s, j) - if j == k {
                min_nat(n, key_count(s, k)) as int
            } else {
                0int
            },
    decreases s.len(),
{
    broadcast use vstd::seq_lib::group_to_multiset_ensures;
    broadcast use vstd::seq_lib::lemma_multiset_commutative;

    if s.len() > 0 {
        let p = s.drop_last();
        let x = s.last();
        lemma_take_key(p, k, n);
        assert(p.push(x) =~= s);
        let t = take_key(p, k, n);
        let d = drop_key(p, k, n);
        if face_key(x) == k && key_count(p, k) < n {
            assert((t.push(x) + d).to_multiset() =~= (t + d).to_multiset().insert(x));
            assert forall|j: int| #[trigger] key_count(drop_key(s, k, n), j) == key_count(s, j) - if j == k {
                min_nat(n, key_count(s, k)) as int
            } else {
                0int
            } by {
                lemma_key_count_push(p, x, j);
            }
        } else {
            assert(t + d.push(x) =~= (t + d).push(x));
            assert forall|j: int| #[trigger] key_count(drop_key(s, k, n), j) == key_count(s, j) - if j == k {
                min_nat(n, key_count(s, k)) as int
            } else {
                0int
            } by {
                lemma_key_count_push(p, x, j);
                lemma_key_count_push(d, x, j);
            }
        }
    }
}

/// No tile is left when every count is zero.
pub proof fn lemma_all_zero_empty(s: Seq<Tile>)
    requires
        all_zero(counts_of(s)),
    ensures
        s.len() == 0,
{
    if s.len() > 0 {
        let x = s.last();
        lemma_face_key_same(x, x);
        lemma_key_count_push(s.drop_last(), x, face_key(x));
        assert(s.drop_last().push(x) =~= s);
        assert(counts_of(s)[face_key(x)] >= 1);
    }
}

/// The tiles of a group of `kind` at key `k`, and what is left of `s`.
pub open spec fn take_group(s: Seq<Tile>, kind: MeldKind, k: int) -> (Seq<Tile>, Seq<Tile>) {
    match kind {
        MeldKind::Chi => {
            let r1 = drop_key(s, k, 1);
            let r2 = drop_key(r1, k + 1, 1);
            (take_key(s, k, 1) + take_key(r1, k + 1, 1) + take_key(r2, k + 2, 1), drop_key(r2, k + 2, 1))
        },
        _ => (take_key(s, k, group_need(kind, k, k) as nat), drop_key(s, k, group_need(kind, k, k) as nat)),
    }
}

proof fn lemma_same_key_count(s: Seq<Tile>, r: Seq<Tile>, kind: MeldKind, k: int, n: nat)
    requires
        forall|j: int| #[trigger] key_count(r, j) == key_count(s, j) - if j == k { n as int } else { 0int },
        0 <= k < 1280,
    ensures
        counts_of(r) == Seq::new(1280, |j: int| counts_of(s)[j] - if j == k { n as int } else { 0int }),
{
    assert(counts_of(r) =~= Seq::new(1280, |j: int| counts_of(s)[j] - if j == k { n as int } else { 0int }));
}

/// Taking a group that the counts hold: the counts drop by the group,
/// the group and the rest are `s`, and the group fits its kind.
pub proof fn lemma_take_group(s: Seq<Tile>, kind: MeldKind, k: int)
    requires
        kind is Chi || kind is Pair || kind is Pon,
        group_ok(kind, k),
        group_fits(counts_of(s), kind, k),
    ensures
        counts_of(take_group(s, kind, k).1) == take_counts(counts_of(s), kind, k),
        (take_group(s, kind, k).0 + take_group(s, kind, k).1).to_multiset() == s.to_multiset(),
        meld_fits(kind, take_group(s, kind, k).0),
{
    broadcast use vstd::seq_lib::lemma_multiset_commutative;

    let c = counts_of(s);
    if kind is Chi {
        let r1 = drop_key(s, k, 1);
        let r2 = drop_key(r1, k + 1, 1);
        let r3 = drop_key(r2, k + 2, 1);
        let a = take_key(s, k, 1);
        let b = take_key(r1, k + 1, 1);
        let d = take_key(r2, k + 2, 1);
        lemma_take_key(s, k, 1);
        lemma_take_key(r1, k + 1, 1);
        lemma_take_key(r2, k + 2, 1);
        assert(key_count(s, k) == c[k]);
        assert(key_count(s, k + 1) == c[k + 1]);
        assert(key_count(s, k + 2) == c[k + 2]);
        assert(key_count(r1, k + 1) == key_count(s, k + 1));
        assert(key_count(r2, k + 2) == key_count(r1, k + 2));
        assert(key_count(r1, k + 2) == key_count(s, k + 2));
        assert(counts_of(r3) =~= take_counts(c, kind, k)) by {
            assert forall|j: int| 0 <= j < 1280 implies counts_of(r3)[j] == take_counts(c, kind, k)[j] by {
                assert(key_count(r3, j) == key_count(r2, j) - if j == k + 2 { 1int } else { 0int });
                assert(key_count(r2, j) == key_count(r1, j) - if j == k + 1 { 1int } else { 0int });
                assert(key_count(r1, j) == key_count(s, j) - if j == k { 1int } else { 0int });
            }
        }
        assert((a + b + d + r3).to_multiset() =~= s.to_multiset()) by {
            assert(a + b + d + r3 =~= a + (b + (d + r3)));
            assert((d + r3).to_multiset() == r2.to_multiset());
            assert((b + (d + r3)).to_multiset() =~= (b + r2).to_multiset());
            assert((a + (b + (d + r3))).to_multiset() =~= (a + r1).to_multiset());
        }
        let t = a + b + d;
        assert(t[0] == a[0] && t[1] == b[0] && t[2] == d[0]);
        assert(face_key(t[0]) == k && face_key(t[1]) == k + 1 && face_key(t[2]) == k + 2);
        assert(chi_shape(t));
    } else {
        let n = group_need(kind, k, k) as nat;
        lemma_take_key(s, k, n);
        assert(key_count(s, k) == c[k]);
        lemma_same_key_count(s, drop_key(s, k, n), kind, k, n);
        assert(counts_of(drop_key(s, k, n)) =~= take_counts(c, kind, k));
        let t = take_key(s, k, n);
        lemma_face_key_same(t[0], t[1]);
        if kind is Pon {
            lemma_face_key_same(t[1], t[2]);
            assert(pon_shape(t));
        } else {
            assert(pair_shape(t));
        }
    }
}

/// The groups of `plan` taken from `s` in turn.
pub open spec fn plan_groups(s: Seq<Tile>, plan: Seq<(MeldKind, int)>) -> Seq<(MeldKind, Seq<Tile>)>
    decreases plan.len(),
{
    if plan.len() == 0 {
        seq![]
    } else {
        plan_groups(s, plan.drop_last()).push(
            (plan.last().0, take_group(plan_rest(s, plan.drop_last()), plan.last().0, plan.last().1).0),
        )
    }
}

/// What is left of `s` once the groups of `plan` are taken.
pub open spec fn plan_rest(s: Seq<Tile>, plan: Seq<(MeldKind, int)>) -> Seq<Tile>
    decreases plan.len(),
{
    if plan.len() == 0 {
        s
    } else {
        take_group(plan_rest(s, plan.drop_last()), plan.last().0, plan.last().1).1
    }
}

pub open spec fn plan_kinds_ok(plan: Seq<(MeldKind, int)>) -> bool {
    forall|i: int| 0 <= i < plan.len() ==> !((#[trigger] plan[i]).0 is Kan)
}

/// Taking the groups of a plan that the counts hold: the counts left are
/// the plan's, the groups and the rest are `s`, and each group fits its
/// kind.
pub proof fn lemma_plan_groups(s: Seq<Tile>, plan: Seq<(MeldKind, int)>)
    requires
        plan_fits(counts_of(s), plan),
        plan_kinds_ok(plan),
    ensures
        counts_of(plan_rest(s, plan)) == plan_counts(counts_of(s), plan),
        (groups_tiles(plan_groups(s, plan)) + plan_rest(s, plan)).to_multiset() == s.to_multiset(),
        plan_groups(s, plan).len() == plan.len(),
        forall|i: int|
            0 <= i < plan.len() ==> (#[trigger] plan_groups(s, plan)[i]).0 == plan[i].0 && meld_fits(
                plan[i].0,
                plan_groups(s, plan)[i].1,
            ),
    decreases plan.len(),
{
    broadcast use vstd::seq_lib::lemma_multiset_commutative;

    if plan.len() == 0 {
        assert(groups_tiles(Seq::<(MeldKind, Seq<Tile>)>::empty()) =~= Seq::<Tile>::empty());
        assert(Seq::<Tile>::empty() + s =~= s);
    } else {
        let q = plan.drop_last();
        let x = plan.last();
        assert forall|i: int| 0 <= i < q.len() implies !((#[trigger] q[i]).0 is Kan) by {
            assert(q[i] == plan[i]);
        }
        assert(!(plan[plan.len() - 1].0 is Kan));
        lemma_plan_groups(s, q);
        let r = plan_rest(s, q);
        lemma_take_group(r, x.0, x.1);
        let g = plan_groups(s, q);
        let tg = take_group(r, x.0, x.1);
        assert(plan_groups(s, plan).drop_last() =~= g);
        assert(groups_tiles(plan_groups(s, plan)) == groups_tiles(g) + tg.0);
        assert((groups_tiles(g) + tg.0 + tg.1).to_multiset() =~= (groups_tiles(g) + r).to_multiset()) by {
            assert(groups_tiles(g) + tg.0 + tg.1 =~= groups_tiles(g) + (tg.0 + tg.1));
        }
        assert forall|i: int| 0 <= i < plan.len() implies (#[trigger] plan_groups(s, plan)[i]).0 == plan[i].0
            && meld_fits(plan[i].0, plan_groups(s, plan)[i].1) by {
            if i < q.len() {
                assert(plan_groups(s, plan)[i] == g[i]);
                assert(plan[i] == q[i]);
            }
        }
    }
}

// ---------------------------------------------------------------------------
// Exec
// ---------------------------------------------------------------------------

/// The count of each key in `tiles`.
pub fn count_keys(tiles: &[Tile]) -> (v: Vec<usize>)
    ensures
        v@.len() == 1280,
        counts_view(v@) == counts_of(tiles@),
{
    let mut v: Vec<usize> = Vec::new();
    let mut i: usize = 0;
    while i < 1280
        invariant
            i <= 1280,
            v@.len() == i,
            forall|j: int| 0 <= j < i ==> v@[j] == 0,
        decreases 1280 - i,
    {
        v.push(0);
        i = i + 1;
    }
    let mut t: usize = 0;
    while t < tiles.len()
        invariant
            t <= tiles@.len(),
            v@.len() == 1280,
            forall|j: int| 0 <= j < 1280 ==> v@[j] as int == key_count(tiles@.take(t as int), j),
            forall|j: int| 0 <= j < 1280 ==> v@[j] <= t,
        decreases tiles@.len() - t,
    {
        let k = key_of(&tiles[t]);
        proof {
            assert(tiles@.take(t + 1) =~= tiles@.take(t as int).push(tiles@[t as int]));
            assert forall|j: int| 0 <= j < 1280 implies key_count(tiles@.take(t + 1), j) == key_count(
                tiles@.take(t as int),
                j,
            ) + if face_key(tiles@[t as int]) == j { 1nat } else { 0nat } by {
                lemma_key_count_push(tiles@.take(t as int), tiles@[t as int], j);
            }
        }
        v.set(k, v[k] + 1);
        t = t + 1;
    }
    assert(tiles@.take(t as int) =~= tiles@);
    assert(counts_view(v@) =~= counts_of(tiles@));
    v
}

/// The first `n` tiles of key `k` and the others, both in order.
pub fn split_key(tiles: &[Tile], k: usize, n: usize) -> (r: (Vec<Tile>, Vec<Tile>))
    ensures
        r.0@ == take_key(tiles@, k as int, n as nat),
        r.1@ == drop_key(tiles@, k as int, n as nat),
{
    let mut taken: Vec<Tile> = Vec::new();
    let mut kept: Vec<Tile> = Vec::new();
    let mut count: usize = 0;
    let mut i: usize = 0;
    while i < tiles.len()
        invariant
            i <= tiles@.len(),
            count == key_count(tiles@.take(i as int), k as int),
            count <= i,
            taken@ == take_key(tiles@.take(i as int), k as int, n as nat),
            kept@ == drop_key(tiles@.take(i as int), k as int, n as nat),
        decreases tiles@.len() - i,
    {
        proof {
            assert(tiles@.take(i + 1).drop_last() =~= tiles@.take(i as int));
        }
        let x = tiles[i];
        if key_of(&x) == k {
            if count < n {
                taken.push(x);
            } else {
                kept.push(x);
            }
            count = count + 1;
        } else {
            kept.push(x);
        }
        i = i + 1;
    }
    assert(tiles@.take(i as int) =~= tiles@);
    (taken, kept)
}

/// The tiles of a group of `kind` at `k`, and the rest.
pub fn take_group_tiles(tiles: &[Tile], kind: MeldKind, k: usize) -> (r: (Vec<Tile>, Vec<Tile>))
    requires
        group_ok(kind, k as int),
    ensures
        (r.0@, r.1@) == take_group(tiles@, kind, k as int),
{
    match kind {
        MeldKind::Chi => {
            let (a, r1) = split_key(tiles, k, 1);
            let (b, r2) = split_key(r1.as_slice(), k + 1, 1);
            let (c, r3) = split_key(r2.as_slice(), k + 2, 1);
            let mut t = a;
            let mut b = b;
            let mut c = c;
            t.append(&mut b);
            t.append(&mut c);
            (t, r3)
        },
        MeldKind::Pair => split_key(tiles, k, 2),
        MeldKind::Pon => split_key(tiles, k, 3),
        MeldKind::Kan => split_key(tiles, k, 4),
    }
}

} // verus!
