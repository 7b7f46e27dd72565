//! The shop: a random offer of artifacts and gadgets.

use rand::seq::IndexedRandom;
use rand_chacha::ChaCha8Rng;
use vstd::prelude::*;

use crate::game::gadget_effects::{all_gadgets, catalog_gadget, gadget_cost, gadget_is, gadget_price};
use crate::models::artifact::{Artifact, Rarity};
use crate::models::gadget::Gadget;

verus! {

#[verifier::external_type_specification]
#[verifier::external_body]
pub struct ExChaCha8Rng(ChaCha8Rng);

/// Calls `IndexedRandom::choose` (rand) on `pool` with `rng`. Trusted: it
/// returns nothing exactly when the pool is empty, and otherwise one of
/// the pool's entries; which one depends on the generator's state.
#[verifier::external_body]
fn choose_from(pool: &[usize], rng: &mut ChaCha8Rng) -> (r: Option<usize>)
    ensures
        r is None <==> pool@.len() == 0,
        r matches Some(x) ==> pool@.contains(x),
{
    pool.choose(rng).copied()
}

/// A single item in the shop.
#[derive(Clone, Debug)]
pub struct ShopItem {
    pub item_type: ShopItemType,
    pub cost: u32,
    pub sold: bool,
}

#[derive(Clone, Debug)]
pub enum ShopItemType {
    Artifact(Artifact),
    Gadget(Gadget),
}

/// The weight of each rarity (common, uncommon, rare, legendary) at a
/// point of the run: later rounds favour rarer artifacts.
pub open spec fn rarity_weights(round_progress: u32) -> (u32, u32, u32, u32) {
    if round_progress < 4 {
        (60, 30, 8, 2)
    } else if round_progress < 8 {
        (40, 35, 18, 7)
    } else if round_progress < 12 {
        (25, 30, 30, 15)
    } else {
        (15, 25, 35, 25)
    }
}

pub open spec fn rarity_weight(r: Rarity, round_progress: u32) -> nat {
    let w = rarity_weights(round_progress);
    match r {
        Rarity::Common => w.0 as nat,
        Rarity::Uncommon => w.1 as nat,
        Rarity::Rare => w.2 as nat,
        Rarity::Legendary => w.3 as nat,
    }
}

/// The draw pool: each catalog index repeated as many times as its
/// rarity's weight, in catalog order.
pub open spec fn artifact_pool(catalog: Seq<Artifact>, round_progress: u32) -> Seq<usize>
    decreases catalog.len(),
{
    if catalog.len() == 0 {
        seq![]
    } else {
        artifact_pool(catalog.drop_last(), round_progress) + Seq::new(
            rarity_weight(catalog.last().rarity, round_progress),
            |k: int| (catalog.len() - 1) as usize,
        )
    }
}

/// The ids of `arts` are pairwise distinct.
pub open spec fn distinct_ids(arts: Seq<Artifact>) -> bool {
    forall|i: int, j: int| 0 <= i < j < arts.len() ==> arts[i].id@ != arts[j].id@
}

pub open spec fn distinct_gadget_ids(gs: Seq<Gadget>) -> bool {
    forall|i: int, j: int| 0 <= i < j < gs.len() ==> gs[i].id@ != gs[j].id@
}

/// `g` is one of the catalog gadgets.
pub open spec fn is_catalog_gadget(g: Gadget) -> bool {
    exists|j: int| 0 <= j < 10 && #[trigger] gadget_is(g, catalog_gadget(j))
}

/// The weights for a point of the run.
fn weights_for(round_progress: u32) -> (w: (u32, u32, u32, u32))
    ensures
        w == rarity_weights(round_progress),
{
    if round_progress < 4 {
        (60, 30, 8, 2)
    } else if round_progress < 8 {
        (40, 35, 18, 7)
    } else if round_progress < 12 {
        (25, 30, 30, 15)
    } else {
        (15, 25, 35, 25)
    }
}

/// Builds the weighted draw pool of catalog indices.
pub fn build_pool(catalog: &[Artifact], round_progress: u32) -> (pool: Vec<usize>)
    requires
        catalog@.len() * 60 <= usize::MAX,
    ensures
        pool@ == artifact_pool(catalog@, round_progress),
{
    let (common_w, uncommon_w, rare_w, legend_w) = weights_for(round_progress);
    let mut pool: Vec<usize> = Vec::new();
    let mut i: usize = 0;
    while i < catalog.len()
        invariant
            i <= catalog@.len(),
            (common_w, uncommon_w, rare_w, legend_w) == rarity_weights(round_progress),
            pool@ == artifact_pool(catalog@.take(i as int), round_progress),
        decreases catalog@.len() - i,
    {
        proof {
            assert(catalog@.take(i + 1).drop_last() =~= catalog@.take(i as int));
        }
        let weight = match catalog[i].rarity {
            Rarity::Common => common_w,
            Rarity::Uncommon => uncommon_w,
            Rarity::Rare => rare_w,
            Rarity::Legendary => legend_w,
        };
        let ghost before = pool@;
        let mut k: u32 = 0;
        while k < weight
            invariant
                k <= weight,
                pool@ == before + Seq::new(k as nat, |q: int| i),
            decreases weight - k,
        {
            pool.push(i);
            proof {
                assert(before + Seq::new((k + 1) as nat, |q: int| i) =~= (before + Seq::new(
                    k as nat,
                    |q: int| i,
                )).push(i));
            }
            k = k + 1;
        }
        proof {
            assert(Seq::new(weight as nat, |q: int| i) =~= Seq::new(
                rarity_weight(catalog@.take(i + 1).last().rarity, round_progress),
                |q: int| (catalog@.take(i + 1).len() - 1) as usize,
            ));
        }
        i = i + 1;
    }
    assert(catalog@.take(i as int) =~= catalog@);
    pool
}

/// Adds `candidate` to `chosen` unless an artifact with its id is there.
pub fn add_if_new(chosen: &mut Vec<Artifact>, candidate: &Artifact)
    ensures
        (exists|j: int| 0 <= j < old(chosen)@.len() && (#[trigger] old(chosen)@[j]).id@ == candidate.id@)
            ==> final(chosen)@ == old(chosen)@,
        !(exists|j: int| 0 <= j < old(chosen)@.len() && (#[trigger] old(chosen)@[j]).id@ == candidate.id@)
            ==> final(chosen)@ == old(chosen)@.push(*candidate),
{
    let mut j: usize = 0;
    while j < chosen.len()
        invariant
            j <= chosen@.len(),
            chosen@ == old(chosen)@,
            forall|q: int| 0 <= q < j ==> (#[trigger] chosen@[q]).id@ != candidate.id@,
        decreases chosen@.len() - j,
    {
        if chosen[j].id == candidate.id {
            return;
        }
        j = j + 1;
    }
    chosen.push(candidate.duplicate());
}

/// Adds `candidate` to `chosen` unless a gadget with its id is there.
pub fn add_gadget_if_new(chosen: &mut Vec<Gadget>, candidate: &Gadget)
    ensures
        (exists|j: int| 0 <= j < old(chosen)@.len() && (#[trigger] old(chosen)@[j]).id@ == candidate.id@)
            ==> final(chosen)@ == old(chosen)@,
        !(exists|j: int| 0 <= j < old(chosen)@.len() && (#[trigger] old(chosen)@[j]).id@ == candidate.id@)
            ==> final(chosen)@ == old(chosen)@.push(*candidate),
{
    let mut j: usize = 0;
    while j < chosen.len()
        invariant
            j <= chosen@.len(),
            chosen@ == old(chosen)@,
            forall|q: int| 0 <= q < j ==> (#[trigger] chosen@[q]).id@ != candidate.id@,
        decreases chosen@.len() - j,
    {
        if chosen[j].id == candidate.id {
            return;
        }
        j = j + 1;
    }
    chosen.push(candidate.duplicate());
}

/// Draws up to `count` distinct artifacts (by id) from the weighted pool,
/// giving up after 50 draws; returns them with the number of draws made.
fn roll_artifacts(count: usize, round_progress: u32, rng: &mut ChaCha8Rng, catalog: &[Artifact]) -> (r: (Vec<Artifact>, u32))
    requires
        catalog@.len() * 60 <= usize::MAX,
    ensures
        r.1 <= 50,
        r.0@.len() == count || r.1 == 50,
        r.0@.len() <= count,
        distinct_ids(r.0@),
        forall|i: int| 0 <= i < r.0@.len() ==> catalog@.contains(#[trigger] r.0@[i]),
        catalog@.len() == 0 ==> r.0@.len() == 0,
        catalog@.len() > 0 && count > 0 ==> r.0@.len() >= 1,
{
    let pool = build_pool(catalog, round_progress);
    proof {
        lemma_pool_indices(catalog@, round_progress);
    }
    let mut chosen: Vec<Artifact> = Vec::new();
    let mut attempts: u32 = 0;
    while chosen.len() < count && attempts < 50
        invariant
            pool@ == artifact_pool(catalog@, round_progress),
            forall|k: int| 0 <= k < pool@.len() ==> (#[trigger] pool@[k]) < catalog@.len(),
            catalog@.len() == 0 ==> pool@.len() == 0,
            chosen@.len() <= count,
            distinct_ids(chosen@),
            forall|i: int| 0 <= i < chosen@.len() ==> catalog@.contains(#[trigger] chosen@[i]),
            catalog@.len() == 0 ==> chosen@.len() == 0,
            catalog@.len() > 0 ==> pool@.len() > 0,
            catalog@.len() > 0 && count > 0 && attempts > 0 ==> chosen@.len() >= 1,
            attempts <= 50,
        decreases 50 - attempts,
    {
        if let Some(idx) = choose_from(pool.as_slice(), rng) {
            let ghost before = chosen@;
            assert(idx < catalog@.len()) by {
                let k = choose|k: int| 0 <= k < pool@.len() && pool@[k] == idx;
            }
            add_if_new(&mut chosen, &catalog[idx]);
            proof {
                assert(catalog@.contains(catalog@[idx as int]));
                if chosen@.len() > before.len() {
                    assert forall|i: int, j: int| 0 <= i < j < chosen@.len() implies chosen@[i].id@ != chosen@[j].id@ by {
                        if j == chosen@.len() - 1 {
                            assert(before[i] == chosen@[i]);
                        }
                    }
                }
            }
        }
        attempts = attempts + 1;
    }
    (chosen, attempts)
}

proof fn lemma_pool_indices(catalog: Seq<Artifact>, round_progress: u32)
    ensures
        forall|k: int|
            0 <= k < artifact_pool(catalog, round_progress).len() ==> (#[trigger] artifact_pool(
                catalog,
                round_progress,
            )[k]) < catalog.len(),
        catalog.len() == 0 ==> artifact_pool(catalog, round_progress).len() == 0,
        catalog.len() > 0 ==> artifact_pool(catalog, round_progress).len() > 0,
    decreases catalog.len(),
{
    if catalog.len() > 0 {
        lemma_pool_indices(catalog.drop_last(), round_progress);
        let prev = artifact_pool(catalog.drop_last(), round_progress);
        let tail = Seq::new(
            rarity_weight(catalog.last().rarity, round_progress),
            |q: int| (catalog.len() - 1) as usize,
        );
        assert forall|k: int|
            0 <= k < artifact_pool(catalog, round_progress).len() implies (#[trigger] artifact_pool(
            catalog,
            round_progress,
        )[k]) < catalog.len() by {
            if k < prev.len() {
                assert(artifact_pool(catalog, round_progress)[k] == prev[k]);
            } else {
                assert(artifact_pool(catalog, round_progress)[k] == tail[k - prev.len()]);
            }
        }
    }
}

/// Draws up to `count` distinct gadgets from the catalog, giving up after
/// 30 draws.
fn roll_gadgets(count: usize, rng: &mut ChaCha8Rng) -> (r: (Vec<Gadget>, u32))
    ensures
        r.1 <= 30,
        r.0@.len() == count || r.1 == 30,
        r.0@.len() <= count,
        distinct_gadget_ids(r.0@),
        forall|i: int| 0 <= i < r.0@.len() ==> is_catalog_gadget(#[trigger] r.0@[i]),
        count > 0 ==> r.0@.len() >= 1,
{
    let all = all_gadgets();
    let mut indices: Vec<usize> = Vec::new();
    let mut n: usize = 0;
    while n < all.len()
        invariant
            all@.len() == 10,
            n <= 10,
            indices@.len() == n,
            forall|k: int| 0 <= k < n ==> #[trigger] indices@[k] == k,
        decreases 10 - n,
    {
        indices.push(n);
        n = n + 1;
    }
    let mut chosen: Vec<Gadget> = Vec::new();
    let mut attempts: u32 = 0;
    while chosen.len() < count && attempts < 30
        invariant
            all@.len() == 10,
            forall|i: int| 0 <= i < 10 ==> gadget_is(#[trigger] all@[i], catalog_gadget(i)),
            indices@.len() == 10,
            forall|k: int| 0 <= k < 10 ==> #[trigger] indices@[k] == k,
            chosen@.len() <= count,
            distinct_gadget_ids(chosen@),
            forall|i: int| 0 <= i < chosen@.len() ==> is_catalog_gadget(#[trigger] chosen@[i]),
            count > 0 && attempts > 0 ==> chosen@.len() >= 1,
            attempts <= 30,
        decreases 30 - attempts,
    {
        if let Some(idx) = choose_from(indices.as_slice(), rng) {
            assert(idx < 10) by {
                let k = choose|k: int| 0 <= k < indices@.len() && indices@[k] == idx;
            }
            let gadget = &all[idx];
            let ghost before = chosen@;
            add_gadget_if_new(&mut chosen, gadget);
            proof {
                if chosen@.len() > before.len() {
                    assert(gadget_is(chosen@[chosen@.len() - 1], catalog_gadget(idx as int)));
                    assert forall|i: int, j: int| 0 <= i < j < chosen@.len() implies chosen@[i].id@ != chosen@[j].id@ by {
                        if j == chosen@.len() - 1 {
                            assert(before[i] == chosen@[i]);
                        }
                    }
                    assert forall|i: int| 0 <= i < chosen@.len() implies is_catalog_gadget(#[trigger] chosen@[i]) by {
                        if i == chosen@.len() - 1 {
                            assert(gadget_is(chosen@[i], catalog_gadget(idx as int)));
                        } else {
                            assert(before[i] == chosen@[i]);
                        }
                    }
                }
            }
        }
        attempts = attempts + 1;
    }
    (chosen, attempts)
}

/// Every catalog gadget's price fits in a `u32`.
proof fn lemma_catalog_prices(j: int)
    requires
        0 <= j < 10,
    ensures
        gadget_price(catalog_gadget(j).4) <= 110,
{
}

/// The id of a shop item's artifact or gadget.
pub open spec fn item_id(item: ShopItem) -> Seq<char> {
    match item.item_type {
        ShopItemType::Artifact(a) => a.id@,
        ShopItemType::Gadget(g) => g.id@,
    }
}

/// The first `k` items are artifacts and the others gadgets.
pub open spec fn shop_layout(items: Seq<ShopItem>, k: int) -> bool {
    &&& 0 <= k <= items.len()
    &&& forall|i: int| 0 <= i < k ==> (#[trigger] items[i]).item_type is Artifact
    &&& forall|i: int| k <= i < items.len() ==> (#[trigger] items[i]).item_type is Gadget
}

/// What a shop offer holds: its first `k` items are artifacts (at most 3,
/// at least one exactly when the catalog is not empty) and the others 1
/// or 2 gadgets; none is sold; each artifact is from the catalog at its
/// own cost, each gadget from the gadget catalog at its shop price; no
/// two artifacts, and no two gadgets, share an id.
pub open spec fn shop_offer(items: Seq<ShopItem>, catalog: Seq<Artifact>) -> bool {
    &&& exists|k: int|
        #[trigger] shop_layout(items, k) && k <= 3 && 1 <= items.len() - k <= 2 && (catalog.len() > 0
            <==> k >= 1)
    &&& forall|i: int| 0 <= i < items.len() ==> !(#[trigger] items[i]).sold
    &&& forall|i: int|
        0 <= i < items.len() ==> match (#[trigger] items[i]).item_type {
            ShopItemType::Artifact(a) => catalog.contains(a) && items[i].cost == a.cost,
            ShopItemType::Gadget(g) => is_catalog_gadget(g)
                && items[i].cost == gadget_price(g.effect),
        }
    &&& forall|i: int, j: int|
        0 <= i < j < items.len() && (items[i].item_type is Artifact <==> items[j].item_type is Artifact)
            ==> item_id(items[i]) != item_id(items[j])
}

/// The shop offer (see `generate_shop`) with the number of artifact
/// draws and of gadget draws made. The shop asks for 3 artifacts and 2
/// gadgets: it offers fewer artifacts only when its 50 artifact draws ran
/// out, and fewer gadgets only when its 30 gadget draws ran out.
pub fn generate_shop_with_draws(round_progress: u32, rng: &mut ChaCha8Rng, catalog: &[Artifact]) -> (r: (Vec<ShopItem>, u32, u32))
    requires
        catalog@.len() * 60 <= usize::MAX,
    ensures
        shop_offer(r.0@, catalog@),
        r.1 <= 50 && r.2 <= 30,
        exists|k: int|
            #[trigger] shop_layout(r.0@, k) && (k == 3 || r.1 == 50) && (r.0@.len() - k == 2 || r.2 == 30),
{
    let mut items: Vec<ShopItem> = Vec::new();
    let (artifacts, artifact_draws) = roll_artifacts(3, round_progress, rng, catalog);
    let mut i: usize = 0;
    while i < artifacts.len()
        invariant
            i <= artifacts@.len(),
            artifacts@.len() <= 3,
            forall|q: int| 0 <= q < artifacts@.len() ==> catalog@.contains(#[trigger] artifacts@[q]),
            items@.len() == i,
            forall|q: int| 0 <= q < items@.len() ==> !(#[trigger] items@[q]).sold,
            forall|q: int|
                0 <= q < items@.len() ==> (#[trigger] items@[q]).item_type == ShopItemType::Artifact(
                    artifacts@[q],
                ) && items@[q].cost == artifacts@[q].cost,
        decreases artifacts@.len() - i,
    {
        let artifact = artifacts[i].duplicate();
        let cost = artifact.cost;
        items.push(ShopItem { item_type: ShopItemType::Artifact(artifact), cost, sold: false });
        i = i + 1;
    }
    let n_artifacts = items.len();
    let (gadgets, gadget_draws) = roll_gadgets(2, rng);
    let mut k: usize = 0;
    while k < gadgets.len()
        invariant
            k <= gadgets@.len(),
            gadgets@.len() <= 2,
            n_artifacts == artifacts@.len(),
            artifacts@.len() <= 3,
            forall|q: int| 0 <= q < artifacts@.len() ==> catalog@.contains(#[trigger] artifacts@[q]),
            forall|q: int| 0 <= q < gadgets@.len() ==> is_catalog_gadget(#[trigger] gadgets@[q]),
            items@.len() == n_artifacts + k,
            forall|q: int| 0 <= q < items@.len() ==> !(#[trigger] items@[q]).sold,
            forall|q: int|
                0 <= q < n_artifacts ==> (#[trigger] items@[q]).item_type == ShopItemType::Artifact(
                    artifacts@[q],
                ) && items@[q].cost == artifacts@[q].cost,
            forall|q: int|
                n_artifacts <= q < items@.len() ==> (#[trigger] items@[q]).item_type == ShopItemType::Gadget(
                    gadgets@[q - n_artifacts],
                ) && items@[q].cost == gadget_price(gadgets@[q - n_artifacts].effect),
        decreases gadgets@.len() - k,
    {
        let gadget = gadgets[k].duplicate();
        proof {
            let j = choose|j: int| 0 <= j < 10 && #[trigger] gadget_is(gadgets@[k as int], catalog_gadget(j));
            lemma_catalog_prices(j);
        }
        let cost = gadget_cost(&gadget);
        items.push(ShopItem { item_type: ShopItemType::Gadget(gadget), cost, sold: false });
        k = k + 1;
    }
    proof {
        let n = n_artifacts as int;
        assert(shop_layout(items@, n));
        assert(shop_layout(items@, n) && (n == 3 || artifact_draws == 50) && (items@.len() - n == 2 || gadget_draws == 30));
        assert forall|i: int| 0 <= i < items@.len() implies match (#[trigger] items@[i]).item_type {
            ShopItemType::Artifact(a) => catalog@.contains(a) && items@[i].cost == a.cost,
            ShopItemType::Gadget(g) => is_catalog_gadget(g) && items@[i].cost == gadget_price(g.effect),
        } by {
            if i < n {
                assert(catalog@.contains(artifacts@[i]));
            } else {
                assert(is_catalog_gadget(gadgets@[i - n]));
            }
        }
        assert forall|i: int, j: int|
            0 <= i < j < items@.len() && (items@[i].item_type is Artifact <==> items@[j].item_type is Artifact)
                implies item_id(items@[i]) != item_id(items@[j]) by {
            if j < n {
                assert(item_id(items@[i]) == artifacts@[i].id@);
                assert(item_id(items@[j]) == artifacts@[j].id@);
            } else if i >= n {
                assert(item_id(items@[i]) == gadgets@[i - n].id@);
                assert(item_id(items@[j]) == gadgets@[j - n].id@);
            } else {
                assert(items@[i].item_type is Artifact);
                assert(items@[j].item_type is Gadget);
            }
        }
    }
    (items, artifact_draws, gadget_draws)
}

/// Generate a fresh shop inventory: it asks for 3 different artifacts
/// drawn from `catalog` by rarity weight (at their own cost) and then 2
/// different catalog gadgets (at their shop price), none sold. A draw
/// that repeats an item is dropped, and the draws stop after 50 (30 for
/// gadgets), so fewer may come: at most 3 artifacts, at least one when the
/// catalog is not empty, and 1 or 2 gadgets. Which ones are offered
/// depends on `rng`.
pub fn generate_shop(round_progress: u32, rng: &mut ChaCha8Rng, catalog: &[Artifact]) -> (items: Vec<ShopItem>)
    requires
        catalog@.len() * 60 <= usize::MAX,
    ensures
        exists|k: int|
            #[trigger] shop_layout(items@, k) && k <= 3 && 1 <= items@.len() - k <= 2 && (catalog@.len() > 0
                <==> k >= 1),
        forall|i: int| 0 <= i < items@.len() ==> !(#[trigger] items@[i]).sold,
        forall|i: int|
            0 <= i < items@.len() ==> match (#[trigger] items@[i]).item_type {
                ShopItemType::Artifact(a) => catalog@.contains(a) && items@[i].cost == a.cost,
                ShopItemType::Gadget(g) => is_catalog_gadget(g)
                    && items@[i].cost == gadget_price(g.effect),
            },
        forall|i: int, j: int|
            0 <= i < j < items@.len() && (items@[i].item_type is Artifact <==> items@[j].item_type is Artifact)
                ==> item_id(items@[i]) != item_id(items@[j]),
{
    let (items, _artifact_draws, _gadget_draws) = generate_shop_with_draws(round_progress, rng, catalog);
    items
}

} // verus!
