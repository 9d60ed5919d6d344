//! Reward offering: a weighted pool of the eligible items (weight = rarity
//! weight) and a draw of a configured number of choices, independently and
//! with replacement. An exhausted pool yields no offering.

use vstd::prelude::*;
use crate::items::{eligible, is_eligible, Item, ItemLevel, ItemRarity};
use crate::rng::rand_below;

verus! {

/// How many reward choices are offered at each round end, by default.
pub const DEFAULT_NUM_CHOICES: usize = 3;

/// How many reward choices are offered at each round end.
#[derive(Clone, Copy, Debug, PartialEq, Eq, Structural)]
pub struct NumItemChoices(pub usize);

impl Default for NumItemChoices {
    fn default() -> (r: Self)
        ensures
            r == NumItemChoices(DEFAULT_NUM_CHOICES),
    {
        NumItemChoices(DEFAULT_NUM_CHOICES)
    }
}

/// One offered reward choice: the chosen item's index and a snapshot of the
/// fields presentation shows.
#[derive(Clone, Copy, Debug, PartialEq, Eq, Structural)]
pub struct ItemChoice {
    pub item: usize,
    pub copies: usize,
    pub rarity: ItemRarity,
    pub level: ItemLevel,
}

/// The weighted pool over the first `n` items: each eligible item's index,
/// repeated its rarity weight's times, in item order.
pub open spec fn pool_upto(items: Seq<Item>, open_slots: int, n: int) -> Seq<usize>
    decreases n,
{
    if n <= 0 {
        Seq::<usize>::empty()
    } else {
        pool_upto(items, open_slots, n - 1) + if eligible(items[n - 1], open_slots) {
            Seq::new(items[n - 1].rarity.weight_spec() as nat, |k: int| (n - 1) as usize)
        } else {
            Seq::<usize>::empty()
        }
    }
}

/// The weighted pool over all items.
pub open spec fn weighted_pool(items: Seq<Item>, open_slots: int) -> Seq<usize> {
    pool_upto(items, open_slots, items.len() as int)
}

/// Every pool entry indexes an eligible item.
pub proof fn lemma_pool_entries(items: Seq<Item>, open_slots: int, n: int)
    requires
        0 <= n <= items.len(),
        items.len() <= usize::MAX,
    ensures
        forall|k: int|
            0 <= k < pool_upto(items, open_slots, n).len() ==> (#[trigger] pool_upto(
                items,
                open_slots,
                n,
            )[k] as int) < n && eligible(items[pool_upto(items, open_slots, n)[k] as int],
            open_slots),
    decreases n,
{
    if n > 0 {
        lemma_pool_entries(items, open_slots, n - 1);
        let prev = pool_upto(items, open_slots, n - 1);
        let cur = pool_upto(items, open_slots, n);
        assert forall|k: int| 0 <= k < cur.len() implies ((#[trigger] cur[k]) as int) < n
            && eligible(items[cur[k] as int], open_slots) by {
            if k < prev.len() {
                assert(cur[k] == prev[k]);
            } else {
                // Entries past the prefix exist only when item n - 1 was
                // eligible and entered the pool.
                if eligible(items[n - 1], open_slots) {
                    let extra = Seq::new(
                        items[n - 1].rarity.weight_spec() as nat,
                        |j: int| (n - 1) as usize,
                    );
                    assert(cur =~= prev + extra);
                    assert(cur[k] == extra[k - prev.len()]);
                    assert(extra[k - prev.len()] == (n - 1) as usize);
                } else {
                    assert(cur == prev + Seq::<usize>::empty());
                    assert(cur =~= prev);
                }
            }
        }
    }
}

/// Builds the weighted pool: each item with copies left and its
/// requirements met enters once per point of rarity weight.
pub fn build_weighted_pool(items: &Vec<Item>, open_slots: usize) -> (pool: Vec<usize>)
    ensures
        pool@ == weighted_pool(items@, open_slots as int),
{
    let mut pool: Vec<usize> = Vec::new();
    let mut i: usize = 0;
    while i < items.len()
        invariant
            0 <= i <= items@.len(),
            pool@ == pool_upto(items@, open_slots as int, i as int),
        decreases items@.len() - i,
    {
        if is_eligible(&items[i], open_slots) {
            let weight = items[i].rarity.weight();
            let mut w: usize = 0;
            while w < weight
                invariant
                    0 <= w <= weight,
                    i < items@.len(),
                    weight == items@[i as int].rarity.weight_spec(),
                    eligible(items@[i as int], open_slots as int),
                    pool@ == pool_upto(items@, open_slots as int, i as int) + Seq::new(
                        w as nat,
                        |k: int| i,
                    ),
                decreases weight - w,
            {
                pool.push(i);
                proof {
                    assert(pool@ =~= pool_upto(items@, open_slots as int, i as int) + Seq::new(
                        (w + 1) as nat,
                        |k: int| i,
                    ));
                }
                w = w + 1;
            }
            proof {
                assert(pool@ =~= pool_upto(items@, open_slots as int, i as int + 1));
            }
        } else {
            proof {
                assert(pool@ =~= pool_upto(items@, open_slots as int, i as int + 1));
            }
        }
        i = i + 1;
    }
    pool
}

/// Draws the round's reward choices for one team: `num_choices` draws,
/// independent and with replacement, from the weighted pool of items
/// eligible for a team with `open_slots` open slots. Returns `None` when
/// every item is exhausted or ineligible, so the pool is empty and no
/// offering can be made.
pub fn set_item_choices(items: &Vec<Item>, open_slots: usize, num_choices: usize) -> (r: Option<
    Vec<ItemChoice>,
>)
    ensures
        r is None <==> weighted_pool(items@, open_slots as int).len() == 0,
        r matches Some(cs) ==> cs@.len() == num_choices as int,
        r matches Some(cs) ==> forall|k: int|
            0 <= k < cs@.len() ==> {
                let c = #[trigger] cs@[k];
                &&& (c.item as int) < items@.len()
                &&& eligible(items@[c.item as int], open_slots as int)
                &&& c.copies == items@[c.item as int].copies.0
                &&& c.rarity == items@[c.item as int].rarity
                &&& c.level == items@[c.item as int].level
            },
{
    let pool = build_weighted_pool(items, open_slots);
    if pool.len() == 0 {
        return None;
    }
    let item_count = items.len();
    proof {
        assert(items@.len() == item_count as int);
        lemma_pool_entries(items@, open_slots as int, items@.len() as int);
    }

    let mut choices: Vec<ItemChoice> = Vec::new();
    let mut k: usize = 0;
    while k < num_choices
        invariant
            0 <= k <= num_choices,
            pool@ == weighted_pool(items@, open_slots as int),
            pool@.len() > 0,
            choices@.len() == k as int,
            forall|j: int|
                0 <= j < k as int ==> {
                    let c = #[trigger] choices@[j];
                    &&& (c.item as int) < items@.len()
                    &&& eligible(items@[c.item as int], open_slots as int)
                    &&& c.copies == items@[c.item as int].copies.0
                    &&& c.rarity == items@[c.item as int].rarity
                    &&& c.level == items@[c.item as int].level
                },
        decreases num_choices - k,
    {
        let pick = pool[rand_below(pool.len())];
        let item_count = items.len();
        proof {
            assert(items@.len() == item_count as int);
            lemma_pool_entries(items@, open_slots as int, items@.len() as int);
        }
        let item = &items[pick];
        choices.push(
            ItemChoice { item: pick, copies: item.copies.0, rarity: item.rarity, level: item.level },
        );
        k = k + 1;
    }
    Some(choices)
}

} // verus!
