//! Pure step logic of a small dice-game simulation: four fruit piles are
//! emptied die roll by die roll before a raven track runs out.  The die is
//! rolled outside; each call here applies one roll to the game state and
//! says whether the game has ended.

use vstd::prelude::*;

verus! {

/// The six faces of the game die.
#[derive(Clone, Copy)]
pub enum Dice {
    Green,
    Blue,
    Red,
    Yellow,
    Basket,
    Raven,
}

/// How a finished game ended.
#[derive(Clone, Copy, PartialEq, Eq, Structural, Debug)]
pub enum GameResult {
    Won,
    Lost,
}

/// One less, stopping at zero.
pub open spec fn spec_minus_one_or_zero(value: u32) -> u32 {
    if value > 0 {
        (value - 1) as u32
    } else {
        0
    }
}

/// Decrements a pile that may already be empty.
pub fn minus_one_or_zero(value: u32) -> (r: u32)
    ensures
        r == spec_minus_one_or_zero(value),
{
    if value > 0 {
        value - 1
    } else {
        0
    }
}

/// The number of fruits still on the trees, summed from the back of the
/// sequence.
pub open spec fn total_fruits(fruits: Seq<u32>) -> int
    decreases fruits.len(),
{
    if fruits.len() == 0 {
        0
    } else {
        total_fruits(fruits.drop_last()) + fruits.last()
    }
}

/// A sum of pile sizes is positive exactly when some pile is non-empty.
pub proof fn lemma_total_fruits_positive(fruits: Seq<u32>)
    ensures
        total_fruits(fruits) >= 0,
        total_fruits(fruits) > 0 <==> exists|i: int| 0 <= i < fruits.len() && fruits[i] > 0,
    decreases fruits.len(),
{
    if fruits.len() > 0 {
        lemma_total_fruits_positive(fruits.drop_last());
        if total_fruits(fruits) > 0 {
            if fruits.last() > 0 {
                assert(fruits[fruits.len() - 1] > 0);
            } else {
                let i = choose|i: int|
                    0 <= i < fruits.drop_last().len() && fruits.drop_last()[i] > 0;
                assert(fruits[i] > 0);
            }
        }
        if exists|i: int| 0 <= i < fruits.len() && fruits[i] > 0 {
            let i = choose|i: int| 0 <= i < fruits.len() && fruits[i] > 0;
            if i < fruits.len() - 1 {
                assert(fruits.drop_last()[i] > 0);
            }
        }
    }
}

/// Sums the piles.
fn sum_fruits(fruits: &Vec<u32>) -> (r: u64)
    requires
        fruits@.len() <= 4,
    ensures
        r == total_fruits(fruits@),
{
    let mut r: u64 = 0;
    let mut i: usize = 0;
    while i < fruits.len()
        invariant
            0 <= i <= fruits@.len() <= 4,
            r == total_fruits(fruits@.take(i as int)),
            r <= i * 0xffff_ffff,
        decreases fruits@.len() - i,
    {
        proof {
            assert(fruits@.take(i + 1).drop_last() =~= fruits@.take(i as int));
            assert(fruits@.take(i + 1).last() == fruits@[i as int]);
        }
        r = r + fruits[i] as u64;
        i = i + 1;
    }
    proof {
        assert(fruits@.take(fruits@.len() as int) =~= fruits@);
    }
    r
}

/// `k` is the index the basket roll picks: a maximal pile, and the last
/// such pile in the row.
pub open spec fn is_last_max(fruits: Seq<u32>, k: int) -> bool {
    &&& 0 <= k < fruits.len()
    &&& forall|j: int| 0 <= j < fruits.len() ==> #[trigger] fruits[j] <= fruits[k]
    &&& forall|j: int| k < j < fruits.len() ==> #[trigger] fruits[j] < fruits[k]
}

/// Finds the last maximal pile.
fn last_max_index(fruits: &Vec<u32>) -> (k: usize)
    requires
        fruits@.len() >= 1,
    ensures
        is_last_max(fruits@, k as int),
{
    let mut best: usize = 0;
    let mut i: usize = 1;
    while i < fruits.len()
        invariant
            0 <= best < i <= fruits@.len(),
            forall|j: int| 0 <= j < i ==> #[trigger] fruits@[j] <= fruits@[best as int],
            forall|j: int| best < j < i ==> #[trigger] fruits@[j] < fruits@[best as int],
        decreases fruits@.len() - i,
    {
        if fruits[i] >= fruits[best] {
            best = i;
        }
        i = i + 1;
    }
    best
}

/// Applies one die roll to the game state: a colour roll empties its pile
/// by one (no further than zero), the basket empties the last maximal
/// pile by one, the raven advances the raven track.  Returns the game's
/// outcome once all fruits are gone (won) or the raven arrives (lost).
pub fn play_step(fruits: &mut Vec<u32>, raven_position: &mut u32, dice: Dice) -> (r: Option<
    GameResult,
>)
    requires
        old(fruits)@.len() == 4,
        *old(raven_position) > 0,
        total_fruits(old(fruits)@) > 0,
    ensures
        final(fruits)@.len() == 4,
        match dice {
            Dice::Green => final(fruits)@ == old(fruits)@.update(
                0,
                spec_minus_one_or_zero(old(fruits)@[0]),
            ) && *final(raven_position) == *old(raven_position),
            Dice::Blue => final(fruits)@ == old(fruits)@.update(
                1,
                spec_minus_one_or_zero(old(fruits)@[1]),
            ) && *final(raven_position) == *old(raven_position),
            Dice::Red => final(fruits)@ == old(fruits)@.update(
                2,
                spec_minus_one_or_zero(old(fruits)@[2]),
            ) && *final(raven_position) == *old(raven_position),
            Dice::Yellow => final(fruits)@ == old(fruits)@.update(
                3,
                spec_minus_one_or_zero(old(fruits)@[3]),
            ) && *final(raven_position) == *old(raven_position),
            Dice::Basket => *final(raven_position) == *old(raven_position) && exists|k: int|
                #[trigger] is_last_max(old(fruits)@, k) && final(fruits)@ == old(fruits)@.update(
                    k,
                    (old(fruits)@[k] - 1) as u32,
                ),
            Dice::Raven => final(fruits)@ == old(fruits)@ && *final(raven_position) + 1 == *old(
                raven_position),
        },
        (r == Some(GameResult::Won)) <==> total_fruits(final(fruits)@) == 0,
        (r == Some(GameResult::Lost)) <==> (total_fruits(final(fruits)@) > 0 && *final(
            raven_position) == 0),
        (r is None) <==> (total_fruits(final(fruits)@) > 0 && *final(raven_position) > 0),
{
    match dice {
        Dice::Green => {
            let v = minus_one_or_zero(fruits[0]);
            fruits.set(0, v);
        },
        Dice::Blue => {
            let v = minus_one_or_zero(fruits[1]);
            fruits.set(1, v);
        },
        Dice::Red => {
            let v = minus_one_or_zero(fruits[2]);
            fruits.set(2, v);
        },
        Dice::Yellow => {
            let v = minus_one_or_zero(fruits[3]);
            fruits.set(3, v);
        },
        Dice::Basket => {
            let k = last_max_index(fruits);
            proof {
                lemma_total_fruits_positive(fruits@);
                let i = choose|i: int| 0 <= i < fruits@.len() && fruits@[i] > 0;
                assert(fruits@[k as int] >= fruits@[i]);
            }
            let v = fruits[k] - 1;
            fruits.set(k, v);
        },
        Dice::Raven => {
            *raven_position = *raven_position - 1;
        },
    }
    let remaining = sum_fruits(fruits);
    if remaining == 0 {
        Some(GameResult::Won)
    } else if *raven_position == 0 {
        Some(GameResult::Lost)
    } else {
        None
    }
}

} // verus!
