//! The candidate space.  A difficulty of `d` hex digits asks for `16^d`
//! expected trials, and each base-128 digit of a suffix contributes seven
//! bits, so the space is `[0, 128^p)` where `p` is the least number of
//! digits with `128^p >= 16^d`.

use vstd::arithmetic::div_mod::lemma_div_is_ordered;
use vstd::arithmetic::div_mod::lemma_fundamental_div_mod;
use vstd::arithmetic::power::lemma_pow_adds;
use vstd::arithmetic::power::lemma_pow_increases;
use vstd::arithmetic::power::lemma_pow_multiplies;
use vstd::arithmetic::power::lemma_pow_strictly_increases;
use vstd::arithmetic::power::pow;
use vstd::prelude::*;

verus! {

/// The number of base-128 digits that the space must allow at the given
/// difficulty: the least `p` with `128^p >= 16^d`, which is `ceil(4d / 7)`
/// because `128^p = 2^(7p)` and `16^d = 2^(4d)`.
pub open spec fn spec_max_padding(difficulty: nat) -> nat {
    (4 * difficulty + 6) / 7
}

/// The size of the candidate space at the given difficulty.
pub open spec fn spec_max_value(difficulty: nat) -> nat {
    pow(128, spec_max_padding(difficulty)) as nat
}

/// `spec_max_padding` is exactly the least exponent whose power of 128
/// reaches `16^difficulty`.
pub proof fn lemma_max_padding_minimal(difficulty: nat)
    ensures
        pow(128, spec_max_padding(difficulty)) >= pow(16, difficulty),
        spec_max_padding(difficulty) > 0 ==> pow(
            128,
            (spec_max_padding(difficulty) - 1) as nat,
        ) < pow(16, difficulty),
{
    let p = spec_max_padding(difficulty);
    assert(7 * p <= 4 * difficulty + 6 && 7 * p >= 4 * difficulty) by {
        lemma_fundamental_div_mod(4 * difficulty + 6 as int, 7);
    }
    assert(pow(2, 7) == 128 && pow(2, 4) == 16) by {
        reveal_with_fuel(pow, 8);
    }
    assert(pow(128, p) == pow(2, 7 * p)) by {
        lemma_pow_multiplies(2, 7, p);
    }
    assert(pow(16, difficulty) == pow(2, 4 * difficulty)) by {
        lemma_pow_multiplies(2, 4, difficulty);
    }
    lemma_pow_increases(2, 4 * difficulty, 7 * p);
    if p > 0 {
        assert(pow(128, (p - 1) as nat) == pow(2, 7 * (p - 1) as nat)) by {
            lemma_pow_multiplies(2, 7, (p - 1) as nat);
        }
        assert((7 * ((p - 1) as nat)) < 4 * difficulty);
        lemma_pow_strictly_increases(2, (7 * (p - 1) as nat) as nat, 4 * difficulty);
    }
}

/// Monotonic space growth: a higher difficulty never shrinks the padding,
/// and the space is always at least the `16^difficulty` expected trials.
pub proof fn lemma_space_growth(d1: nat, d2: nat)
    requires
        d1 <= d2,
    ensures
        spec_max_padding(d1) <= spec_max_padding(d2),
        spec_max_value(d1) >= pow(16, d1),
{
    lemma_div_is_ordered(4 * d1 + 6 as int, 4 * d2 + 6 as int, 7);
    lemma_max_padding_minimal(d1);
    vstd::arithmetic::power::lemma_pow_positive(16, d1);
}

/// Computes the number of digits the space allows: `ceil(4 * nb_zeros / 7)`.
/// The bound on `nb_zeros` keeps `128^max_padding` within `u128`.
pub fn max_padding(nb_zeros: u32) -> (r: u32)
    requires
        nb_zeros <= 31,
    ensures
        r == spec_max_padding(nb_zeros as nat),
        r <= 18,
{
    proof {
        lemma_div_is_ordered(4 * nb_zeros + 6 as int, 130, 7);
    }
    (4 * nb_zeros + 6) / 7
}

/// Computes the size of the candidate space, `128^max_padding(nb_zeros)`.
pub fn max_value(nb_zeros: u32) -> (r: u128)
    requires
        nb_zeros <= 31,
    ensures
        r == spec_max_value(nb_zeros as nat),
        r >= 1,
{
    let p = max_padding(nb_zeros);
    let mut acc: u128 = 1;
    let mut i: u32 = 0;
    proof {
        vstd::arithmetic::power::lemma_pow0(128);
        assert(pow(128, 18) == 0x40000000000000000000000000000000) by {
            reveal_with_fuel(pow, 19);
        }
    }
    while i < p
        invariant
            0 <= i <= p <= 18,
            acc == pow(128, i as nat),
        decreases p - i,
    {
        proof {
            lemma_pow_adds(128, i as nat, 1);
            vstd::arithmetic::power::lemma_pow1(128);
            lemma_pow_increases(128, (i + 1) as nat, 18);
            assert(pow(128, 18) == 0x40000000000000000000000000000000) by {
                reveal_with_fuel(pow, 19);
            }
        }
        acc = acc * 128;
        i = i + 1;
    }
    proof {
        vstd::arithmetic::power::lemma_pow_positive(128, p as nat);
    }
    acc
}

} // verus!
