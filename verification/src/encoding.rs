//! The candidate encoder: a non-negative integer becomes a variable-length
//! sequence of base-128 digits, least-significant digit first.  Every digit
//! has its top bit clear, so a candidate is always valid UTF-8 when read as
//! text.  A candidate whose encoding would contain one of the whitespace
//! bytes (tab, newline, carriage return, space) is rejected as a whole.

use vstd::prelude::*;

verus! {

/// Bytes that may not appear in an encoded candidate: tab, newline,
/// carriage return and space.
pub open spec fn disallowed_digit(b: u8) -> bool {
    b == 9 || b == 10 || b == 13 || b == 32
}

/// The base-128 digits of `value`, least-significant digit first.  Zero is
/// encoded as a single zero digit; every other value ends in a non-zero
/// most-significant digit, so the encoding is minimal.
pub open spec fn digits_of(value: nat) -> Seq<u8>
    decreases value,
{
    if value < 128 {
        seq![value as u8]
    } else {
        seq![(value % 128) as u8] + digits_of(value / 128)
    }
}

/// The integer a digit sequence stands for: the inverse of `digits_of`.
pub open spec fn decode_digits(digits: Seq<u8>) -> nat
    decreases digits.len(),
{
    if digits.len() == 0 {
        0
    } else {
        (digits[0] + 128 * decode_digits(digits.drop_first())) as nat
    }
}

/// No digit of the sequence is one of the disallowed whitespace bytes.
pub open spec fn digits_ok(digits: Seq<u8>) -> bool {
    forall|i: int| 0 <= i < digits.len() ==> !disallowed_digit(#[trigger] digits[i])
}

/// Every digit of an encoding is a 7-bit value.
pub proof fn lemma_digits_are_ascii(value: nat)
    ensures
        forall|i: int| 0 <= i < digits_of(value).len() ==> #[trigger] digits_of(value)[i] < 128,
    decreases value,
{
    if value >= 128 {
        lemma_digits_are_ascii(value / 128);
        assert forall|i: int| 0 <= i < digits_of(value).len() implies #[trigger] digits_of(
            value,
        )[i] < 128 by {
            if i > 0 {
                assert(digits_of(value)[i] == digits_of(value / 128)[i - 1]);
            }
        }
    }
}

/// Decoding an encoded value recovers the value exactly: the digit string
/// is a faithful positional representation.
pub proof fn lemma_decode_digits_of(value: nat)
    ensures
        decode_digits(digits_of(value)) == value,
    decreases value,
{
    if value < 128 {
        assert(digits_of(value).drop_first() =~= Seq::<u8>::empty());
        assert(decode_digits(Seq::<u8>::empty()) == 0);
    } else {
        lemma_decode_digits_of(value / 128);
        assert(digits_of(value).drop_first() =~= digits_of(value / 128));
        assert(value % 128 + 128 * (value / 128) == value) by {
            vstd::arithmetic::div_mod::lemma_fundamental_div_mod(value as int, 128);
        }
    }
}

/// Encodes `value` in base 128, least-significant digit first.  Returns
/// `None` exactly when some digit of the encoding is a disallowed byte;
/// such a candidate is skipped without being hashed.
pub fn encode_candidate(value: u128) -> (r: Option<Vec<u8>>)
    ensures
        match r {
            Some(digits) => digits@ == digits_of(value as nat) && digits_ok(digits@),
            None => !digits_ok(digits_of(value as nat)),
        },
{
    let mut digits: Vec<u8> = Vec::new();
    let mut cur: u128 = value;
    loop
        invariant_except_break
            digits_ok(digits@),
            digits_of(value as nat) =~= digits@ + digits_of(cur as nat),
        ensures
            digits@ == digits_of(value as nat) && digits_ok(digits@),
        decreases cur,
    {
        let d: u8 = (cur % 128) as u8;
        proof {
            assert(digits_of(cur as nat)[0] == d);
        }
        if d == 9 || d == 10 || d == 13 || d == 32 {
            proof {
                assert(digits_of(value as nat)[digits@.len() as int] == d);
            }
            return None;
        }
        digits.push(d);
        cur = cur / 128;
        if cur == 0 {
            break ;
        }
        proof {
            assert(digits_of(value as nat) =~= digits@ + digits_of(cur as nat));
        }
    }
    Some(digits)
}

} // verus!
