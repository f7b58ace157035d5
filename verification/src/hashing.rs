//! The hash evaluator: SHA-1 over a message, then the count of leading zero
//! bits of the digest, scanning digest bytes from the front.  The success
//! predicate of the whole search is `leading zero bits >= difficulty * 4`
//! (one hex digit is four bits).

use vstd::prelude::*;
use vstd::std_specs::bits::u8_leading_zeros;

verus! {

/// The SHA-1 digest of a byte sequence.  The digest is a function of the
/// message alone; its value is not written out here, the trusted wrapper
/// below ties the name to the real computation.
pub uninterp spec fn sha1_of(message: Seq<u8>) -> Seq<u8>;

/// Relies on openssl::sha::sha1: the 20-byte SHA-1 digest of the given
/// bytes, a pure function of the message.
#[verifier::external_body]
fn sha1_digest(message: &Vec<u8>) -> (r: Vec<u8>)
    ensures
        r@ == sha1_of(message@),
        r@.len() == 20,
{
    openssl::sha::sha1(message.as_slice()).to_vec()
}

/// Leading zero bits of a digest: each all-zero byte contributes eight,
/// the first non-zero byte contributes its own leading zeros and stops
/// the scan.
pub open spec fn leading_zero_bits(digest: Seq<u8>) -> nat
    decreases digest.len(),
{
    if digest.len() == 0 {
        0
    } else if digest[0] == 0 {
        (8 + leading_zero_bits(digest.drop_first())) as nat
    } else {
        u8_leading_zeros(digest[0]) as nat
    }
}

/// The count never exceeds eight bits per digest byte.
pub proof fn lemma_leading_zero_bits_bound(digest: Seq<u8>)
    ensures
        leading_zero_bits(digest) <= 8 * digest.len(),
    decreases digest.len(),
{
    if digest.len() > 0 {
        if digest[0] == 0 {
            lemma_leading_zero_bits_bound(digest.drop_first());
        } else {
            vstd::std_specs::bits::axiom_u8_leading_zeros(digest[0]);
        }
    }
}

/// Counts the leading zero bits of a digest byte by byte.
pub fn count_leading_zero_bits(digest: &Vec<u8>) -> (r: u32)
    requires
        digest@.len() <= 20,
    ensures
        r == leading_zero_bits(digest@),
{
    let n = digest.len();
    let mut count: u32 = 0;
    let mut i: usize = 0;
    proof {
        assert(digest@.skip(0) =~= digest@);
    }
    while i < n
        invariant
            n == digest@.len() <= 20,
            0 <= i <= n,
            count == 8 * i,
            leading_zero_bits(digest@) == 8 * i + leading_zero_bits(digest@.skip(i as int)),
        decreases n - i,
    {
        let b = digest[i];
        proof {
            assert(digest@.skip(i as int)[0] == digest@[i as int]);
        }
        if b != 0 {
            proof {
                vstd::std_specs::bits::axiom_u8_leading_zeros(b);
            }
            return count + b.leading_zeros();
        }
        proof {
            assert(digest@.skip(i as int).drop_first() =~= digest@.skip(i as int + 1));
        }
        count = count + 8;
        i = i + 1;
    }
    proof {
        assert(digest@.skip(n as int) =~= Seq::<u8>::empty());
    }
    count
}

/// The hash evaluator: the number of leading zero bits of the SHA-1
/// digest of `message`.
pub fn evaluate_message(message: &Vec<u8>) -> (r: u32)
    ensures
        r == leading_zero_bits(sha1_of(message@)),
        r <= 160,
{
    let digest = sha1_digest(message);
    proof {
        lemma_leading_zero_bits_bound(digest@);
    }
    count_leading_zero_bits(&digest)
}

/// The evaluator is pure: two evaluations of the same message always
/// yield identical leading-zero counts.
pub proof fn lemma_evaluator_pure(message: Seq<u8>, r1: nat, r2: nat)
    requires
        r1 == leading_zero_bits(sha1_of(message)),
        r2 == leading_zero_bits(sha1_of(message)),
    ensures
        r1 == r2,
{
}

} // verus!
