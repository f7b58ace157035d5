//! The search itself.  A worker scans one range of the candidate space in
//! ascending order, skipping candidates whose encoding holds a disallowed
//! byte and hashing the rest; the coordinator sizes the space, partitions
//! it, runs the ranges in ascending order and reports the first hit.  The
//! reported suffix is therefore the one of the lowest qualifying
//! candidate, a deterministic tie-break among workers.

use crate::encoding::digits_of;
use crate::encoding::digits_ok;
use crate::encoding::encode_candidate;
use crate::encoding::lemma_digits_are_ascii;
use crate::hashing::evaluate_message;
use crate::hashing::leading_zero_bits;
use crate::hashing::sha1_of;
use crate::partition::in_some_range;
use crate::partition::lemma_partition_exact_cover;
use crate::partition::worker_ranges;
use crate::space::max_value;
use crate::space::spec_max_value;
use vstd::prelude::*;
use vstd::string::StrSliceExecFns;
use vstd::utf8::encode_utf8;
use vstd::utf8::is_ascii_chars;
use vstd::utf8::is_ascii_chars_encode_utf8;

verus! {

/// The message a candidate is hashed over: the base bytes followed by the
/// candidate's encoded digits.
pub open spec fn candidate_message(base: Seq<u8>, value: nat) -> Seq<u8> {
    base + digits_of(value)
}

/// The candidate qualifies: its digits avoid the disallowed bytes and the
/// SHA-1 digest of its message reaches four leading zero bits per
/// requested hex digit.
pub open spec fn candidate_succeeds(base: Seq<u8>, value: nat, difficulty: nat) -> bool {
    &&& digits_ok(digits_of(value))
    &&& leading_zero_bits(sha1_of(candidate_message(base, value))) >= 4 * difficulty
}

/// The characters a digit sequence reads as: ASCII, one character per
/// 7-bit byte.
pub open spec fn ascii_chars_of(bytes: Seq<u8>) -> Seq<char> {
    Seq::new(bytes.len(), |i: int| bytes[i] as char)
}

/// The two byte vectors, one after the other.
fn concat_bytes(a: &Vec<u8>, b: &Vec<u8>) -> (r: Vec<u8>)
    ensures
        r@ == a@ + b@,
{
    let mut r: Vec<u8> = Vec::new();
    let mut i: usize = 0;
    while i < a.len()
        invariant
            0 <= i <= a@.len(),
            r@ == a@.take(i as int),
        decreases a@.len() - i,
    {
        r.push(a[i]);
        proof {
            assert(r@ =~= a@.take(i + 1));
        }
        i = i + 1;
    }
    let mut j: usize = 0;
    while j < b.len()
        invariant
            0 <= j <= b@.len(),
            r@ == a@ + b@.take(j as int),
        decreases b@.len() - j,
    {
        r.push(b[j]);
        proof {
            assert(r@ =~= a@ + b@.take(j + 1));
        }
        j = j + 1;
    }
    proof {
        assert(a@.take(a@.len() as int) =~= a@);
        assert(b@.take(b@.len() as int) =~= b@);
        assert(r@ =~= a@ + b@);
    }
    r
}

/// One worker's search: scans `[lower, upper)` in ascending order and
/// returns the digits of the first qualifying candidate, or `None` when
/// the whole range holds none.
pub fn search_range(base_bytes: &Vec<u8>, nb_zeros: u32, lower: u128, upper: u128) -> (r: Option<
    Vec<u8>,
>)
    ensures
        match r {
            Some(digits) => exists|v: nat|
                lower <= v < upper && #[trigger] candidate_succeeds(
                    base_bytes@,
                    v,
                    nb_zeros as nat,
                ) && digits@ == digits_of(v) && (forall|w: nat|
                    lower <= w < v ==> !candidate_succeeds(base_bytes@, w, nb_zeros as nat)),
            None => forall|w: nat|
                lower <= w < upper ==> !candidate_succeeds(base_bytes@, w, nb_zeros as nat),
        },
{
    let mut value: u128 = lower;
    while value < upper
        invariant
            lower <= value,
            value <= upper || upper <= lower,
            forall|w: nat|
                lower <= w < value ==> !candidate_succeeds(base_bytes@, w, nb_zeros as nat),
        decreases upper - value,
    {
        match encode_candidate(value) {
            None => {
                proof {
                    assert(!candidate_succeeds(base_bytes@, value as nat, nb_zeros as nat));
                }
            },
            Some(digits) => {
                let message = concat_bytes(base_bytes, &digits);
                let count = evaluate_message(&message);
                if count as u64 >= 4 * (nb_zeros as u64) {
                    proof {
                        assert(candidate_succeeds(base_bytes@, value as nat, nb_zeros as nat));
                    }
                    return Some(digits);
                }
                proof {
                    assert(!candidate_succeeds(base_bytes@, value as nat, nb_zeros as nat));
                }
            },
        }
        value = value + 1;
    }
    None
}

/// Relies on String::from_utf8: bytes with a clear top bit are ASCII,
/// hence valid UTF-8, and decode to the characters with the same code
/// points.
#[verifier::external_body]
fn ascii_bytes_to_string(bytes: Vec<u8>) -> (r: String)
    requires
        forall|i: int| 0 <= i < bytes@.len() ==> bytes@[i] < 128,
    ensures
        r@ == ascii_chars_of(bytes@),
{
    match String::from_utf8(bytes) {
        Ok(s) => s,
        Err(_) => String::new(),
    }
}

/// The public entry point.  Looks for a suffix of 7-bit ASCII characters
/// such that SHA-1 of the UTF-8 bytes of the base string followed by the
/// suffix has at least `nb_zeros` leading zero hex digits, scanning the
/// whole candidate space with `nb_threads` worker ranges taken in
/// ascending order.  Returns the suffix of the lowest qualifying
/// candidate, or `None` when the space holds none.
pub fn generate_valid_string(base_string: &String, nb_zeros: u32, nb_threads: u32) -> (r: Option<
    String,
>)
    requires
        nb_zeros <= 31,
        nb_threads >= 1,
    ensures
        match r {
            Some(s) => exists|v: nat|
                v < spec_max_value(nb_zeros as nat) && #[trigger] candidate_succeeds(
                    encode_utf8(base_string@),
                    v,
                    nb_zeros as nat,
                ) && s@ == ascii_chars_of(digits_of(v)) && (forall|w: nat|
                    w < v ==> !candidate_succeeds(encode_utf8(base_string@), w, nb_zeros as nat)),
            None => forall|v: nat|
                v < spec_max_value(nb_zeros as nat) ==> !candidate_succeeds(
                    encode_utf8(base_string@),
                    v,
                    nb_zeros as nat,
                ),
        },
        nb_zeros == 0 ==> r is Some,
{
    let base_bytes = base_string.as_str().as_bytes_vec();
    proof {
        assert(base_bytes@ == encode_utf8(base_string@));
    }
    let space = max_value(nb_zeros);
    let ranges = worker_ranges(space, nb_threads);
    proof {
        lemma_partition_exact_cover(ranges@, space);
    }
    let n = ranges.len();
    let mut k: usize = 0;
    let ghost mut done: u128 = 0;
    while k < n
        invariant
            n == ranges@.len(),
            0 <= k <= n,
            base_bytes@ == encode_utf8(base_string@),
            space == spec_max_value(nb_zeros as nat),
            forall|v: u128| #[trigger] in_some_range(ranges@, v) <==> v < space,
            k < n ==> ranges@[k as int].lower == done,
            k == n ==> done == space,
            forall|i: int|
                0 <= i < n ==> (#[trigger] ranges@[i]).lower <= ranges@[i].upper,
            forall|i: int| 0 < i < n ==> (#[trigger] ranges@[i]).lower == ranges@[i - 1].upper,
            n >= 1 && ranges@[n - 1].upper == space,
            forall|w: nat| w < done ==> !candidate_succeeds(base_bytes@, w, nb_zeros as nat),
        decreases n - k,
    {
        let lower = ranges[k].lower;
        let upper = ranges[k].upper;
        match search_range(&base_bytes, nb_zeros, lower, upper) {
            Some(digits) => {
                proof {
                    let v = choose|v: nat|
                        lower <= v < upper && #[trigger] candidate_succeeds(
                            base_bytes@,
                            v,
                            nb_zeros as nat,
                        ) && digits@ == digits_of(v) && (forall|w: nat|
                            lower <= w < v ==> !candidate_succeeds(
                                base_bytes@,
                                w,
                                nb_zeros as nat,
                            ));
                    lemma_digits_are_ascii(v);
                    assert(ranges@[k as int].spec_contains(v as u128));
                    assert(in_some_range(ranges@, v as u128));
                    assert(forall|w: nat|
                        w < v ==> !candidate_succeeds(base_bytes@, w, nb_zeros as nat));
                }
                let s = ascii_bytes_to_string(digits);
                return Some(s);
            },
            None => {
                proof {
                    done = upper;
                    if k + 1 < n {
                        assert(ranges@[k + 1].lower == ranges@[k as int].upper);
                    }
                }
            },
        }
        k = k + 1;
    }
    proof {
        if nb_zeros == 0 {
            assert(digits_of(0) =~= seq![0u8]);
            assert(!crate::encoding::disallowed_digit(0));
            assert(digits_ok(digits_of(0)));
            assert(candidate_succeeds(base_bytes@, 0, 0));
            assert(space >= 1);
            assert(!candidate_succeeds(base_bytes@, 0, nb_zeros as nat));
            assert(false);
        }
    }
    None
}

/// Correctness of a returned suffix: appending it to the base string
/// makes the SHA-1 digest of the whole string's UTF-8 bytes reach four
/// leading zero bits per requested hex digit.
pub proof fn lemma_returned_suffix_correct(
    base: Seq<char>,
    s: Seq<char>,
    value: nat,
    difficulty: nat,
)
    requires
        candidate_succeeds(encode_utf8(base), value, difficulty),
        s == ascii_chars_of(digits_of(value)),
    ensures
        leading_zero_bits(sha1_of(encode_utf8(base + s))) >= 4 * difficulty,
{
    let digits = digits_of(value);
    lemma_digits_are_ascii(value);
    assert(is_ascii_chars(s)) by {
        assert(forall|i: int| 0 <= i < s.len() ==> s[i] == (#[trigger] digits[i]) as char);
    }
    is_ascii_chars_encode_utf8(s);
    assert(encode_utf8(s) =~= digits);
    lemma_encode_utf8_concat(base, s);
    assert(encode_utf8(base + s) =~= candidate_message(encode_utf8(base), value));
}

/// UTF-8 encoding distributes over concatenation of character sequences.
pub proof fn lemma_encode_utf8_concat(a: Seq<char>, b: Seq<char>)
    ensures
        encode_utf8(a + b) =~= encode_utf8(a) + encode_utf8(b),
    decreases a.len(),
{
    if a.len() == 0 {
        assert(a + b =~= b);
        assert(encode_utf8(a) =~= Seq::<u8>::empty());
        assert(encode_utf8(a) + encode_utf8(b) =~= encode_utf8(b));
    } else {
        assert((a + b).drop_first() =~= a.drop_first() + b);
        lemma_encode_utf8_concat(a.drop_first(), b);
        assert((a + b)[0] == a[0]);
        assert(vstd::utf8::encode_scalar((a + b)[0] as u32) + (encode_utf8(a.drop_first())
            + encode_utf8(b)) =~= (vstd::utf8::encode_scalar(a[0] as u32) + encode_utf8(
            a.drop_first(),
        )) + encode_utf8(b));
    }
}

} // verus!
