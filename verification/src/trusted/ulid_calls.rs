//! Calls into the `ulid` crate: fresh identifiers and their 26-character
//! Crockford base32 text.

use vstd::prelude::*;

verus! {

#[verifier::external_type_specification]
#[verifier::external_body]
pub struct ExDecodeError(ulid::DecodeError);

/// The Crockford base32 alphabet that `ulid` encodes with.
pub open spec fn crockford_alphabet() -> Seq<char> {
    seq![
        '0', '1', '2', '3', '4', '5', '6', '7', '8', '9', 'A', 'B', 'C', 'D', 'E', 'F',
        'G', 'H', 'J', 'K', 'M', 'N', 'P', 'Q', 'R', 'S', 'T', 'V', 'W', 'X', 'Y', 'Z',
    ]
}

/// `32` raised to `e`.
pub open spec fn pow32(e: nat) -> int
    decreases e,
{
    if e == 0 {
        1
    } else {
        32 * pow32((e - 1) as nat)
    }
}

/// The text `ulid` writes for the value `v`: 26 symbols, most significant first,
/// symbol `i` standing for the base-32 digit of weight `32^(25 - i)`.
pub open spec fn ulid_text(v: u128) -> Seq<char> {
    Seq::new(26, |i: int| crockford_alphabet()[(v as int / pow32((25 - i) as nat)) % 32])
}

/// The digit that `ulid`'s decoding table gives a character: the alphabet's
/// symbols and the lower-case forms of its letters are accepted.
pub open spec fn crockford_digit(c: char) -> Option<int> {
    let u: int = if 'a' <= c && c <= 'z' { c as int - 32 } else { c as int };
    if 48 <= u && u <= 57 {
        Some(u - 48)
    } else if 65 <= u && u <= 72 {
        Some(u - 55)
    } else if 74 <= u && u <= 75 {
        Some(u - 56)
    } else if 77 <= u && u <= 78 {
        Some(u - 57)
    } else if 80 <= u && u <= 84 {
        Some(u - 58)
    } else if 86 <= u && u <= 90 {
        Some(u - 59)
    } else {
        None
    }
}

/// Whether `ulid` accepts `s`: exactly 26 characters, each a base-32 symbol.
pub open spec fn ulid_accepts(s: Seq<char>) -> bool {
    &&& s.len() == 26
    &&& forall|i: int| 0 <= i < 26 ==> (#[trigger] crockford_digit(s[i])) is Some
}

/// The value `ulid` accumulates from the first `k` symbols of `s`: each step
/// shifts the 128-bit accumulator left by five bits and adds the next digit.
pub open spec fn ulid_fold(s: Seq<char>, k: nat) -> int
    decreases k,
{
    if k == 0 {
        0
    } else {
        (ulid_fold(s, (k - 1) as nat) * 32 + crockford_digit(s[k - 1]).unwrap())
            % 0x1_0000_0000_0000_0000_0000_0000_0000_0000int
    }
}

/// The value `ulid` decodes from an accepted text.
pub open spec fn ulid_value(s: Seq<char>) -> u128 {
    ulid_fold(s, 26) as u128
}

/// Calls `ulid::Ulid::new`, which draws a fresh identifier from the clock and a
/// random source. Nothing is promised of the value it returns.
#[verifier::external_body]
pub(crate) fn ulid_generate() -> u128 {
    ulid::Ulid::new().0
}

/// Calls `ulid::Ulid::to_string`, which writes the 26 base-32 symbols of the
/// value, most significant first (`base32::encode_to_array`).
#[verifier::external_body]
pub(crate) fn ulid_encode(v: u128) -> (r: String)
    ensures
        r@ == ulid_text(v),
{
    ulid::Ulid(v).to_string()
}

/// Calls `ulid::Ulid::from_string`, which accepts exactly the 26-symbol texts
/// over the base-32 alphabet (either case for letters) and folds their digits
/// into a 128-bit value (`base32::decode`). Which of its two errors comes back
/// on a rejected text is not stated.
#[verifier::external_body]
pub(crate) fn ulid_decode(s: &str) -> (r: Result<u128, ulid::DecodeError>)
    ensures
        r is Ok <==> ulid_accepts(s@),
        r is Ok ==> r->Ok_0 == ulid_value(s@),
{
    ulid::Ulid::from_string(s).map(|u| u.0)
}

/// The digit of every alphabet symbol is its position.
pub proof fn lemma_crockford_digit_of_symbol(d: int)
    requires
        0 <= d < 32,
    ensures
        crockford_digit(crockford_alphabet()[d]) == Some(d),
{
    assert(crockford_digit(crockford_alphabet()[d]) == Some(d)) by {
        reveal_with_fuel(crockford_digit, 1);
    }
}

proof fn lemma_pow32_26()
    ensures
        pow32(26) == 0x4_0000_0000_0000_0000_0000_0000_0000_0000int,
{
    reveal_with_fuel(pow32, 27);
}

proof fn lemma_pow32_pos(e: nat)
    ensures
        pow32(e) > 0,
    decreases e,
{
    if e > 0 {
        lemma_pow32_pos((e - 1) as nat);
    }
}

proof fn lemma_fold_of_text(v: u128, k: nat)
    requires
        k <= 26,
    ensures
        ulid_fold(ulid_text(v), k) == v as int / pow32((26 - k) as nat),
    decreases k,
{
    let t = ulid_text(v);
    if k == 0 {
        lemma_pow32_26();
        assert(v as int / pow32(26) == 0) by {
            vstd::arithmetic::div_mod::lemma_basic_div(v as int, pow32(26));
        }
    } else {
        lemma_fold_of_text(v, (k - 1) as nat);
        let m = pow32((26 - k) as nat);
        lemma_pow32_pos((26 - k) as nat);
        assert(pow32((27 - k) as nat) == 32 * m);
        let q = v as int / m;
        let d = q % 32;
        assert(0 <= d < 32);
        assert(t[k - 1] == crockford_alphabet()[d]);
        lemma_crockford_digit_of_symbol(d);
        assert(q / 32 == v as int / (m * 32)) by {
            vstd::arithmetic::div_mod::lemma_div_denominator(v as int, m, 32);
        }
        assert(m * 32 == 32 * m) by (nonlinear_arith);
        assert(q == 32 * (q / 32) + d) by {
            vstd::arithmetic::div_mod::lemma_fundamental_div_mod(q, 32);
        }
        assert(0 <= q <= v) by {
            vstd::arithmetic::div_mod::lemma_div_pos_is_pos(v as int, m);
            vstd::arithmetic::div_mod::lemma_div_is_ordered_by_denominator(v as int, 1, m);
        }
        assert((q / 32 * 32 + d) % 0x1_0000_0000_0000_0000_0000_0000_0000_0000int == q) by {
            vstd::arithmetic::div_mod::lemma_small_mod(
                q as nat,
                0x1_0000_0000_0000_0000_0000_0000_0000_0000nat,
            );
        }
    }
}

/// The text `ulid` writes for any value is accepted back and decodes to that
/// same value.
pub proof fn lemma_ulid_text_roundtrip(v: u128)
    ensures
        ulid_accepts(ulid_text(v)),
        ulid_value(ulid_text(v)) == v,
{
    let t = ulid_text(v);
    assert forall|i: int| 0 <= i < 26 implies (#[trigger] crockford_digit(t[i])) is Some by {
        lemma_pow32_pos((25 - i) as nat);
        let d = (v as int / pow32((25 - i) as nat)) % 32;
        lemma_crockford_digit_of_symbol(d);
    }
    lemma_fold_of_text(v, 26);
    assert(pow32(0) == 1);
}

} // verus!
