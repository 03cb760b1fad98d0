//! Splitting messages into digits, the checksum over the digits, and the
//! base-`2^w` rendering of the checksum.
//!
//! The message is read most-significant digit first; the checksum is written
//! most-significant digit first, zero-padded on the high side.

use vstd::prelude::*;
use vstd::arithmetic::power::{
    pow, lemma_pow0, lemma_pow1, lemma_pow_adds, lemma_pow_increases, lemma_pow_positive,
};
use vstd::arithmetic::power2::{lemma_pow2, lemma_pow2_strictly_increases, lemma2_to64};
use vstd::arithmetic::div_mod::{
    lemma_div_denominator, lemma_fundamental_div_mod, lemma_mod_bound,
    lemma_multiply_divide_lt, lemma_div_basics, lemma_div_pos_is_pos,
};
use vstd::arithmetic::mul::lemma_mul_is_commutative;
use crate::params::{Parameters, pow2_u32, lemma_params_bounds};

verus! {

/// Number of digits one byte contributes: `8 / digit_bit_width`.
pub open spec fn digits_per_byte(w: int) -> int {
    8int / w
}

/// Digit `j` (most significant first) of byte `b` at width `w`.
pub open spec fn byte_digit(b: u8, j: int, w: int) -> u8 {
    (((b as int) / pow(2, ((digits_per_byte(w) - 1 - j) * w) as nat)) % pow(2, w as nat)) as u8
}

/// The message split into digits of `w` bits, most significant digit of each
/// byte first.
pub open spec fn message_digits(msg: Seq<u8>, w: int) -> Seq<u8> {
    Seq::new(
        (msg.len() * digits_per_byte(w)) as nat,
        |i: int| byte_digit(msg[i / digits_per_byte(w)], i % digits_per_byte(w), w),
    )
}

/// Sum of `digit_max - digit` over the first `n` digits.
pub open spec fn checksum_prefix(ds: Seq<u8>, digit_max: int, n: int) -> int
    decreases n,
{
    if n <= 0 {
        0
    } else {
        checksum_prefix(ds, digit_max, n - 1) + (digit_max - ds[n - 1])
    }
}

/// The checksum of a digit sequence: the total shortfall of the digits below
/// the largest digit value.
pub open spec fn checksum_of(ds: Seq<u8>, digit_max: int) -> int {
    checksum_prefix(ds, digit_max, ds.len() as int)
}

/// Digit `j` (most significant first) of `s` written in `cdc` digits of base
/// `base`.
pub open spec fn checksum_digit(s: int, j: int, cdc: int, base: int) -> u8 {
    ((s / pow(base, (cdc - 1 - j) as nat)) % base) as u8
}

/// `s` written in exactly `cdc` digits of base `base`, most significant
/// first, zero-padded on the high side.
pub open spec fn checksum_digits(s: int, cdc: int, base: int) -> Seq<u8> {
    Seq::new(cdc as nat, |j: int| checksum_digit(s, j, cdc, base))
}

/// The full digit sequence of a message: its message digits followed by the
/// digits of their checksum.
pub open spec fn all_digits(p: Parameters, msg: Seq<u8>) -> Seq<u8> {
    let mds = message_digits(msg, p.digit_bit_width as int);
    mds + checksum_digits(
        checksum_of(mds, p.digit_max()),
        p.checksum_digit_count as int,
        p.base(),
    )
}

/// `base` raised to `exp`, executable; the result must fit in 32 bits.
pub(crate) fn pow_exec(base: u32, exp: u32) -> (r: u64)
    requires
        2 <= base <= 256,
        pow(base as int, exp as nat) <= 0xffff_ffff,
    ensures
        r == pow(base as int, exp as nat),
        1 <= r <= 0xffff_ffff,
{
    let mut acc: u64 = 1;
    let mut t: u32 = 0;
    proof {
        lemma_pow0(base as int);
    }
    while t < exp
        invariant
            2 <= base <= 256,
            t <= exp,
            acc == pow(base as int, t as nat),
            pow(base as int, exp as nat) <= 0xffff_ffff,
            1 <= acc <= 0xffff_ffff,
        decreases exp - t,
    {
        proof {
            lemma_pow1(base as int);
            lemma_pow_adds(base as int, t as nat, 1);
            assert(pow(base as int, (t + 1) as nat)
                == pow(base as int, t as nat) * base);
            assert(acc * base <= 0xffff_ffffu64 * 256) by (nonlinear_arith)
                requires
                    acc <= 0xffff_ffffu64,
                    base <= 256,
                    acc >= 0,
            ;
            lemma_pow_increases(base as nat, (t + 1) as nat, exp as nat);
            lemma_pow_positive(base as int, (t + 1) as nat);
        }
        acc = acc * base as u64;
        t = t + 1;
    }
    acc
}

/// Splits the message into its digits, most significant digit of each byte
/// first.
pub fn compute_message_digits(p: &Parameters, message: &Vec<u8>) -> (r: Vec<u8>)
    requires
        p.wf(),
        message@.len() == p.message_byte_length,
    ensures
        r@ == message_digits(message@, p.digit_bit_width as int),
        r@.len() == p.message_digit_count,
        forall|i: int| 0 <= i < r@.len() ==> r@[i] <= p.digit_max(),
{
    let w: u32 = p.digit_bit_width;
    let dpb: u32 = 8 / w;
    let base: u32 = pow2_u32(w);
    proof {
        lemma_params_bounds(*p);
        assert(1 <= dpb <= 8 && dpb as int * w as int == 8) by (nonlinear_arith)
            requires
                dpb == 8int / w as int,
                w == 1 || w == 2 || w == 4 || w == 8,
        ;
        assert(p.message_digit_count == p.message_byte_length * dpb) by (nonlinear_arith)
            requires
                p.message_digit_count == p.message_byte_length * 8 / w as int,
                dpb == 8int / w as int,
                w == 1 || w == 2 || w == 4 || w == 8,
        ;
    }
    let mut r: Vec<u8> = Vec::new();
    let mut i: u32 = 0;
    while i < p.message_digit_count
        invariant
            p.wf(),
            message@.len() == p.message_byte_length,
            w == p.digit_bit_width,
            dpb == digits_per_byte(w as int),
            1 <= dpb <= 8,
            dpb as int * w as int == 8,
            base == p.base(),
            2 <= base <= 256,
            p.message_digit_count == p.message_byte_length * dpb,
            i <= p.message_digit_count,
            r@.len() == i,
            forall|k: int| 0 <= k < i
                ==> r@[k] == message_digits(message@, w as int)[k],
            forall|k: int| 0 <= k < i ==> r@[k] <= p.digit_max(),
        decreases p.message_digit_count - i,
    {
        proof {
            lemma_mul_is_commutative(p.message_byte_length as int, dpb as int);
            lemma_multiply_divide_lt(i as int, dpb as int, p.message_byte_length as int);
            lemma_mod_bound(i as int, dpb as int);
        }
        let bi: u32 = i / dpb;
        let j: u32 = i % dpb;
        proof {
            assert(bi < p.message_byte_length);
        }
        let shift: u32 = (dpb - 1 - j) * w;
        proof {
            assert(shift == (dpb - 1 - j) * w && shift <= 7) by (nonlinear_arith)
                requires
                    shift == ((dpb - 1 - j) as u32) * w,
                    0 <= j < dpb,
                    dpb as int * w as int == 8,
                    1 <= w <= 8,
                    1 <= dpb <= 8,
            ;
            lemma2_to64();
            lemma_pow2(shift as nat);
            lemma_pow2(7);
            if shift < 7 {
                lemma_pow2_strictly_increases(shift as nat, 7);
            }
            assert(pow(2, shift as nat) <= 128);
        }
        let pw: u64 = pow_exec(2, shift);
        let b: u8 = message[bi as usize];
        let digit: u8 = (((b as u64) / pw) % (base as u64)) as u8;
        proof {
            lemma_mod_bound((b as int) / pow(2, shift as nat), base as int);
            assert(digit == byte_digit(b, j as int, w as int));
            assert(message_digits(message@, w as int)[i as int]
                == byte_digit(message@[i as int / digits_per_byte(w as int)],
                    i as int % digits_per_byte(w as int), w as int));
        }
        r.push(digit);
        i = i + 1;
    }
    proof {
        assert(r@ =~= message_digits(message@, p.digit_bit_width as int));
    }
    r
}

/// The checksum over the message digits: each digit's shortfall below the
/// largest digit value, summed.
pub fn compute_checksum(p: &Parameters, digits: &Vec<u8>) -> (r: u32)
    requires
        p.wf(),
        digits@.len() == p.message_digit_count,
        forall|i: int| 0 <= i < digits@.len() ==> digits@[i] <= p.digit_max(),
    ensures
        r == checksum_of(digits@, p.digit_max()),
        r <= p.max_checksum(),
{
    let digit_max: u32 = pow2_u32(p.digit_bit_width) - 1;
    proof {
        lemma_params_bounds(*p);
    }
    let mut sum: u32 = 0;
    let mut i: u32 = 0;
    while i < p.message_digit_count
        invariant
            p.wf(),
            digits@.len() == p.message_digit_count,
            forall|k: int| 0 <= k < digits@.len() ==> digits@[k] <= p.digit_max(),
            digit_max == p.digit_max(),
            1 <= digit_max <= 255,
            p.message_digit_count <= 524280,
            i <= p.message_digit_count,
            sum == checksum_prefix(digits@, p.digit_max(), i as int),
            sum <= i * digit_max,
        decreases p.message_digit_count - i,
    {
        proof {
            assert((i + 1) as int * digit_max == i as int * digit_max + digit_max)
            by (nonlinear_arith)
            ;
            assert(i as int * digit_max <= 524280 * 255) by (nonlinear_arith)
                requires
                    0 <= i as int <= 524280,
                    0 <= digit_max <= 255,
            ;
        }
        let d: u8 = digits[i as usize];
        sum = sum + (digit_max - d as u32);
        i = i + 1;
    }
    sum
}

/// Writes the checksum in exactly `checksum_digit_count` digits, most
/// significant first, zero-padded on the high side.
pub fn compute_checksum_digits(p: &Parameters, checksum: u32) -> (r: Vec<u8>)
    requires
        p.wf(),
        checksum <= p.max_checksum(),
    ensures
        r@ == checksum_digits(checksum as int, p.checksum_digit_count as int, p.base()),
        r@.len() == p.checksum_digit_count,
        forall|i: int| 0 <= i < r@.len() ==> r@[i] <= p.digit_max(),
{
    let base: u32 = pow2_u32(p.digit_bit_width);
    proof {
        lemma_params_bounds(*p);
    }
    let mut r: Vec<u8> = Vec::new();
    let mut j: u32 = 0;
    while j < p.checksum_digit_count
        invariant
            p.wf(),
            checksum <= p.max_checksum(),
            base == p.base(),
            2 <= base <= 256,
            j <= p.checksum_digit_count,
            r@.len() == j,
            forall|k: int| 0 <= k < j
                ==> r@[k] == checksum_digit(checksum as int, k,
                    p.checksum_digit_count as int, p.base()),
            forall|k: int| 0 <= k < j ==> r@[k] <= p.digit_max(),
        decreases p.checksum_digit_count - j,
    {
        let e: u32 = p.checksum_digit_count - 1 - j;
        proof {
            lemma_pow_increases(base as nat, e as nat, (p.checksum_digit_count - 1) as nat);
            lemma_params_bounds(*p);
            assert(pow(base as int, e as nat) <= 524280 * 255);
        }
        let pw: u64 = pow_exec(base, e);
        let digit: u8 = (((checksum as u64) / pw) % (base as u64)) as u8;
        proof {
            lemma_mod_bound((checksum as int) / pow(base as int, e as nat), base as int);
            assert(digit == checksum_digit(checksum as int, j as int,
                p.checksum_digit_count as int, p.base()));
        }
        r.push(digit);
        j = j + 1;
    }
    proof {
        assert(r@ =~= checksum_digits(checksum as int, p.checksum_digit_count as int, p.base()));
    }
    r
}

/// The full digit sequence of a message: message digits, then the digits of
/// their checksum.
pub fn compute_all_digits(p: &Parameters, message: &Vec<u8>) -> (r: Vec<u8>)
    requires
        p.wf(),
        message@.len() == p.message_byte_length,
    ensures
        r@ == all_digits(*p, message@),
        r@.len() == p.total_digit_count,
        forall|i: int| 0 <= i < r@.len() ==> r@[i] <= p.digit_max(),
{
    let mut mds = compute_message_digits(p, message);
    let checksum = compute_checksum(p, &mds);
    let cds = compute_checksum_digits(p, checksum);
    let ghost mds0 = mds@;
    let mut t: usize = 0;
    while t < cds.len()
        invariant
            t <= cds@.len(),
            mds@ == mds0 + cds@.subrange(0, t as int),
        decreases cds@.len() - t,
    {
        mds.push(cds[t]);
        proof {
            assert(mds@ =~= mds0 + cds@.subrange(0, t + 1));
        }
        t = t + 1;
    }
    proof {
        assert(cds@.subrange(0, cds@.len() as int) =~= cds@);
        assert(mds@ =~= all_digits(*p, message@));
    }
    mds
}

/// Two digit sequences that agree below `n` have the same checksum prefix.
pub proof fn lemma_checksum_prefix_agree(ds1: Seq<u8>, ds2: Seq<u8>, digit_max: int, n: int)
    requires
        forall|k: int| 0 <= k < n ==> ds1[k] == ds2[k],
    ensures
        checksum_prefix(ds1, digit_max, n) == checksum_prefix(ds2, digit_max, n),
    decreases n,
{
    if n > 0 {
        lemma_checksum_prefix_agree(ds1, ds2, digit_max, n - 1);
    }
}

/// Changing one digit moves the checksum by exactly the change in that
/// digit, in the opposite direction.
pub proof fn lemma_checksum_one_change(
    ds1: Seq<u8>, ds2: Seq<u8>, digit_max: int, n: int, at: int,
)
    requires
        0 <= at < n,
        forall|k: int| 0 <= k < n && k != at ==> ds1[k] == ds2[k],
    ensures
        checksum_prefix(ds2, digit_max, n)
            == checksum_prefix(ds1, digit_max, n) + ds1[at] - ds2[at],
    decreases n,
{
    if n - 1 == at {
        lemma_checksum_prefix_agree(ds1, ds2, digit_max, n - 1);
    } else {
        lemma_checksum_one_change(ds1, ds2, digit_max, n - 1, at);
    }
}

/// High digits of `s` are the digits of `s / base` over one fewer position.
proof fn lemma_checksum_digit_shift(s: int, j: int, cdc: int, base: int)
    requires
        2 <= base,
        s >= 0,
        0 <= j < cdc - 1,
    ensures
        checksum_digit(s, j, cdc, base) == checksum_digit(s / base, j, cdc - 1, base),
    decreases cdc,
{
    let e = (cdc - 1 - j) as nat;
    lemma_pow1(base);
    lemma_pow_adds(base, 1, (e - 1) as nat);
    lemma_pow_positive(base, (e - 1) as nat);
    lemma_div_denominator(s, base, pow(base, (e - 1) as nat));
    assert(s / base / pow(base, (e - 1) as nat) == s / pow(base, e));
}

/// A value below `base^cdc` is determined by its `cdc` base-`base` digits.
pub proof fn lemma_checksum_digits_injective(s1: int, s2: int, cdc: int, base: int)
    requires
        2 <= base <= 256,
        cdc >= 0,
        0 <= s1 < pow(base, cdc as nat),
        0 <= s2 < pow(base, cdc as nat),
        checksum_digits(s1, cdc, base) == checksum_digits(s2, cdc, base),
    ensures
        s1 == s2,
    decreases cdc,
{
    if cdc == 0 {
        lemma_pow0(base);
    } else {
        lemma_pow0(base);
        lemma_pow1(base);
        lemma_pow_adds(base, (cdc - 1) as nat, 1);
        lemma_pow_positive(base, (cdc - 1) as nat);
        // the last digit is the low digit
        assert(checksum_digits(s1, cdc, base)[cdc - 1]
            == checksum_digit(s1, cdc - 1, cdc, base));
        assert(checksum_digits(s2, cdc, base)[cdc - 1]
            == checksum_digit(s2, cdc - 1, cdc, base));
        assert(checksum_digits(s1, cdc, base)[cdc - 1]
            == checksum_digits(s2, cdc, base)[cdc - 1]);
        lemma_div_basics(s1);
        lemma_div_basics(s2);
        lemma_mod_bound(s1, base);
        lemma_mod_bound(s2, base);
        assert(checksum_digit(s1, cdc - 1, cdc, base) == (s1 % base) as u8);
        assert(checksum_digit(s2, cdc - 1, cdc, base) == (s2 % base) as u8);
        assert(s1 % base == s2 % base);
        // the other digits are the digits of the quotient
        assert forall|j: int| 0 <= j < cdc - 1 implies
            #[trigger] checksum_digit(s1 / base, j, cdc - 1, base)
                == checksum_digit(s2 / base, j, cdc - 1, base) by {
            lemma_checksum_digit_shift(s1, j, cdc, base);
            lemma_checksum_digit_shift(s2, j, cdc, base);
            assert(checksum_digits(s1, cdc, base)[j] == checksum_digit(s1, j, cdc, base));
            assert(checksum_digits(s2, cdc, base)[j] == checksum_digit(s2, j, cdc, base));
            assert(checksum_digits(s1, cdc, base)[j] == checksum_digits(s2, cdc, base)[j]);
        }
        assert(checksum_digits(s1 / base, cdc - 1, base)
            =~= checksum_digits(s2 / base, cdc - 1, base));
        assert(((cdc - 1) as nat) + 1 == cdc as nat);
        assert(pow(base, ((cdc - 1) as nat + 1) as nat)
            == pow(base, (cdc - 1) as nat) * pow(base, 1));
        lemma_mul_is_commutative(base, pow(base, (cdc - 1) as nat));
        assert(base * pow(base, (cdc - 1) as nat) == pow(base, cdc as nat));
        lemma_multiply_divide_lt(s1, base, pow(base, (cdc - 1) as nat));
        lemma_multiply_divide_lt(s2, base, pow(base, (cdc - 1) as nat));
        lemma_div_pos_is_pos(s1, base);
        lemma_div_pos_is_pos(s2, base);
        lemma_checksum_digits_injective(s1 / base, s2 / base, cdc - 1, base);
        lemma_fundamental_div_mod(s1, base);
        lemma_fundamental_div_mod(s2, base);
    }
}

/// The checksum of a digit sequence bounded by `digit_max` lies in
/// `[0, len * digit_max]`.
#[verifier::spinoff_prover]
pub proof fn lemma_checksum_bounds(ds: Seq<u8>, digit_max: int, n: int)
    requires
        0 <= n <= ds.len(),
        forall|k: int| 0 <= k < ds.len() ==> ds[k] <= digit_max,
    ensures
        0 <= checksum_prefix(ds, digit_max, n) <= n * digit_max,
    decreases n,
{
    if n > 0 {
        lemma_checksum_bounds(ds, digit_max, n - 1);
        assert(checksum_prefix(ds, digit_max, n)
            == checksum_prefix(ds, digit_max, n - 1) + (digit_max - ds[n - 1]));
        assert(ds[n - 1] <= digit_max);
        assert(n * digit_max == (n - 1) * digit_max + digit_max) by (nonlinear_arith);
    }
}

} // verus!
