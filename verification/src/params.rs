//! Parameter model: derives the digit layout of an instantiation from the
//! message bit length and the digit bit width.
//!
//! All later array sizes follow from `total_digit_count`, which never changes
//! after construction.

use vstd::prelude::*;
use vstd::arithmetic::power::{
    pow, lemma_pow0, lemma_pow1, lemma_pow_adds, lemma_pow_increases,
};
use vstd::arithmetic::power2::{pow2, lemma_pow2, lemma_pow2_unfold, lemma_pow2_strictly_increases, lemma2_to64};

verus! {

/// Layout of one instantiation of the scheme.
///
/// Every operation of the scheme takes the `Parameters` value it was meant
/// for; values generated under different parameters are not interchangeable.
#[derive(Clone, Copy, Debug, PartialEq, Eq, Structural)]
pub struct Parameters {
    /// Bits per digit; must divide a byte evenly.
    pub digit_bit_width: u32,
    /// Fixed byte length of the messages this instantiation signs.
    pub message_byte_length: u32,
    /// Number of digits the message splits into.
    pub message_digit_count: u32,
    /// Number of digits of the checksum, sized so the largest checksum fits.
    pub checksum_digit_count: u32,
    /// `message_digit_count + checksum_digit_count`.
    pub total_digit_count: u32,
}

impl Parameters {
    /// Number of values a digit can take: `2^digit_bit_width`.
    pub open spec fn base(self) -> int {
        pow(2, self.digit_bit_width as nat)
    }

    /// Largest value of a digit: `2^digit_bit_width - 1`.
    pub open spec fn digit_max(self) -> int {
        self.base() - 1
    }

    /// Largest possible checksum: every message digit at zero.
    pub open spec fn max_checksum(self) -> int {
        self.message_digit_count * self.digit_max()
    }

    /// Well-formedness: the counts are exactly what the derivation rules give.
    pub open spec fn wf(self) -> bool {
        &&& (self.digit_bit_width == 1 || self.digit_bit_width == 2
            || self.digit_bit_width == 4 || self.digit_bit_width == 8)
        &&& 1 <= self.message_byte_length <= 65535
        &&& self.message_digit_count
            == self.message_byte_length * 8 / self.digit_bit_width as int
        &&& 1 <= self.checksum_digit_count <= 32
        &&& pow(self.base(), self.checksum_digit_count as nat) > self.max_checksum()
        &&& pow(self.base(), (self.checksum_digit_count - 1) as nat) <= self.max_checksum()
        &&& self.total_digit_count
            == self.message_digit_count + self.checksum_digit_count
    }

    /// Derives the digit layout for messages of `message_bit_length` bits with
    /// digits of `digit_bit_width` bits.
    ///
    /// The message digit count is `message_bit_length / digit_bit_width`
    /// (exact, since the width divides a byte and the length is byte-aligned),
    /// and the checksum digit count is the smallest number of digits in which
    /// the largest checksum, `message_digit_count * (2^digit_bit_width - 1)`,
    /// can be written.
    pub fn new_by_bit_length(message_bit_length: u32, digit_bit_width: u32) -> (r: Parameters)
        requires
            message_bit_length % 8 == 0,
            8 <= message_bit_length <= 65535 * 8,
            digit_bit_width == 1 || digit_bit_width == 2
                || digit_bit_width == 4 || digit_bit_width == 8,
        ensures
            r.wf(),
            r.digit_bit_width == digit_bit_width,
            r.message_byte_length == message_bit_length / 8,
            r.message_digit_count == message_bit_length / digit_bit_width,
    {
        let base: u32 = pow2_u32(digit_bit_width);
        let digit_max: u32 = base - 1;
        let message_digit_count: u32 = message_bit_length / digit_bit_width;
        proof {
            assert(message_digit_count <= 65535 * 8);
            assert(digit_max <= 255);
            assert(1 <= message_digit_count * digit_max <= 524280 * 255) by (nonlinear_arith)
                requires
                    1 <= message_digit_count <= 524280,
                    1 <= digit_max <= 255,
            ;
            assert(message_bit_length / digit_bit_width
                == (message_bit_length / 8) * 8 / digit_bit_width as int)
            by (nonlinear_arith)
                requires
                    message_bit_length % 8 == 0,
                    digit_bit_width == 1 || digit_bit_width == 2
                        || digit_bit_width == 4 || digit_bit_width == 8,
            ;
        }
        let max_checksum: u32 = message_digit_count * digit_max;
        let checksum_digit_count: u32 = count_digits(max_checksum, base);
        Parameters {
            digit_bit_width,
            message_byte_length: message_bit_length / 8,
            message_digit_count,
            checksum_digit_count,
            total_digit_count: message_digit_count + checksum_digit_count,
        }
    }
}

/// Numeric bounds that follow from well-formedness; they keep the
/// executable arithmetic of the scheme inside `u32` range.
pub proof fn lemma_params_bounds(p: Parameters)
    requires
        p.wf(),
    ensures
        2 <= p.base() <= 256,
        1 <= p.digit_max() <= 255,
        1 <= p.message_digit_count <= 524280,
        1 <= p.max_checksum() <= 524280 * 255,
        p.message_digit_count < p.total_digit_count <= 524312,
{
    lemma2_to64();
    lemma_pow2(p.digit_bit_width as nat);
    lemma_pow2(8);
    if p.digit_bit_width < 8 {
        lemma_pow2_strictly_increases(p.digit_bit_width as nat, 8);
    }
    assert(p.base() >= 2);
    assert(p.base() <= 256);
    assert(p.message_digit_count >= 1) by (nonlinear_arith)
        requires
            p.message_digit_count == p.message_byte_length * 8 / p.digit_bit_width as int,
            1 <= p.message_byte_length,
            1 <= p.digit_bit_width <= 8,
    ;
    assert(p.message_digit_count <= 524280) by (nonlinear_arith)
        requires
            p.message_digit_count == p.message_byte_length * 8 / p.digit_bit_width as int,
            p.message_byte_length <= 65535,
            1 <= p.digit_bit_width,
    ;
    assert(1 <= p.max_checksum() <= 524280 * 255) by (nonlinear_arith)
        requires
            p.max_checksum() == p.message_digit_count * p.digit_max(),
            1 <= p.message_digit_count <= 524280,
            1 <= p.digit_max() <= 255,
    ;
}

/// `2^exp` for the digit widths in use.
pub(crate) fn pow2_u32(exp: u32) -> (r: u32)
    requires
        exp == 1 || exp == 2 || exp == 4 || exp == 8,
    ensures
        r == pow(2, exp as nat),
        2 <= r <= 256,
{
    proof {
        lemma2_to64();
        lemma_pow2(exp as nat);
    }
    if exp == 1 {
        2
    } else if exp == 2 {
        4
    } else if exp == 4 {
        16
    } else {
        256
    }
}

/// Smallest positive number of base-`base` digits in which `value` fits.
fn count_digits(value: u32, base: u32) -> (r: u32)
    requires
        2 <= base <= 256,
        value >= 1,
    ensures
        1 <= r <= 32,
        pow(base as int, r as nat) > value,
        pow(base as int, (r - 1) as nat) <= value,
{
    let mut acc: u64 = base as u64;
    let mut n: u32 = 1;
    proof {
        lemma_pow0(base as int);
        lemma_pow1(base as int);
        lemma2_to64();
        assert(pow2(1) == 2);
    }
    while acc <= value as u64
        invariant
            2 <= base <= 256,
            value >= 1,
            1 <= n <= 32,
            2 <= acc,
            acc == pow(base as int, n as nat),
            pow2(n as nat) <= acc,
            pow(base as int, (n - 1) as nat) <= value,
        decreases 32 - n,
    {
        proof {
            lemma_pow1(base as int);
            lemma_pow_adds(base as int, n as nat, 1);
            assert(pow(base as int, (n + 1) as nat)
                == pow(base as int, n as nat) * base);
            lemma_pow2_unfold((n + 1) as nat);
            assert(2 * pow2(n as nat) <= 2 * acc <= base * acc) by (nonlinear_arith)
                requires
                    pow2(n as nat) <= acc,
                    base >= 2,
                    acc >= 0,
            ;
            assert(acc * base >= acc + acc) by (nonlinear_arith)
                requires
                    acc >= 2,
                    base >= 2,
            ;
            assert(n <= 31) by {
                if n >= 32 {
                    lemma_pow2_strictly_increases(32, 33);
                    if n > 32 {
                        lemma_pow2_strictly_increases(32, n as nat);
                    }
                    lemma2_to64();
                    assert(pow2(32) == 0x1_0000_0000);
                }
            }
            assert(acc * base <= 0xffff_ffffu64 * 256) by (nonlinear_arith)
                requires
                    acc <= 0xffff_ffffu64,
                    base <= 256,
                    acc >= 0,
            ;
        }
        acc = acc * base as u64;
        n = n + 1;
    }
    n
}

/// The short instantiation: 16-byte (128-bit) messages, 4-bit digits.
///
/// 32 message digits; the checksum ranges over `[0, 480]`, so 3 checksum
/// digits; 35 digits in total.
pub fn wots_hash_params() -> (r: Parameters)
    ensures
        r.wf(),
        r.digit_bit_width == 4,
        r.message_byte_length == 16,
        r.message_digit_count == 32,
        r.checksum_digit_count == 3,
        r.total_digit_count == 35,
{
    let r = Parameters::new_by_bit_length(128, 4);
    proof {
        lemma2_to64();
        lemma_pow2(4);
        assert(r.digit_max() == 15);
        lemma_checksum_digits_for_width_4(r);
    }
    r
}

/// The long instantiation: 32-byte (256-bit) messages, 4-bit digits.
///
/// 64 message digits; the checksum ranges over `[0, 960]`, so 3 checksum
/// digits; 67 digits in total.
pub fn wots256_params() -> (r: Parameters)
    ensures
        r.wf(),
        r.digit_bit_width == 4,
        r.message_byte_length == 32,
        r.message_digit_count == 64,
        r.checksum_digit_count == 3,
        r.total_digit_count == 67,
{
    let r = Parameters::new_by_bit_length(256, 4);
    proof {
        lemma2_to64();
        lemma_pow2(4);
        assert(r.digit_max() == 15);
        lemma_checksum_digits_for_width_4(r);
    }
    r
}

/// For 4-bit digits and a largest checksum between 256 and 4095, exactly
/// three checksum digits are needed.
proof fn lemma_checksum_digits_for_width_4(p: Parameters)
    requires
        p.wf(),
        p.digit_bit_width == 4,
        256 <= p.max_checksum() < 4096,
    ensures
        p.checksum_digit_count == 3,
{
    lemma2_to64();
    lemma_pow2(4);
    assert(p.base() == 16);
    lemma_pow0(16);
    lemma_pow1(16);
    lemma_pow_adds(16, 1, 1);
    lemma_pow_adds(16, 2, 1);
    assert(pow(16, 2) == 256);
    assert(pow(16, 3) == 4096);
    if p.checksum_digit_count <= 2 {
        lemma_pow_increases(16, p.checksum_digit_count as nat, 2);
    }
    if p.checksum_digit_count >= 4 {
        lemma_pow_increases(16, 3, (p.checksum_digit_count - 1) as nat);
    }
}

} // verus!
