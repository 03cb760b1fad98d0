//! Decoding of the caller-supplied secret from its hex representation.
//!
//! A failure to decode is reported, never silently substituted.

use vstd::prelude::*;
use vstd::string::StringSliceAdditionalSpecFns;
use crate::WotsError;

verus! {

/// Whether the byte is the ASCII code of a hex digit.
pub open spec fn is_hex_digit(c: u8) -> bool {
    (48 <= c <= 57) || (65 <= c <= 70) || (97 <= c <= 102)
}

/// The value of the hex digit with ASCII code `c`.
pub open spec fn hex_digit_value(c: u8) -> int {
    if 48 <= c <= 57 {
        c - 48
    } else if 65 <= c <= 70 {
        c - 55
    } else {
        c - 87
    }
}

/// Whether the byte sequence is a well-formed hex string: even length, hex
/// digits throughout.
pub open spec fn hex_ok(s: Seq<u8>) -> bool {
    s.len() % 2 == 0 && (forall|i: int| 0 <= i < s.len() ==> is_hex_digit(#[trigger] s[i]))
}

/// The bytes a well-formed hex string denotes, two digits per byte, high
/// digit first.
pub open spec fn hex_bytes(s: Seq<u8>) -> Seq<u8> {
    Seq::new(
        (s.len() / 2) as nat,
        |i: int| (hex_digit_value(s[2 * i]) * 16 + hex_digit_value(s[2 * i + 1])) as u8,
    )
}

/// Whether the byte is the ASCII code of a hex digit.
fn is_hex_digit_exec(c: u8) -> (r: bool)
    ensures
        r == is_hex_digit(c),
{
    (48 <= c && c <= 57) || (65 <= c && c <= 70) || (97 <= c && c <= 102)
}

/// The value of the hex digit with ASCII code `c`.
fn hex_digit_value_exec(c: u8) -> (r: u8)
    requires
        is_hex_digit(c),
    ensures
        r == hex_digit_value(c),
        r <= 15,
{
    if 48 <= c && c <= 57 {
        c - 48
    } else if 65 <= c && c <= 70 {
        c - 55
    } else {
        c - 87
    }
}

/// Decodes the secret from its hex representation.  Returns
/// `InvalidSecretEncoding` exactly when the string has odd length or holds a
/// character that is no hex digit.
pub fn decode_hex_secret(secret: &str) -> (r: Result<Vec<u8>, WotsError>)
    ensures
        r is Ok <==> hex_ok(secret.spec_bytes()),
        r matches Ok(v) ==> v@ == hex_bytes(secret.spec_bytes()),
        r matches Err(e) ==> e == WotsError::InvalidSecretEncoding,
{
    let bytes: &[u8] = secret.as_bytes();
    let n: usize = bytes.len();
    if n % 2 != 0 {
        return Err(WotsError::InvalidSecretEncoding);
    }
    let ghost s = secret.spec_bytes();
    let mut out: Vec<u8> = Vec::new();
    let mut i: usize = 0;
    while i < n
        invariant
            s == secret.spec_bytes(),
            bytes@ == s,
            n == s.len(),
            n % 2 == 0,
            i % 2 == 0,
            i <= n,
            out@.len() == i as int / 2,
            forall|j: int| 0 <= j < i ==> is_hex_digit(#[trigger] s[j]),
            forall|k: int| 0 <= k < out@.len()
                ==> out@[k] == (hex_digit_value(s[2 * k]) * 16
                    + hex_digit_value(s[2 * k + 1])) as u8,
        decreases n - i,
    {
        let hi: u8 = bytes[i];
        let lo: u8 = bytes[i + 1];
        if !is_hex_digit_exec(hi) || !is_hex_digit_exec(lo) {
            return Err(WotsError::InvalidSecretEncoding);
        }
        let v: u8 = hex_digit_value_exec(hi) * 16 + hex_digit_value_exec(lo);
        out.push(v);
        proof {
            assert(2 * (i as int / 2) == i);
        }
        i = i + 2;
    }
    proof {
        assert(out@ =~= hex_bytes(s));
    }
    Ok(out)
}

} // verus!
