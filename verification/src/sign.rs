//! Key generation and signing.
//!
//! One secret must sign at most one message: reusing a secret across two
//! different messages breaks the scheme's security.  That obligation rests on
//! the caller; nothing here can see secret reuse across calls.

use vstd::prelude::*;
use vstd::string::StringSliceAdditionalSpecFns;
use crate::WotsError;
use crate::params::{Parameters, pow2_u32, lemma_params_bounds};
use crate::chain::{chain_of, seed_of, derive_seed, chain_extend};
use crate::digits::{all_digits, compute_all_digits};
use crate::hexs::{hex_ok, hex_bytes, decode_hex_secret};

verus! {

/// A public key: one 20-byte commitment per digit position.
pub type PublicKey = Vec<Vec<u8>>;

/// A full signature: one (20-byte chain value, digit value) pair per digit
/// position.
pub type Signature = Vec<(Vec<u8>, u8)>;

/// The byte-sequence views of an ordered list of 20-byte values, as a
/// public key or a compact signature holds them.
pub open spec fn key_view(pk: Seq<Vec<u8>>) -> Seq<Seq<u8>> {
    Seq::new(pk.len(), |i: int| pk[i]@)
}

/// The (chain value, digit) pairs of a full signature, as sequences.
pub open spec fn sig_view(sig: Seq<(Vec<u8>, u8)>) -> Seq<(Seq<u8>, u8)> {
    Seq::new(sig.len(), |i: int| (sig[i].0@, sig[i].1))
}

/// The public key derived from `secret`: every position's seed walked to the
/// top of its chain.
pub open spec fn public_key_of(secret: Seq<u8>, p: Parameters) -> Seq<Seq<u8>> {
    Seq::new(
        p.total_digit_count as nat,
        |i: int| chain_of(seed_of(secret, i), p.digit_max() as nat),
    )
}

/// The full signature of `msg` under `secret`: every position's seed walked
/// as many steps as that position's digit value, paired with the digit.
pub open spec fn signature_of(secret: Seq<u8>, p: Parameters, msg: Seq<u8>) -> Seq<(Seq<u8>, u8)> {
    Seq::new(
        p.total_digit_count as nat,
        |i: int| (
            chain_of(seed_of(secret, i), all_digits(p, msg)[i] as nat),
            all_digits(p, msg)[i],
        ),
    )
}

/// Generates the public key for `secret` under `p`.
///
/// Returns `InvalidSecretEncoding` exactly when the secret is no well-formed
/// hex string; otherwise the key holds `total_digit_count` commitments of 20
/// bytes each, position `i` being the hash chain of position `i`'s seed
/// walked `digit_max` steps.
pub fn generate_public_key(p: &Parameters, secret: &str) -> (r: Result<PublicKey, WotsError>)
    requires
        p.wf(),
    ensures
        r is Ok <==> hex_ok(secret.spec_bytes()),
        r matches Ok(pk) ==> {
            &&& key_view(pk@) == public_key_of(hex_bytes(secret.spec_bytes()), *p)
            &&& pk@.len() == p.total_digit_count
            &&& forall|i: int| 0 <= i < pk@.len() ==> (#[trigger] pk@[i])@.len() == 20
        },
        r matches Err(e) ==> e == WotsError::InvalidSecretEncoding,
{
    let sk = match decode_hex_secret(secret) {
        Ok(sk) => sk,
        Err(e) => {
            return Err(e);
        },
    };
    proof {
        lemma_params_bounds(*p);
    }
    let digit_max: u32 = pow2_u32(p.digit_bit_width) - 1;
    let mut pk: PublicKey = Vec::new();
    let mut i: u32 = 0;
    while i < p.total_digit_count
        invariant
            p.wf(),
            sk@ == hex_bytes(secret.spec_bytes()),
            digit_max == p.digit_max(),
            i <= p.total_digit_count,
            pk@.len() == i,
            forall|k: int| 0 <= k < i
                ==> (#[trigger] pk@[k])@ == chain_of(seed_of(sk@, k), p.digit_max() as nat),
            forall|k: int| 0 <= k < i ==> (#[trigger] pk@[k])@.len() == 20,
        decreases p.total_digit_count - i,
    {
        let seed = derive_seed(&sk, i);
        let top = chain_extend(&seed, digit_max);
        pk.push(top);
        i = i + 1;
    }
    proof {
        assert(key_view(pk@) =~= public_key_of(hex_bytes(secret.spec_bytes()), *p));
    }
    Ok(pk)
}

/// Signs `message` with `secret` under `p`, producing the full signature.
///
/// Returns `MessageLengthMismatch` exactly when the message has the wrong
/// length, and `InvalidSecretEncoding` exactly when the length is right but
/// the secret is no well-formed hex string; a well-formed call returns the
/// signature, whose position `i` holds the chain of position `i`'s seed
/// walked `digit(i)` steps together with `digit(i)` itself.
pub fn get_signature(p: &Parameters, secret: &str, message: &Vec<u8>) -> (r: Result<
    Signature,
    WotsError,
>)
    requires
        p.wf(),
    ensures
        r is Ok <==> message@.len() == p.message_byte_length
            && hex_ok(secret.spec_bytes()),
        r == Err::<Signature, WotsError>(WotsError::MessageLengthMismatch)
            <==> message@.len() != p.message_byte_length,
        r == Err::<Signature, WotsError>(WotsError::InvalidSecretEncoding)
            <==> message@.len() == p.message_byte_length
            && !hex_ok(secret.spec_bytes()),
        r matches Ok(sig) ==> {
            &&& sig_view(sig@) == signature_of(hex_bytes(secret.spec_bytes()), *p, message@)
            &&& sig@.len() == p.total_digit_count
            &&& forall|i: int| 0 <= i < sig@.len()
                ==> (#[trigger] sig@[i]).0@.len() == 20 && sig@[i].1 <= p.digit_max()
        },
{
    if message.len() != p.message_byte_length as usize {
        return Err(WotsError::MessageLengthMismatch);
    }
    let sk = match decode_hex_secret(secret) {
        Ok(sk) => sk,
        Err(_) => {
            return Err(WotsError::InvalidSecretEncoding);
        },
    };
    proof {
        lemma_params_bounds(*p);
    }
    let digits = compute_all_digits(p, message);
    let mut sig: Signature = Vec::new();
    let mut i: u32 = 0;
    while i < p.total_digit_count
        invariant
            p.wf(),
            sk@ == hex_bytes(secret.spec_bytes()),
            message@.len() == p.message_byte_length,
            digits@ == all_digits(*p, message@),
            digits@.len() == p.total_digit_count,
            forall|k: int| 0 <= k < digits@.len() ==> digits@[k] <= p.digit_max(),
            i <= p.total_digit_count,
            sig@.len() == i,
            forall|k: int| 0 <= k < i
                ==> (#[trigger] sig@[k]).0@ == chain_of(seed_of(sk@, k), digits@[k] as nat)
                    && sig@[k].1 == digits@[k],
            forall|k: int| 0 <= k < i
                ==> (#[trigger] sig@[k]).0@.len() == 20 && sig@[k].1 <= p.digit_max(),
        decreases p.total_digit_count - i,
    {
        let seed = derive_seed(&sk, i);
        let d: u8 = digits[i as usize];
        let cv = chain_extend(&seed, d as u32);
        sig.push((cv, d));
        i = i + 1;
    }
    proof {
        assert(sig_view(sig@) =~= signature_of(hex_bytes(secret.spec_bytes()), *p, message@));
    }
    Ok(sig)
}

} // verus!
