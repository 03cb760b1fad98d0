//! The hash-chain primitive and the per-position seed derivation.
//!
//! The one-way function is HASH160 (SHA256 followed by RIPEMD160), supplied
//! by an outside library and treated as a black box: deterministic, with a
//! fixed 20-byte output.

use vstd::prelude::*;

verus! {

/// The 20-byte HASH160 digest of `input`.  The digest is a function of the
/// input alone; nothing further is assumed of its value.
pub uninterp spec fn hash160_of(input: Seq<u8>) -> Seq<u8>;

/// Relies on `bitcoin::hashes::hash160::Hash::hash`: SHA256 followed by
/// RIPEMD160, deterministic in its input, with a 20-byte digest.
#[verifier::external_body]
pub(crate) fn hash160(input: &Vec<u8>) -> (r: Vec<u8>)
    ensures
        r@ == hash160_of(input@),
        r@.len() == 20,
{
    let digest = <bitcoin::hashes::hash160::Hash as bitcoin::hashes::Hash>::hash(
        input.as_slice(),
    );
    bitcoin::hashes::Hash::to_byte_array(digest).to_vec()
}

/// Position `steps` of the hash chain that starts at `start`: the value
/// obtained by applying the one-way function `steps` times.
pub open spec fn chain_of(start: Seq<u8>, steps: nat) -> Seq<u8>
    decreases steps,
{
    if steps == 0 {
        start
    } else {
        hash160_of(chain_of(start, (steps - 1) as nat))
    }
}

/// Walking `a` steps and then `b` more lands on position `a + b`.
pub proof fn lemma_chain_add(start: Seq<u8>, a: nat, b: nat)
    ensures
        chain_of(chain_of(start, a), b) == chain_of(start, a + b),
    decreases b,
{
    if b > 0 {
        lemma_chain_add(start, a, (b - 1) as nat);
    }
}

/// Copies a byte vector.
pub(crate) fn copy_bytes(v: &Vec<u8>) -> (r: Vec<u8>)
    ensures
        r@ == v@,
{
    let mut r: Vec<u8> = Vec::new();
    let mut i: usize = 0;
    while i < v.len()
        invariant
            i <= v@.len(),
            r@ == v@.subrange(0, i as int),
        decreases v@.len() - i,
    {
        r.push(v[i]);
        proof {
            assert(r@ =~= v@.subrange(0, i + 1));
        }
        i = i + 1;
    }
    proof {
        assert(r@ =~= v@);
    }
    r
}

/// Continues the hash chain from `start` by `steps` applications of the
/// one-way function.
pub fn chain_extend(start: &Vec<u8>, steps: u32) -> (r: Vec<u8>)
    ensures
        r@ == chain_of(start@, steps as nat),
        r@.len() == if steps == 0 { start@.len() as int } else { 20 },
{
    let mut cur = copy_bytes(start);
    let mut k: u32 = 0;
    while k < steps
        invariant
            k <= steps,
            cur@ == chain_of(start@, k as nat),
            cur@.len() == if k == 0 { start@.len() as int } else { 20 },
        decreases steps - k,
    {
        cur = hash160(&cur);
        proof {
            assert(chain_of(start@, (k + 1) as nat)
                == hash160_of(chain_of(start@, k as nat)));
        }
        k = k + 1;
    }
    cur
}

/// The little-endian four-byte rendering of a digit position, appended to the
/// secret to separate positions injectively.
pub open spec fn position_tag(position: int) -> Seq<u8> {
    seq![
        (position % 256) as u8,
        ((position / 256) % 256) as u8,
        ((position / 65536) % 256) as u8,
        ((position / 16777216) % 256) as u8,
    ]
}

/// The hash-chain seed of digit position `position` under `secret`: the
/// digest of the secret followed by the position tag.  Hashing first keeps
/// the secret out of every published chain value, including the ones for
/// digit value zero.
pub open spec fn seed_of(secret: Seq<u8>, position: int) -> Seq<u8> {
    hash160_of(secret + position_tag(position))
}

/// Derives the seed of one digit position from the secret.
pub fn derive_seed(secret: &Vec<u8>, position: u32) -> (r: Vec<u8>)
    ensures
        r@ == seed_of(secret@, position as int),
        r@.len() == 20,
{
    let mut buf = copy_bytes(secret);
    buf.push((position % 256) as u8);
    buf.push(((position / 256) % 256) as u8);
    buf.push(((position / 65536) % 256) as u8);
    buf.push(((position / 16777216) % 256) as u8);
    proof {
        assert(buf@ =~= secret@ + position_tag(position as int));
    }
    hash160(&buf)
}

} // verus!
