//! Wire codec: between structured signatures and the flat witness deposited
//! in the ledger witness area.
//!
//! Decoding is strict on the group count and on group sizes, and lenient on
//! empty groups: an empty chain-value group decodes to the all-zero value,
//! an empty digit group to digit zero.

use vstd::prelude::*;
use crate::WotsError;
use crate::params::{Parameters, lemma_params_bounds};
use crate::chain::copy_bytes;
use crate::sign::{Signature, sig_view};

verus! {

#[verifier::external_type_specification]
#[verifier::external_body]
pub struct ExWitness(bitcoin::Witness);

/// The ordered byte groups a witness holds.
pub uninterp spec fn witness_groups(w: bitcoin::Witness) -> Seq<Seq<u8>>;

/// The serialized size of a witness's element area: every group's bytes
/// together with its length prefix.
pub uninterp spec fn witness_wire_size(w: bitcoin::Witness) -> nat;

/// Relies on `bitcoin::Witness::new`: a fresh witness holds no element and
/// no element bytes.
#[verifier::external_body]
pub(crate) fn witness_new() -> (w: bitcoin::Witness)
    ensures
        witness_groups(w) == Seq::<Seq<u8>>::empty(),
        witness_wire_size(w) == 0,
{
    bitcoin::Witness::new()
}

/// Relies on `bitcoin::Witness::push`: appends one byte group at the end,
/// after the groups already present.  The push stores the new group's byte
/// offset as a 32-bit value and panics when the element area has outgrown
/// that range, so the area serialized so far must still fit it; the new
/// group then costs its own bytes plus a length prefix of at most nine
/// bytes.
#[verifier::external_body]
pub(crate) fn witness_push(w: &mut bitcoin::Witness, bytes: &Vec<u8>)
    requires
        witness_wire_size(*old(w)) <= 0xffff_ffff,
    ensures
        witness_groups(*final(w)) == witness_groups(*old(w)).push(bytes@),
        witness_wire_size(*final(w)) <= witness_wire_size(*old(w)) + bytes@.len() + 9,
{
    w.push(bytes.as_slice())
}

/// Relies on `bitcoin::Witness::len`: the number of byte groups held.
#[verifier::external_body]
pub(crate) fn witness_len(w: &bitcoin::Witness) -> (n: usize)
    ensures
        n == witness_groups(*w).len(),
{
    w.len()
}

/// Relies on `bitcoin::Witness::nth`: the byte group at `index`, present
/// exactly when `index` is below the group count.
#[verifier::external_body]
pub(crate) fn witness_nth(w: &bitcoin::Witness, index: usize) -> (r: Vec<u8>)
    requires
        index < witness_groups(*w).len(),
    ensures
        r@ == witness_groups(*w)[index as int],
{
    w.nth(index).unwrap().to_vec()
}

/// The minimal little-endian byte rendering of `v`: low byte first, no
/// trailing zero byte, empty for zero.
pub open spec fn le_bytes_minimal(v: int) -> Seq<u8>
    decreases v,
{
    if v <= 0 {
        Seq::<u8>::empty()
    } else {
        seq![(v % 256) as u8] + le_bytes_minimal(v / 256)
    }
}

/// Renders `v` in its minimal little-endian byte form.
pub fn u32_to_le_bytes_minimal(v: u32) -> (r: Vec<u8>)
    ensures
        r@ == le_bytes_minimal(v as int),
{
    let mut r: Vec<u8> = Vec::new();
    let mut cur: u32 = v;
    while cur > 0
        invariant
            le_bytes_minimal(v as int) =~= r@ + le_bytes_minimal(cur as int),
        decreases cur,
    {
        let b: u8 = (cur % 256) as u8;
        proof {
            assert(le_bytes_minimal(cur as int)
                =~= seq![(cur as int % 256) as u8] + le_bytes_minimal(cur as int / 256));
            assert(r@ + le_bytes_minimal(cur as int)
                =~= r@.push(b) + le_bytes_minimal(cur as int / 256));
        }
        r.push(b);
        cur = cur / 256;
    }
    proof {
        assert(le_bytes_minimal(v as int) =~= r@);
    }
    r
}

/// The byte group a digit value occupies on the wire: empty for zero, one
/// byte otherwise.
pub open spec fn digit_group(d: u8) -> Seq<u8> {
    if d == 0 {
        Seq::<u8>::empty()
    } else {
        seq![d]
    }
}

/// The all-zero 20-byte chain value that an empty chain group decodes to.
pub open spec fn zero_chain() -> Seq<u8> {
    Seq::new(20, |i: int| 0u8)
}

/// The wire groups of a full signature: chain value then digit group,
/// alternating, for each position.
pub open spec fn full_witness_of(sig: Seq<(Seq<u8>, u8)>) -> Seq<Seq<u8>> {
    Seq::new(
        (2 * sig.len()) as nat,
        |i: int| if i % 2 == 0 { sig[i / 2].0 } else { digit_group(sig[i / 2].1) },
    )
}

/// Whether a group sequence has the shape of a full-signature witness under
/// `p`: the right count, every chain group empty or 20 bytes, every digit
/// group empty or one byte.
pub open spec fn full_witness_shape_ok(groups: Seq<Seq<u8>>, p: Parameters) -> bool {
    &&& groups.len() == 2 * p.total_digit_count
    &&& forall|i: int| 0 <= i < p.total_digit_count
        ==> ((#[trigger] groups[2 * i]).len() == 0 || groups[2 * i].len() == 20)
    &&& forall|i: int| 0 <= i < p.total_digit_count
        ==> (#[trigger] groups[2 * i + 1]).len() <= 1
}

/// What a well-shaped full-signature witness decodes to.
pub open spec fn full_witness_decoded(groups: Seq<Seq<u8>>, p: Parameters) -> Seq<(Seq<u8>, u8)> {
    Seq::new(
        p.total_digit_count as nat,
        |i: int| (
            if groups[2 * i].len() == 0 { zero_chain() } else { groups[2 * i] },
            if groups[2 * i + 1].len() == 0 { 0u8 } else { groups[2 * i + 1][0] },
        ),
    )
}

/// The all-zero 20-byte chain value.
pub(crate) fn zero_chain_vec() -> (r: Vec<u8>)
    ensures
        r@ == zero_chain(),
{
    let mut r: Vec<u8> = Vec::new();
    let mut i: usize = 0;
    while i < 20
        invariant
            i <= 20,
            r@.len() == i,
            forall|k: int| 0 <= k < i ==> r@[k] == 0u8,
        decreases 20 - i,
    {
        r.push(0u8);
        i = i + 1;
    }
    proof {
        assert(r@ =~= zero_chain());
    }
    r
}

/// Changes the format of the `signature`, from array to ledger witness:
/// for each position, the 20-byte chain value, then the digit in its
/// minimal-length encoding.
///
/// The signature must be well-formed (20-byte chain values) and of a digit
/// count the wire's 32-bit offsets can carry; every instantiation the
/// derivation rules admit stays far below that bound.
pub fn signature_to_raw_witness(signature: &Signature) -> (w: bitcoin::Witness)
    requires
        signature@.len() <= 0x00ff_ffff,
        forall|i: int| 0 <= i < signature@.len()
            ==> (#[trigger] signature@[i]).0@.len() == 20,
    ensures
        witness_groups(w) == full_witness_of(sig_view(signature@)),
{
    let mut w = witness_new();
    let mut i: usize = 0;
    while i < signature.len()
        invariant
            i <= signature@.len(),
            signature@.len() <= 0x00ff_ffff,
            forall|k: int| 0 <= k < signature@.len()
                ==> (#[trigger] signature@[k]).0@.len() == 20,
            witness_groups(w) =~= full_witness_of(sig_view(signature@)).take(2 * i as int),
            witness_wire_size(w) <= 39 * i,
        decreases signature@.len() - i,
    {
        proof {
            assert(39 * i as int <= 39 * 0x00ff_ffff) by (nonlinear_arith)
                requires
                    0 <= i as int <= 0x00ff_ffff,
            ;
            assert(39 * (i + 1) == 39 * i as int + 39) by (nonlinear_arith);
        }
        let h = copy_bytes(&signature[i].0);
        witness_push(&mut w, &h);
        let d: u8 = signature[i].1;
        let dg = u32_to_le_bytes_minimal(d as u32);
        proof {
            assert(le_bytes_minimal(d as int) =~= digit_group(d)) by {
                if d > 0 {
                    assert(le_bytes_minimal(d as int)
                        =~= seq![(d as int % 256) as u8] + le_bytes_minimal(d as int / 256));
                }
            }
        }
        witness_push(&mut w, &dg);
        proof {
            assert(witness_groups(w)
                =~= full_witness_of(sig_view(signature@)).take(2 * (i + 1) as int));
        }
        i = i + 1;
    }
    proof {
        assert(witness_groups(w) =~= full_witness_of(sig_view(signature@)));
    }
    w
}

/// Changes the format of the `signature`, from ledger witness to array.
///
/// Returns `MalformedWitness` exactly when the witness does not have the
/// full-signature shape for `p`; an empty chain group decodes to the
/// all-zero value, an empty digit group to digit zero.
pub fn raw_witness_to_signature(p: &Parameters, signature: &bitcoin::Witness) -> (r: Result<
    Signature,
    WotsError,
>)
    requires
        p.wf(),
    ensures
        r is Ok <==> full_witness_shape_ok(witness_groups(*signature), *p),
        r matches Ok(sig) ==> sig_view(sig@)
            == full_witness_decoded(witness_groups(*signature), *p)
            && sig@.len() == p.total_digit_count,
        r matches Err(e) ==> e == WotsError::MalformedWitness,
{
    proof {
        lemma_params_bounds(*p);
    }
    let n = witness_len(signature);
    if n != 2 * (p.total_digit_count as usize) {
        return Err(WotsError::MalformedWitness);
    }
    let mut out: Signature = Vec::new();
    let mut i: usize = 0;
    while i < p.total_digit_count as usize
        invariant
            p.wf(),
            witness_groups(*signature).len() == 2 * p.total_digit_count,
            i <= p.total_digit_count,
            out@.len() == i,
            forall|k: int| 0 <= k < i
                ==> ((#[trigger] witness_groups(*signature)[2 * k]).len() == 0
                    || witness_groups(*signature)[2 * k].len() == 20),
            forall|k: int| 0 <= k < i
                ==> (#[trigger] witness_groups(*signature)[2 * k + 1]).len() <= 1,
            forall|k: int| 0 <= k < i
                ==> (((#[trigger] out@[k]).0@, out@[k].1)
                    == full_witness_decoded(witness_groups(*signature), *p)[k]),
        decreases p.total_digit_count - i,
    {
        let g0 = witness_nth(signature, 2 * i);
        let chain_value: Vec<u8> = if g0.len() == 0 {
            zero_chain_vec()
        } else if g0.len() == 20 {
            g0
        } else {
            return Err(WotsError::MalformedWitness);
        };
        let g1 = witness_nth(signature, 2 * i + 1);
        let digit: u8 = if g1.len() == 0 {
            0u8
        } else if g1.len() == 1 {
            g1[0]
        } else {
            return Err(WotsError::MalformedWitness);
        };
        out.push((chain_value, digit));
        proof {
            assert(((out@[i as int]).0@, out@[i as int].1)
                == full_witness_decoded(witness_groups(*signature), *p)[i as int]);
        }
        i = i + 1;
    }
    proof {
        assert(sig_view(out@) =~= full_witness_decoded(witness_groups(*signature), *p));
    }
    Ok(out)
}

/// Encoding then decoding a well-formed full signature under its own
/// parameters gives the signature back.
pub proof fn lemma_full_round_trip(sig: Seq<(Seq<u8>, u8)>, p: Parameters)
    requires
        p.wf(),
        sig.len() == p.total_digit_count,
        forall|i: int| 0 <= i < sig.len() ==> (#[trigger] sig[i]).0.len() == 20,
    ensures
        full_witness_shape_ok(full_witness_of(sig), p),
        full_witness_decoded(full_witness_of(sig), p) == sig,
{
    let groups = full_witness_of(sig);
    assert forall|i: int| 0 <= i < p.total_digit_count implies
        ((#[trigger] groups[2 * i]).len() == 0 || groups[2 * i].len() == 20)
        && groups[2 * i + 1].len() <= 1 by {
        assert(groups[2 * i] == sig[i].0);
        assert(groups[2 * i + 1] == digit_group(sig[i].1));
    }
    assert forall|i: int| 0 <= i < p.total_digit_count implies
        #[trigger] full_witness_decoded(groups, p)[i] == sig[i] by {
        assert(groups[2 * i] == sig[i].0);
        assert(groups[2 * i + 1] == digit_group(sig[i].1));
        if sig[i].1 == 0 {
            assert(groups[2 * i + 1].len() == 0);
        } else {
            assert(groups[2 * i + 1][0] == sig[i].1);
        }
    }
    assert(full_witness_decoded(groups, p) =~= sig);
}

/// A witness encoded under one instantiation is refused by the decoder of
/// another whose digit count differs: the group counts cannot match.
pub proof fn lemma_instantiation_isolation(sig: Seq<(Seq<u8>, u8)>, p1: Parameters, p2: Parameters)
    requires
        p1.wf(),
        p2.wf(),
        p1.total_digit_count != p2.total_digit_count,
        sig.len() == p1.total_digit_count,
    ensures
        !full_witness_shape_ok(full_witness_of(sig), p2),
{
}

} // verus!
