//! The compact signature variant: chain values only.  Digit values are not
//! transmitted; the verifier recovers each digit by searching the digit
//! alphabet upward until continuing the chain meets the stored commitment.
//! Strictly smaller wire size, strictly more verification work.

use vstd::prelude::*;
use vstd::string::StringSliceAdditionalSpecFns;
use crate::WotsError;
use crate::params::{Parameters, pow2_u32, lemma_params_bounds};
use crate::chain::{chain_of, seed_of, derive_seed, chain_extend, copy_bytes, lemma_chain_add};
use crate::digits::{all_digits, compute_all_digits};
use crate::hexs::{hex_ok, hex_bytes, decode_hex_secret};
use crate::sign::{PublicKey, key_view, public_key_of};
use crate::codec::{witness_groups, witness_wire_size, witness_new, witness_push, witness_len,
    witness_nth, zero_chain, zero_chain_vec};
use crate::script::{Script, ScriptOp, checksum_digits_ok, check_checksum_digits, bytes_eq};

verus! {

/// A compact signature: the 20-byte chain value of each digit position,
/// nothing else.
pub type Signature = Vec<Vec<u8>>;

/// The compact signature of `msg` under `secret`: every position's seed
/// walked as many steps as that position's digit value.
pub open spec fn compact_signature_of(secret: Seq<u8>, p: Parameters, msg: Seq<u8>) -> Seq<Seq<u8>> {
    Seq::new(
        p.total_digit_count as nat,
        |i: int| chain_of(seed_of(secret, i), all_digits(p, msg)[i] as nat),
    )
}

/// Generates a compact signature for a `message`; the same rules as the
/// full variant, with the digit values left out of the result.
pub fn get_signature(p: &Parameters, secret: &str, message: &Vec<u8>) -> (r: Result<
    Signature,
    WotsError,
>)
    requires
        p.wf(),
    ensures
        r is Ok <==> message@.len() == p.message_byte_length
            && hex_ok(secret.spec_bytes()),
        r == Err::<Signature, WotsError>(WotsError::MessageLengthMismatch)
            <==> message@.len() != p.message_byte_length,
        r == Err::<Signature, WotsError>(WotsError::InvalidSecretEncoding)
            <==> message@.len() == p.message_byte_length
            && !hex_ok(secret.spec_bytes()),
        r matches Ok(sig) ==> {
            &&& key_view(sig@) == compact_signature_of(hex_bytes(secret.spec_bytes()), *p, message@)
            &&& sig@.len() == p.total_digit_count
            &&& forall|i: int| 0 <= i < sig@.len() ==> (#[trigger] sig@[i])@.len() == 20
        },
{
    if message.len() != p.message_byte_length as usize {
        return Err(WotsError::MessageLengthMismatch);
    }
    let sk = match decode_hex_secret(secret) {
        Ok(sk) => sk,
        Err(_) => {
            return Err(WotsError::InvalidSecretEncoding);
        },
    };
    proof {
        lemma_params_bounds(*p);
    }
    let digits = compute_all_digits(p, message);
    let mut sig: Signature = Vec::new();
    let mut i: u32 = 0;
    while i < p.total_digit_count
        invariant
            p.wf(),
            sk@ == hex_bytes(secret.spec_bytes()),
            message@.len() == p.message_byte_length,
            digits@ == all_digits(*p, message@),
            digits@.len() == p.total_digit_count,
            i <= p.total_digit_count,
            sig@.len() == i,
            forall|k: int| 0 <= k < i
                ==> (#[trigger] sig@[k])@ == chain_of(seed_of(sk@, k), digits@[k] as nat),
            forall|k: int| 0 <= k < i ==> (#[trigger] sig@[k])@.len() == 20,
        decreases p.total_digit_count - i,
    {
        let seed = derive_seed(&sk, i);
        let d: u8 = digits[i as usize];
        let cv = chain_extend(&seed, d as u32);
        sig.push(cv);
        i = i + 1;
    }
    proof {
        assert(key_view(sig@) =~= compact_signature_of(hex_bytes(secret.spec_bytes()), *p,
            message@));
    }
    Ok(sig)
}

/// Whether a group sequence has the shape of a compact witness under `p`:
/// exactly one group per digit position, each empty or 20 bytes.
pub open spec fn compact_witness_shape_ok(groups: Seq<Seq<u8>>, p: Parameters) -> bool {
    &&& groups.len() == p.total_digit_count
    &&& forall|i: int| 0 <= i < groups.len()
        ==> ((#[trigger] groups[i]).len() == 0 || groups[i].len() == 20)
}

/// What a well-shaped compact witness decodes to: each group itself, an
/// empty group standing for the all-zero value.
pub open spec fn compact_witness_decoded(groups: Seq<Seq<u8>>, p: Parameters) -> Seq<Seq<u8>> {
    Seq::new(
        p.total_digit_count as nat,
        |i: int| if groups[i].len() == 0 { zero_chain() } else { groups[i] },
    )
}

/// Changes the format of the `signature`, from array to ledger witness: one
/// 20-byte group per position.
///
/// The signature must be well-formed (20-byte chain values) and of a digit
/// count the wire's 32-bit offsets can carry; every instantiation the
/// derivation rules admit stays far below that bound.
pub fn signature_to_raw_witness(signature: &Signature) -> (w: bitcoin::Witness)
    requires
        signature@.len() <= 0x00ff_ffff,
        forall|i: int| 0 <= i < signature@.len()
            ==> (#[trigger] signature@[i])@.len() == 20,
    ensures
        witness_groups(w) == key_view(signature@),
{
    let mut w = witness_new();
    let mut i: usize = 0;
    while i < signature.len()
        invariant
            i <= signature@.len(),
            signature@.len() <= 0x00ff_ffff,
            forall|k: int| 0 <= k < signature@.len()
                ==> (#[trigger] signature@[k])@.len() == 20,
            witness_groups(w) =~= key_view(signature@).take(i as int),
            witness_wire_size(w) <= 29 * i,
        decreases signature@.len() - i,
    {
        proof {
            assert(29 * i as int <= 29 * 0x00ff_ffff) by (nonlinear_arith)
                requires
                    0 <= i as int <= 0x00ff_ffff,
            ;
            assert(29 * (i + 1) == 29 * i as int + 29) by (nonlinear_arith);
        }
        let h = copy_bytes(&signature[i]);
        witness_push(&mut w, &h);
        proof {
            assert(witness_groups(w) =~= key_view(signature@).take(i + 1));
        }
        i = i + 1;
    }
    proof {
        assert(witness_groups(w) =~= key_view(signature@));
    }
    w
}

/// Changes the format of the `signature`, from ledger witness to array.
///
/// Returns `MalformedWitness` exactly when the witness does not have the
/// compact shape for `p`; an empty group decodes to the all-zero value.
pub fn raw_witness_to_signature(p: &Parameters, signature: &bitcoin::Witness) -> (r: Result<
    Signature,
    WotsError,
>)
    requires
        p.wf(),
    ensures
        r is Ok <==> compact_witness_shape_ok(witness_groups(*signature), *p),
        r matches Ok(sig) ==> key_view(sig@)
            == compact_witness_decoded(witness_groups(*signature), *p)
            && sig@.len() == p.total_digit_count,
        r matches Err(e) ==> e == WotsError::MalformedWitness,
{
    proof {
        lemma_params_bounds(*p);
    }
    let n = witness_len(signature);
    if n != p.total_digit_count as usize {
        return Err(WotsError::MalformedWitness);
    }
    let mut out: Signature = Vec::new();
    let mut i: usize = 0;
    while i < p.total_digit_count as usize
        invariant
            p.wf(),
            witness_groups(*signature).len() == p.total_digit_count,
            i <= p.total_digit_count,
            out@.len() == i,
            forall|k: int| 0 <= k < i
                ==> ((#[trigger] witness_groups(*signature)[k]).len() == 0
                    || witness_groups(*signature)[k].len() == 20),
            forall|k: int| 0 <= k < i
                ==> (#[trigger] out@[k])@
                    == compact_witness_decoded(witness_groups(*signature), *p)[k],
        decreases p.total_digit_count - i,
    {
        let g = witness_nth(signature, i);
        let chain_value: Vec<u8> = if g.len() == 0 {
            zero_chain_vec()
        } else if g.len() == 20 {
            g
        } else {
            return Err(WotsError::MalformedWitness);
        };
        out.push(chain_value);
        i = i + 1;
    }
    proof {
        assert(key_view(out@) =~= compact_witness_decoded(witness_groups(*signature), *p));
    }
    Ok(out)
}

/// Encoding then decoding a well-formed compact signature under its own
/// parameters gives the signature back.
pub proof fn lemma_compact_round_trip(sig: Seq<Seq<u8>>, p: Parameters)
    requires
        p.wf(),
        sig.len() == p.total_digit_count,
        forall|i: int| 0 <= i < sig.len() ==> (#[trigger] sig[i]).len() == 20,
    ensures
        compact_witness_shape_ok(sig, p),
        compact_witness_decoded(sig, p) == sig,
{
    assert(compact_witness_decoded(sig, p) =~= sig);
}

/// A compact witness encoded under one instantiation is refused by the
/// decoder of another whose digit count differs.
pub proof fn lemma_compact_instantiation_isolation(
    sig: Seq<Seq<u8>>, p1: Parameters, p2: Parameters,
)
    requires
        p1.wf(),
        p2.wf(),
        p1.total_digit_count != p2.total_digit_count,
        sig.len() == p1.total_digit_count,
    ensures
        !compact_witness_shape_ok(sig, p2),
{
}

/// The digit recovered for a chain value against a commitment: the smallest
/// `k` in the digit alphabet, counted from `start`, whose continuation of
/// the chain by `digit_max - k` steps meets the commitment.
pub open spec fn recover_digit_from(
    cv: Seq<u8>, commitment: Seq<u8>, digit_max: nat, k: nat,
) -> Option<u8>
    decreases digit_max + 1 - k,
{
    if k > digit_max {
        None
    } else if chain_of(cv, (digit_max - k) as nat) == commitment {
        Some(k as u8)
    } else {
        recover_digit_from(cv, commitment, digit_max, k + 1)
    }
}

/// The digit recovered for a chain value, searching the alphabet upward
/// from zero.
pub open spec fn recover_digit_spec(cv: Seq<u8>, commitment: Seq<u8>, digit_max: nat) -> Option<
    u8,
> {
    recover_digit_from(cv, commitment, digit_max, 0)
}

/// Recovers the digit for one chain value by exhaustive upward search.
pub fn recover_digit(cv: &Vec<u8>, commitment: &Vec<u8>, digit_max: u32) -> (r: Option<u8>)
    requires
        digit_max <= 255,
    ensures
        r == recover_digit_spec(cv@, commitment@, digit_max as nat),
{
    let mut k: u32 = 0;
    while k <= digit_max
        invariant
            digit_max <= 255,
            k <= digit_max + 1,
            recover_digit_spec(cv@, commitment@, digit_max as nat)
                == recover_digit_from(cv@, commitment@, digit_max as nat, k as nat),
        decreases digit_max + 1 - k,
    {
        let top = chain_extend(cv, digit_max - k);
        if bytes_eq(&top, commitment) {
            return Some(k as u8);
        }
        proof {
            assert(recover_digit_from(cv@, commitment@, digit_max as nat, k as nat)
                == recover_digit_from(cv@, commitment@, digit_max as nat, (k + 1) as nat));
        }
        k = k + 1;
    }
    None
}

/// The digits the compact verifier recovers, in position order.
pub open spec fn recovered_digits(
    p: Parameters, pk: Seq<Seq<u8>>, csig: Seq<Seq<u8>>,
) -> Seq<u8> {
    Seq::new(
        p.total_digit_count as nat,
        |i: int| recover_digit_spec(csig[i], pk[i], p.digit_max() as nat).unwrap(),
    )
}

/// Validity of a compact signature against a public key: every position's
/// digit can be recovered, and the recovered digits satisfy the checksum
/// rule.
pub open spec fn compact_signature_valid(
    p: Parameters, pk: Seq<Seq<u8>>, csig: Seq<Seq<u8>>,
) -> bool {
    &&& pk.len() == p.total_digit_count
    &&& csig.len() == p.total_digit_count
    &&& forall|i: int| 0 <= i < csig.len()
        ==> recover_digit_spec(#[trigger] csig[i], pk[i], p.digit_max() as nat) is Some
    &&& checksum_digits_ok(p, recovered_digits(p, pk, csig))
}

/// What a program means against a compact witness, threading the digits the
/// recovery instructions produce: each recovery must target the next
/// position and succeed, and the checksum instruction must accept the
/// digits recovered so far.
pub open spec fn compact_program_accepts_from(
    ops: Seq<ScriptOp>, p: Parameters, csig: Seq<Seq<u8>>, digits: Seq<u8>,
) -> bool
    decreases ops.len(),
{
    if ops.len() == 0 {
        true
    } else {
        match ops[0] {
            ScriptOp::Push(_) => false,
            ScriptOp::VerifyChain { .. } => false,
            ScriptOp::RecoverDigit { position, commitment } => {
                &&& position == digits.len()
                &&& position < csig.len()
                &&& recover_digit_spec(csig[position as int], commitment@,
                    p.digit_max() as nat) is Some
                &&& compact_program_accepts_from(
                    ops.drop_first(),
                    p,
                    csig,
                    digits.push(
                        recover_digit_spec(csig[position as int], commitment@,
                            p.digit_max() as nat).unwrap(),
                    ),
                )
            },
            ScriptOp::VerifyChecksum => {
                &&& checksum_digits_ok(p, digits)
                &&& compact_program_accepts_from(ops.drop_first(), p, csig, digits)
            },
        }
    }
}

/// A program accepts a compact witness when executing it from an empty
/// digit list succeeds.
pub open spec fn compact_program_accepts(
    ops: Seq<ScriptOp>, p: Parameters, csig: Seq<Seq<u8>>,
) -> bool {
    compact_program_accepts_from(ops, p, csig, Seq::<u8>::empty())
}

/// Creates the verification program for the compact variant: one digit
/// recovery per position, then the checksum check over the recovered
/// digits.
pub fn checksig_verify(p: &Parameters, public_key: &PublicKey) -> (s: Script)
    requires
        p.wf(),
        public_key@.len() == p.total_digit_count,
    ensures
        s.ops@.len() == p.total_digit_count + 1,
        forall|i: int| 0 <= i < p.total_digit_count
            ==> (#[trigger] s.ops@[i] matches ScriptOp::RecoverDigit { position, commitment }
                && position == i && commitment@ == key_view(public_key@)[i]),
        s.ops@[p.total_digit_count as int] matches ScriptOp::VerifyChecksum,
{
    let mut ops: Vec<ScriptOp> = Vec::new();
    let mut i: u32 = 0;
    proof {
        lemma_params_bounds(*p);
    }
    while i < p.total_digit_count
        invariant
            p.wf(),
            public_key@.len() == p.total_digit_count,
            i <= p.total_digit_count,
            ops@.len() == i,
            forall|k: int| 0 <= k < i
                ==> (#[trigger] ops@[k] matches ScriptOp::RecoverDigit { position, commitment }
                    && position == k && commitment@ == key_view(public_key@)[k]),
        decreases p.total_digit_count - i,
    {
        let commitment = copy_bytes(&public_key[i as usize]);
        ops.push(ScriptOp::RecoverDigit { position: i, commitment });
        i = i + 1;
    }
    ops.push(ScriptOp::VerifyChecksum);
    Script { ops }
}

/// Executes a verification program against a compact witness, recovering
/// digits as the program instructs.  The result is the conjunction of every
/// instruction's check.
pub fn execute_compact_checksig(p: &Parameters, script: &Script, witness: &Signature) -> (ok: bool)
    requires
        p.wf(),
    ensures
        ok == compact_program_accepts(script.ops@, *p, key_view(witness@)),
{
    proof {
        lemma_params_bounds(*p);
    }
    let digit_max: u32 = pow2_u32(p.digit_bit_width) - 1;
    let ghost csig = key_view(witness@);
    let mut ok: bool = true;
    let mut digits: Vec<u8> = Vec::new();
    let mut i: usize = 0;
    proof {
        assert(script.ops@.skip(0) =~= script.ops@);
        assert(digits@ =~= Seq::<u8>::empty());
    }
    while i < script.ops.len()
        invariant
            p.wf(),
            digit_max == p.digit_max(),
            digit_max <= 255,
            csig == key_view(witness@),
            i <= script.ops@.len(),
            if ok {
                compact_program_accepts(script.ops@, *p, csig)
                    == compact_program_accepts_from(script.ops@.skip(i as int), *p, csig,
                        digits@)
            } else {
                !compact_program_accepts(script.ops@, *p, csig)
            },
        decreases script.ops@.len() - i,
    {
        proof {
            assert(script.ops@.skip(i as int)[0] == script.ops@[i as int]);
            assert(script.ops@.skip(i as int).drop_first() =~= script.ops@.skip(i + 1));
        }
        match &script.ops[i] {
            ScriptOp::Push(_) => {
                ok = false;
            },
            ScriptOp::VerifyChain { .. } => {
                ok = false;
            },
            ScriptOp::RecoverDigit { position, commitment } => {
                if (*position as usize) == digits.len() && (*position as usize) < witness.len() {
                    proof {
                        assert(csig[*position as int] == witness@[*position as int]@);
                    }
                    match recover_digit(&witness[*position as usize], commitment, digit_max) {
                        Some(d) => {
                            digits.push(d);
                        },
                        None => {
                            ok = false;
                        },
                    }
                } else {
                    ok = false;
                }
            },
            ScriptOp::VerifyChecksum => {
                let good = check_checksum_digits(p, &digits);
                ok = ok && good;
            },
        }
        i = i + 1;
    }
    proof {
        assert(script.ops@.skip(script.ops@.len() as int) =~= Seq::<ScriptOp>::empty());
    }
    ok
}

/// Unrolling of an emitted compact program from position `i`: the remaining
/// instructions accept exactly when every remaining recovery succeeds and
/// the recovered digits satisfy the checksum rule.
proof fn lemma_compact_accepts_from(
    ops: Seq<ScriptOp>, p: Parameters, pk: Seq<Seq<u8>>, csig: Seq<Seq<u8>>, i: int,
)
    requires
        p.wf(),
        pk.len() == p.total_digit_count,
        csig.len() == p.total_digit_count,
        ops.len() == p.total_digit_count + 1,
        forall|j: int| 0 <= j < p.total_digit_count
            ==> (#[trigger] ops[j] matches ScriptOp::RecoverDigit { position, commitment }
                && position == j && commitment@ == pk[j]),
        ops[p.total_digit_count as int] matches ScriptOp::VerifyChecksum,
        0 <= i <= p.total_digit_count,
        forall|j: int| 0 <= j < i
            ==> recover_digit_spec(#[trigger] csig[j], pk[j], p.digit_max() as nat) is Some,
    ensures
        compact_program_accepts_from(ops.skip(i), p, csig, recovered_digits(p, pk, csig).take(i))
            <==> ((forall|j: int| i <= j < p.total_digit_count
                ==> recover_digit_spec(#[trigger] csig[j], pk[j], p.digit_max() as nat) is Some)
                && checksum_digits_ok(p, recovered_digits(p, pk, csig))),
    decreases p.total_digit_count - i,
{
    let rec = recovered_digits(p, pk, csig);
    if i == p.total_digit_count {
        assert(ops.skip(i)[0] == ops[i]);
        assert(rec.take(i) =~= rec);
        assert(ops.skip(i).drop_first() =~= Seq::<ScriptOp>::empty());
        assert(compact_program_accepts_from(Seq::<ScriptOp>::empty(), p, csig, rec));
        assert(compact_program_accepts_from(ops.skip(i), p, csig, rec)
            <==> checksum_digits_ok(p, rec));
    } else {
        assert(ops.skip(i)[0] == ops[i]);
        assert(ops.skip(i).drop_first() =~= ops.skip(i + 1));
        assert(rec.take(i).len() == i);
        if recover_digit_spec(csig[i], pk[i], p.digit_max() as nat) is Some {
            assert(rec.take(i).push(rec[i]) =~= rec.take(i + 1));
            lemma_compact_accepts_from(ops, p, pk, csig, i + 1);
            assert(compact_program_accepts_from(ops.skip(i), p, csig, rec.take(i))
                <==> compact_program_accepts_from(ops.skip(i + 1), p, csig, rec.take(i + 1)));
        } else {
            assert(!compact_program_accepts_from(ops.skip(i), p, csig, rec.take(i)));
            assert(!(forall|j: int| i <= j < p.total_digit_count
                ==> recover_digit_spec(#[trigger] csig[j], pk[j],
                    p.digit_max() as nat) is Some));
        }
    }
}

/// The program emitted for a public key accepts exactly the compact
/// signatures that are valid for that key.
pub proof fn lemma_emitted_compact_semantics(
    ops: Seq<ScriptOp>, p: Parameters, pk: Seq<Seq<u8>>, csig: Seq<Seq<u8>>,
)
    requires
        p.wf(),
        pk.len() == p.total_digit_count,
        csig.len() == p.total_digit_count,
        ops.len() == p.total_digit_count + 1,
        forall|j: int| 0 <= j < p.total_digit_count
            ==> (#[trigger] ops[j] matches ScriptOp::RecoverDigit { position, commitment }
                && position == j && commitment@ == pk[j]),
        ops[p.total_digit_count as int] matches ScriptOp::VerifyChecksum,
    ensures
        compact_program_accepts(ops, p, csig) <==> compact_signature_valid(p, pk, csig),
{
    lemma_compact_accepts_from(ops, p, pk, csig, 0);
    assert(ops.skip(0) =~= ops);
    assert(recovered_digits(p, pk, csig).take(0) =~= Seq::<u8>::empty());
}

/// Helper for the recovery lemma: from search position `k` at or below the
/// signed digit, the search lands exactly on the signed digit, provided the
/// chain does not meet its own top value again within the digit alphabet.
proof fn lemma_recover_from(p: Parameters, seed: Seq<u8>, d: u8, k: nat)
    requires
        p.wf(),
        d <= p.digit_max(),
        k <= d,
        forall|m: int| 1 <= m <= d
            ==> #[trigger] chain_of(seed, (p.digit_max() + m) as nat)
                != chain_of(seed, p.digit_max() as nat),
    ensures
        recover_digit_from(chain_of(seed, d as nat), chain_of(seed, p.digit_max() as nat),
            p.digit_max() as nat, k) == Some(d),
    decreases d - k,
{
    lemma_params_bounds(p);
    let cv = chain_of(seed, d as nat);
    let top = chain_of(seed, p.digit_max() as nat);
    lemma_chain_add(seed, d as nat, (p.digit_max() - k) as nat);
    assert(chain_of(cv, (p.digit_max() - k) as nat)
        == chain_of(seed, (d + p.digit_max() - k) as nat));
    if k == d {
        assert(chain_of(cv, (p.digit_max() - k) as nat) == top);
    } else {
        assert(chain_of(seed, (p.digit_max() + (d - k)) as nat) != top);
        lemma_recover_from(p, seed, d, k + 1);
    }
}

/// Compact/full equivalence: the digit the compact verifier's search
/// recovers at a position equals the digit the signer used there, provided
/// the position's hash chain does not revisit its top value within the
/// digit alphabet (a hash collision otherwise).
pub proof fn lemma_compact_recovers_signed_digit(
    p: Parameters, secret: Seq<u8>, msg: Seq<u8>, i: int,
)
    requires
        p.wf(),
        msg.len() == p.message_byte_length,
        0 <= i < p.total_digit_count,
        forall|m: int| 1 <= m <= all_digits(p, msg)[i]
            ==> #[trigger] chain_of(seed_of(secret, i), (p.digit_max() + m) as nat)
                != chain_of(seed_of(secret, i), p.digit_max() as nat),
    ensures
        recover_digit_spec(
            compact_signature_of(secret, p, msg)[i],
            public_key_of(secret, p)[i],
            p.digit_max() as nat,
        ) == Some(all_digits(p, msg)[i]),
{
    crate::script::lemma_all_digits_props(p, msg);
    let d = all_digits(p, msg)[i];
    lemma_recover_from(p, seed_of(secret, i), d, 0);
}

/// Compact verification soundness: the compact signature of a message is
/// valid for the public key of the same secret, provided no position's hash
/// chain revisits its top value within the digit alphabet (a hash collision
/// otherwise).
pub proof fn lemma_compact_verification_soundness(p: Parameters, secret: Seq<u8>, msg: Seq<u8>)
    requires
        p.wf(),
        msg.len() == p.message_byte_length,
        forall|i: int, m: int| 0 <= i < p.total_digit_count && 1 <= m <= all_digits(p, msg)[i]
            ==> #[trigger] chain_of(seed_of(secret, i), (p.digit_max() + m) as nat)
                != chain_of(seed_of(secret, i), p.digit_max() as nat),
    ensures
        compact_signature_valid(p, public_key_of(secret, p), compact_signature_of(secret, p, msg)),
{
    lemma_params_bounds(p);
    crate::script::lemma_all_digits_props(p, msg);
    let pk = public_key_of(secret, p);
    let csig = compact_signature_of(secret, p, msg);
    let ds = all_digits(p, msg);
    assert forall|i: int| 0 <= i < csig.len() implies
        recover_digit_spec(#[trigger] csig[i], pk[i], p.digit_max() as nat) == Some(ds[i]) by {
        assert(forall|m: int| 1 <= m <= ds[i]
            ==> #[trigger] chain_of(seed_of(secret, i), (p.digit_max() + m) as nat)
                != chain_of(seed_of(secret, i), p.digit_max() as nat));
        lemma_compact_recovers_signed_digit(p, secret, msg, i);
    }
    let rec = recovered_digits(p, pk, csig);
    assert(rec =~= ds);
    crate::script::lemma_signature_digits_checksum_ok(p, msg);
}

} // verus!
