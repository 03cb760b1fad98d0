//! The verification program: an instruction sequence for a stack-based
//! script interpreter, emitted from a public key, together with a reference
//! executor that fixes the meaning of each instruction.
//!
//! The emitted program re-derives the checksum from the claimed digits,
//! continues each provided chain value to the top of its chain, and requires
//! equality with the stored commitment.  Verification succeeds only if every
//! check holds: the outcome is the conjunction over all instructions, and
//! the executor completes every check even after one has failed.

use vstd::prelude::*;
use crate::params::{Parameters, pow2_u32, lemma_params_bounds};
use crate::chain::{chain_of, lemma_chain_add, chain_extend, copy_bytes};
use crate::digits::{
    checksum_of, checksum_digits, all_digits, message_digits, digits_per_byte, byte_digit,
    checksum_digit, compute_checksum, compute_checksum_digits, lemma_checksum_bounds,
    lemma_checksum_digits_injective, lemma_checksum_prefix_agree, lemma_checksum_one_change,
};
use crate::sign::{Signature, PublicKey, sig_view, key_view, public_key_of, signature_of};
use crate::chain::seed_of;
use vstd::arithmetic::div_mod::lemma_mod_bound;
use vstd::arithmetic::power2::{lemma_pow2, lemma2_to64};

verus! {

/// One instruction of the verification program.  The set is closed: the
/// interpreter this program is written for owns no further operations that
/// this scheme uses.
pub enum ScriptOp {
    /// Deposit one byte group on the interpreter stack.  A bare data push
    /// performs no check; a program made of pushes carries a signature but
    /// verifies nothing.
    Push(Vec<u8>),
    /// Take the witness pair for `position`, require its digit to lie in the
    /// digit alphabet, continue its chain value to the top of the chain, and
    /// require equality with `commitment`.
    VerifyChain { position: u32, commitment: Vec<u8> },
    /// Recover the digit for `position` by searching the digit alphabet
    /// upward until continuing the witness chain value meets `commitment`.
    RecoverDigit { position: u32, commitment: Vec<u8> },
    /// Recompute the checksum over the message digits and require the digit
    /// values at the checksum positions to equal its digits.
    VerifyChecksum,
}

/// A program for the script interpreter: an instruction sequence.  Two
/// programs are the same exactly when their instruction sequences are.
pub struct Script {
    /// The instructions, in execution order.
    pub ops: Vec<ScriptOp>,
}

/// The digit values of a full signature, in position order.
pub open spec fn digits_of_sig(sig: Seq<(Seq<u8>, u8)>) -> Seq<u8> {
    Seq::new(sig.len(), |i: int| sig[i].1)
}

/// What the checksum check requires of a digit sequence: the right digit
/// count, digits inside the alphabet, and the digit values at the checksum
/// positions equal to the checksum of the message digits.
pub open spec fn checksum_digits_ok(p: Parameters, ds: Seq<u8>) -> bool {
    &&& ds.len() == p.total_digit_count
    &&& forall|i: int| 0 <= i < ds.len() ==> #[trigger] ds[i] <= p.digit_max()
    &&& checksum_digits(
        checksum_of(ds.take(p.message_digit_count as int), p.digit_max()),
        p.checksum_digit_count as int,
        p.base(),
    ) == ds.skip(p.message_digit_count as int)
}

/// What the checksum instruction requires of a full signature.
pub open spec fn checksum_op_accepts(p: Parameters, sig: Seq<(Seq<u8>, u8)>) -> bool {
    sig.len() == p.total_digit_count && checksum_digits_ok(p, digits_of_sig(sig))
}

/// What one chain instruction requires of a full signature.
pub open spec fn chain_op_accepts(
    p: Parameters, position: u32, commitment: Seq<u8>, sig: Seq<(Seq<u8>, u8)>,
) -> bool {
    &&& position < sig.len()
    &&& sig[position as int].1 <= p.digit_max()
    &&& chain_of(
        sig[position as int].0,
        (p.digit_max() - sig[position as int].1) as nat,
    ) == commitment
}

/// What one instruction requires of a full signature.  A bare push is not a
/// check and never stands for a successful verification; a recovery
/// instruction does not apply where the witness carries explicit digits.
pub open spec fn full_op_accepts(op: ScriptOp, p: Parameters, sig: Seq<(Seq<u8>, u8)>) -> bool {
    match op {
        ScriptOp::Push(_) => false,
        ScriptOp::VerifyChain { position, commitment } =>
            chain_op_accepts(p, position, commitment@, sig),
        ScriptOp::RecoverDigit { .. } => false,
        ScriptOp::VerifyChecksum => checksum_op_accepts(p, sig),
    }
}

/// A program accepts a full signature when every instruction accepts it.
pub open spec fn full_program_accepts(
    ops: Seq<ScriptOp>, p: Parameters, sig: Seq<(Seq<u8>, u8)>,
) -> bool {
    forall|i: int| 0 <= i < ops.len() ==> full_op_accepts(#[trigger] ops[i], p, sig)
}

/// Validity of a full signature against a public key: every chain value,
/// continued to the top of its chain, meets the matching commitment, and the
/// checksum positions carry the checksum of the message digits.
pub open spec fn full_signature_valid(
    p: Parameters, pk: Seq<Seq<u8>>, sig: Seq<(Seq<u8>, u8)>,
) -> bool {
    &&& pk.len() == p.total_digit_count
    &&& forall|i: int| 0 <= i < pk.len()
        ==> chain_op_accepts(p, i as u32, #[trigger] pk[i], sig)
    &&& checksum_op_accepts(p, sig)
}

/// The little-endian four-byte rendering of a count or position in the
/// serialized program.
pub open spec fn le4(v: int) -> Seq<u8> {
    seq![
        (v % 256) as u8,
        ((v / 256) % 256) as u8,
        ((v / 65536) % 256) as u8,
        ((v / 16777216) % 256) as u8,
    ]
}

/// The byte rendering of one instruction: a tag, then the instruction's
/// operands, lengths first.
pub open spec fn op_bytes(op: ScriptOp) -> Seq<u8> {
    match op {
        ScriptOp::Push(b) => seq![0u8] + le4(b@.len() as int) + b@,
        ScriptOp::VerifyChain { position, commitment } =>
            seq![1u8] + le4(position as int) + le4(commitment@.len() as int) + commitment@,
        ScriptOp::RecoverDigit { position, commitment } =>
            seq![2u8] + le4(position as int) + le4(commitment@.len() as int) + commitment@,
        ScriptOp::VerifyChecksum => seq![3u8],
    }
}

/// The byte rendering of the first `n` instructions, in order.
pub open spec fn script_bytes_upto(ops: Seq<ScriptOp>, n: int) -> Seq<u8>
    decreases n,
{
    if n <= 0 {
        Seq::<u8>::empty()
    } else {
        script_bytes_upto(ops, n - 1) + op_bytes(ops[n - 1])
    }
}

/// The byte rendering of a program: its instruction count, then each
/// instruction in order.
pub open spec fn script_bytes(s: Script) -> Seq<u8> {
    le4(s.ops@.len() as int) + script_bytes_upto(s.ops@, s.ops@.len() as int)
}

/// Whether an instruction's operands fit the four-byte length fields of the
/// serialized form.
pub open spec fn op_wire_ok(op: ScriptOp) -> bool {
    match op {
        ScriptOp::Push(b) => b@.len() <= 0xffff_ffff,
        ScriptOp::VerifyChain { commitment, .. } => commitment@.len() <= 0xffff_ffff,
        ScriptOp::RecoverDigit { commitment, .. } => commitment@.len() <= 0xffff_ffff,
        ScriptOp::VerifyChecksum => true,
    }
}

/// Appends the little-endian four-byte rendering of `v`.
fn push_le4(out: &mut Vec<u8>, v: u32)
    ensures
        final(out)@ == old(out)@ + le4(v as int),
{
    out.push((v % 256) as u8);
    out.push(((v / 256) % 256) as u8);
    out.push(((v / 65536) % 256) as u8);
    out.push(((v / 16777216) % 256) as u8);
    proof {
        assert(out@ =~= old(out)@ + le4(v as int));
    }
}

/// Appends a byte sequence.
fn push_bytes(out: &mut Vec<u8>, bytes: &Vec<u8>)
    ensures
        final(out)@ == old(out)@ + bytes@,
{
    let mut i: usize = 0;
    while i < bytes.len()
        invariant
            i <= bytes@.len(),
            out@ == old(out)@ + bytes@.take(i as int),
        decreases bytes@.len() - i,
    {
        out.push(bytes[i]);
        proof {
            assert(out@ =~= old(out)@ + bytes@.take(i + 1));
        }
        i = i + 1;
    }
    proof {
        assert(out@ =~= old(out)@ + bytes@);
    }
}

/// Appends the byte rendering of one instruction.
fn push_op_bytes(out: &mut Vec<u8>, op: &ScriptOp)
    requires
        op_wire_ok(*op),
    ensures
        final(out)@ == old(out)@ + op_bytes(*op),
{
    match op {
        ScriptOp::Push(b) => {
            out.push(0u8);
            push_le4(out, b.len() as u32);
            push_bytes(out, b);
            proof {
                assert(out@ =~= old(out)@ + op_bytes(*op));
            }
        },
        ScriptOp::VerifyChain { position, commitment } => {
            out.push(1u8);
            push_le4(out, *position);
            push_le4(out, commitment.len() as u32);
            push_bytes(out, commitment);
            proof {
                assert(out@ =~= old(out)@ + op_bytes(*op));
            }
        },
        ScriptOp::RecoverDigit { position, commitment } => {
            out.push(2u8);
            push_le4(out, *position);
            push_le4(out, commitment.len() as u32);
            push_bytes(out, commitment);
            proof {
                assert(out@ =~= old(out)@ + op_bytes(*op));
            }
        },
        ScriptOp::VerifyChecksum => {
            out.push(3u8);
            proof {
                assert(out@ =~= old(out)@ + op_bytes(*op));
            }
        },
    }
}

impl Script {
    /// Serializes the program: the instruction count, then each instruction
    /// as its tag and operands, all counts four bytes little-endian.
    pub fn to_bytes(&self) -> (r: Vec<u8>)
        requires
            self.ops@.len() <= 0xffff_ffff,
            forall|i: int| 0 <= i < self.ops@.len() ==> op_wire_ok(#[trigger] self.ops@[i]),
        ensures
            r@ == script_bytes(*self),
    {
        let mut out: Vec<u8> = Vec::new();
        push_le4(&mut out, self.ops.len() as u32);
        let ghost header = out@;
        let mut i: usize = 0;
        while i < self.ops.len()
            invariant
                i <= self.ops@.len(),
                forall|k: int| 0 <= k < self.ops@.len()
                    ==> op_wire_ok(#[trigger] self.ops@[k]),
                header == le4(self.ops@.len() as int),
                out@ == header + script_bytes_upto(self.ops@, i as int),
            decreases self.ops@.len() - i,
        {
            push_op_bytes(&mut out, &self.ops[i]);
            proof {
                assert(script_bytes_upto(self.ops@, i + 1)
                    == script_bytes_upto(self.ops@, i as int) + op_bytes(self.ops@[i as int]));
                assert(out@ =~= header + script_bytes_upto(self.ops@, i + 1));
            }
            i = i + 1;
        }
        out
    }
}

/// Byte-sequence equality.
pub(crate) fn bytes_eq(a: &Vec<u8>, b: &Vec<u8>) -> (r: bool)
    ensures
        r <==> a@ == b@,
{
    if a.len() != b.len() {
        return false;
    }
    let mut i: usize = 0;
    let mut eq: bool = true;
    while i < a.len()
        invariant
            a@.len() == b@.len(),
            i <= a@.len(),
            eq <==> (forall|k: int| 0 <= k < i ==> a@[k] == b@[k]),
        decreases a@.len() - i,
    {
        let same = a[i] == b[i];
        eq = eq && same;
        i = i + 1;
    }
    proof {
        if eq {
            assert(a@ =~= b@);
        }
    }
    eq
}

/// Creates the verification program for a WOTS `public_key`: one chain
/// check per digit position, then the checksum check.
pub fn checksig_verify(p: &Parameters, public_key: &PublicKey) -> (s: Script)
    requires
        p.wf(),
        public_key@.len() == p.total_digit_count,
    ensures
        s.ops@.len() == p.total_digit_count + 1,
        forall|i: int| 0 <= i < p.total_digit_count
            ==> (#[trigger] s.ops@[i] matches ScriptOp::VerifyChain { position, commitment }
                && position == i && commitment@ == key_view(public_key@)[i]),
        s.ops@[p.total_digit_count as int] matches ScriptOp::VerifyChecksum,
{
    let mut ops: Vec<ScriptOp> = Vec::new();
    let mut i: u32 = 0;
    proof {
        lemma_params_bounds(*p);
    }
    while i < p.total_digit_count
        invariant
            p.wf(),
            public_key@.len() == p.total_digit_count,
            i <= p.total_digit_count,
            ops@.len() == i,
            forall|k: int| 0 <= k < i
                ==> (#[trigger] ops@[k] matches ScriptOp::VerifyChain { position, commitment }
                    && position == k && commitment@ == key_view(public_key@)[k]),
        decreases p.total_digit_count - i,
    {
        let commitment = copy_bytes(&public_key[i as usize]);
        ops.push(ScriptOp::VerifyChain { position: i, commitment });
        i = i + 1;
    }
    ops.push(ScriptOp::VerifyChecksum);
    Script { ops }
}

/// Executes one chain instruction against a full witness.
fn check_chain(p: &Parameters, position: u32, commitment: &Vec<u8>, witness: &Signature) -> (ok:
    bool)
    requires
        p.wf(),
    ensures
        ok == chain_op_accepts(*p, position, commitment@, sig_view(witness@)),
{
    proof {
        lemma_params_bounds(*p);
    }
    let digit_max: u32 = pow2_u32(p.digit_bit_width) - 1;
    if (position as usize) < witness.len() {
        let d: u8 = witness[position as usize].1;
        let in_range: bool = (d as u32) <= digit_max;
        let steps: u32 = if (d as u32) <= digit_max {
            digit_max - d as u32
        } else {
            0
        };
        let top = chain_extend(&witness[position as usize].0, steps);
        let eq = bytes_eq(&top, commitment);
        in_range && eq
    } else {
        false
    }
}

/// Checks a digit sequence against the checksum rule.
pub(crate) fn check_checksum_digits(p: &Parameters, digits: &Vec<u8>) -> (ok: bool)
    requires
        p.wf(),
    ensures
        ok == checksum_digits_ok(*p, digits@),
{
    proof {
        lemma_params_bounds(*p);
    }
    if digits.len() != p.total_digit_count as usize {
        return false;
    }
    let digit_max: u32 = pow2_u32(p.digit_bit_width) - 1;
    let mut in_range: bool = true;
    let mut i: usize = 0;
    while i < digits.len()
        invariant
            p.wf(),
            digits@.len() == p.total_digit_count,
            digit_max == p.digit_max(),
            i <= digits@.len(),
            in_range <==> (forall|k: int| 0 <= k < i ==> #[trigger] digits@[k] <= p.digit_max()),
        decreases digits@.len() - i,
    {
        let ok_here = (digits[i] as u32) <= digit_max;
        in_range = in_range && ok_here;
        i = i + 1;
    }
    if !in_range {
        return false;
    }
    let mut msg_digits: Vec<u8> = Vec::new();
    let mut t: usize = 0;
    while t < p.message_digit_count as usize
        invariant
            p.wf(),
            digits@.len() == p.total_digit_count,
            p.message_digit_count <= p.total_digit_count,
            t <= p.message_digit_count,
            msg_digits@.len() == t,
            forall|k: int| 0 <= k < t ==> msg_digits@[k] == digits@[k],
            forall|k: int| 0 <= k < digits@.len() ==> #[trigger] digits@[k] <= p.digit_max(),
        decreases p.message_digit_count - t,
    {
        msg_digits.push(digits[t]);
        t = t + 1;
    }
    proof {
        assert(msg_digits@ =~= digits@.take(p.message_digit_count as int));
    }
    let checksum = compute_checksum(p, &msg_digits);
    let expected = compute_checksum_digits(p, checksum);
    let mut eq: bool = true;
    let mut j: usize = 0;
    while j < expected.len()
        invariant
            p.wf(),
            digits@.len() == p.total_digit_count,
            expected@.len() == p.checksum_digit_count,
            p.message_digit_count + p.checksum_digit_count == p.total_digit_count,
            j <= expected@.len(),
            eq <==> (forall|k: int| 0 <= k < j
                ==> expected@[k] == digits@[p.message_digit_count + k]),
        decreases expected@.len() - j,
    {
        let d: u8 = digits[p.message_digit_count as usize + j];
        let same = expected[j] == d;
        eq = eq && same;
        j = j + 1;
    }
    proof {
        if eq {
            assert(expected@ =~= digits@.skip(p.message_digit_count as int));
        }
        if expected@ == digits@.skip(p.message_digit_count as int) {
            assert(forall|k: int| 0 <= k < expected@.len()
                ==> expected@[k] == #[trigger] digits@.skip(p.message_digit_count as int)[k]);
            assert(forall|k: int| 0 <= k < expected@.len()
                ==> expected@[k] == digits@[p.message_digit_count + k]);
        }
    }
    eq
}

/// Executes the checksum instruction against a full witness.
fn check_checksum(p: &Parameters, witness: &Signature) -> (ok: bool)
    requires
        p.wf(),
    ensures
        ok == checksum_op_accepts(*p, sig_view(witness@)),
{
    if witness.len() != p.total_digit_count as usize {
        return false;
    }
    let mut digits: Vec<u8> = Vec::new();
    let mut i: usize = 0;
    while i < witness.len()
        invariant
            i <= witness@.len(),
            digits@.len() == i,
            forall|k: int| 0 <= k < i
                ==> digits@[k] == digits_of_sig(sig_view(witness@))[k],
        decreases witness@.len() - i,
    {
        digits.push(witness[i].1);
        proof {
            assert(digits@[i as int] == digits_of_sig(sig_view(witness@))[i as int]);
        }
        i = i + 1;
    }
    proof {
        assert(digits@ =~= digits_of_sig(sig_view(witness@)));
    }
    check_checksum_digits(p, &digits)
}

/// Executes a verification program against a full witness.  The result is
/// the conjunction of every instruction's check; every check is carried out
/// even after one has failed.
pub fn execute_checksig(p: &Parameters, script: &Script, witness: &Signature) -> (ok: bool)
    requires
        p.wf(),
    ensures
        ok == full_program_accepts(script.ops@, *p, sig_view(witness@)),
{
    let mut ok: bool = true;
    let mut i: usize = 0;
    while i < script.ops.len()
        invariant
            p.wf(),
            i <= script.ops@.len(),
            ok <==> (forall|k: int| 0 <= k < i
                ==> full_op_accepts(#[trigger] script.ops@[k], *p, sig_view(witness@))),
        decreases script.ops@.len() - i,
    {
        let step: bool = match &script.ops[i] {
            ScriptOp::Push(_) => false,
            ScriptOp::VerifyChain { position, commitment } => {
                check_chain(p, *position, commitment, witness)
            },
            ScriptOp::RecoverDigit { .. } => false,
            ScriptOp::VerifyChecksum => check_checksum(p, witness),
        };
        ok = ok && step;
        i = i + 1;
    }
    ok
}

/// Renders a full signature as pure data pushes: for each position the
/// chain value, then the digit in its minimal-length encoding.  The result
/// carries the witness; it performs no check of its own.
pub fn signature_to_script(signature: Signature) -> (s: Script)
    ensures
        s.ops@.len() == 2 * signature@.len(),
        forall|i: int| 0 <= i < signature@.len()
            ==> (#[trigger] s.ops@[2 * i] matches ScriptOp::Push(b)
                && b@ == sig_view(signature@)[i].0),
        forall|i: int| 0 <= i < signature@.len()
            ==> (#[trigger] s.ops@[2 * i + 1] matches ScriptOp::Push(b)
                && b@ == crate::codec::le_bytes_minimal(sig_view(signature@)[i].1 as int)),
{
    let mut ops: Vec<ScriptOp> = Vec::new();
    let mut i: usize = 0;
    while i < signature.len()
        invariant
            i <= signature@.len(),
            ops@.len() == 2 * i,
            forall|k: int| 0 <= k < i
                ==> (#[trigger] ops@[2 * k] matches ScriptOp::Push(b)
                    && b@ == sig_view(signature@)[k].0),
            forall|k: int| 0 <= k < i
                ==> (#[trigger] ops@[2 * k + 1] matches ScriptOp::Push(b)
                    && b@ == crate::codec::le_bytes_minimal(sig_view(signature@)[k].1 as int)),
        decreases signature@.len() - i,
    {
        let h = copy_bytes(&signature[i].0);
        ops.push(ScriptOp::Push(h));
        let dg = crate::codec::u32_to_le_bytes_minimal(signature[i].1 as u32);
        ops.push(ScriptOp::Push(dg));
        i = i + 1;
    }
    Script { ops }
}

/// Renders a full signature as pure data pushes for the compact verifier:
/// the chain values alone, in position order.
pub fn signature_to_compact_script(signature: Signature) -> (s: Script)
    ensures
        s.ops@.len() == signature@.len(),
        forall|i: int| 0 <= i < signature@.len()
            ==> (#[trigger] s.ops@[i] matches ScriptOp::Push(b)
                && b@ == sig_view(signature@)[i].0),
{
    let mut ops: Vec<ScriptOp> = Vec::new();
    let mut i: usize = 0;
    while i < signature.len()
        invariant
            i <= signature@.len(),
            ops@.len() == i,
            forall|k: int| 0 <= k < i
                ==> (#[trigger] ops@[k] matches ScriptOp::Push(b)
                    && b@ == sig_view(signature@)[k].0),
        decreases signature@.len() - i,
    {
        let h = copy_bytes(&signature[i].0);
        ops.push(ScriptOp::Push(h));
        i = i + 1;
    }
    Script { ops }
}

impl crate::SignatureImpl for Signature {
    open spec fn sig_pairs(self) -> Seq<(Seq<u8>, u8)> {
        sig_view(self@)
    }

    fn to_script(self) -> (s: Script) {
        signature_to_script(self)
    }

    fn to_compact_script(self) -> (s: Script) {
        signature_to_compact_script(self)
    }
}

/// The program emitted for a public key accepts exactly the signatures that
/// are valid for that key.
pub proof fn lemma_emitted_program_semantics(
    ops: Seq<ScriptOp>, p: Parameters, pk: Seq<Seq<u8>>, sig: Seq<(Seq<u8>, u8)>,
)
    requires
        p.wf(),
        pk.len() == p.total_digit_count,
        ops.len() == p.total_digit_count + 1,
        forall|i: int| 0 <= i < p.total_digit_count
            ==> (#[trigger] ops[i] matches ScriptOp::VerifyChain { position, commitment }
                && position == i && commitment@ == pk[i]),
        ops[p.total_digit_count as int] matches ScriptOp::VerifyChecksum,
    ensures
        full_program_accepts(ops, p, sig) <==> full_signature_valid(p, pk, sig),
{
    if full_program_accepts(ops, p, sig) {
        assert(full_op_accepts(ops[p.total_digit_count as int], p, sig));
        assert forall|i: int| 0 <= i < pk.len() implies
            chain_op_accepts(p, i as u32, #[trigger] pk[i], sig) by {
            assert(full_op_accepts(ops[i], p, sig));
        }
    }
    if full_signature_valid(p, pk, sig) {
        assert forall|i: int| 0 <= i < ops.len() implies
            full_op_accepts(#[trigger] ops[i], p, sig) by {
            if i < p.total_digit_count {
                assert(chain_op_accepts(p, i as u32, pk[i], sig));
            }
        }
    }
}

/// Every digit that the signer derives lies in the digit alphabet, and a
/// message yields exactly `total_digit_count` digits.
pub proof fn lemma_all_digits_props(p: Parameters, msg: Seq<u8>)
    requires
        p.wf(),
        msg.len() == p.message_byte_length,
    ensures
        all_digits(p, msg).len() == p.total_digit_count,
        forall|i: int| 0 <= i < all_digits(p, msg).len()
            ==> #[trigger] all_digits(p, msg)[i] <= p.digit_max(),
{
    lemma_params_bounds(p);
    let w = p.digit_bit_width as int;
    let mds = message_digits(msg, w);
    assert(mds.len() == p.message_digit_count) by (nonlinear_arith)
        requires
            mds.len() == msg.len() * digits_per_byte(w),
            digits_per_byte(w) == 8int / w,
            msg.len() == p.message_byte_length,
            p.message_digit_count == p.message_byte_length * 8 / w,
            w == 1 || w == 2 || w == 4 || w == 8,
    ;
    assert forall|i: int| 0 <= i < all_digits(p, msg).len() implies
        #[trigger] all_digits(p, msg)[i] <= p.digit_max() by {
        lemma2_to64();
        lemma_pow2(p.digit_bit_width as nat);
        if i < mds.len() {
            assert(all_digits(p, msg)[i] == byte_digit(msg[i / digits_per_byte(w)],
                i % digits_per_byte(w), w));
            lemma_mod_bound(
                (msg[i / digits_per_byte(w)] as int)
                    / vstd::arithmetic::power::pow(2,
                        ((digits_per_byte(w) - 1 - i % digits_per_byte(w)) * w) as nat),
                p.base(),
            );
        } else {
            let s = checksum_of(mds, p.digit_max());
            assert(all_digits(p, msg)[i]
                == checksum_digit(s, i - mds.len(), p.checksum_digit_count as int, p.base()));
            lemma_mod_bound(
                s / vstd::arithmetic::power::pow(p.base(),
                    (p.checksum_digit_count - 1 - (i - mds.len())) as nat),
                p.base(),
            );
        }
    }
}

/// The digit sequence the signer derives satisfies the checksum rule by
/// construction.
pub proof fn lemma_signature_digits_checksum_ok(p: Parameters, msg: Seq<u8>)
    requires
        p.wf(),
        msg.len() == p.message_byte_length,
    ensures
        checksum_digits_ok(p, all_digits(p, msg)),
{
    lemma_params_bounds(p);
    lemma_all_digits_props(p, msg);
    let ds = all_digits(p, msg);
    let mds = message_digits(msg, p.digit_bit_width as int);
    assert(ds.take(p.message_digit_count as int) =~= mds);
    assert(ds.skip(p.message_digit_count as int) =~= checksum_digits(
        checksum_of(mds, p.digit_max()), p.checksum_digit_count as int, p.base()));
}

/// Verification soundness: the signature produced for a message is valid
/// for the public key produced from the same secret, so the emitted program
/// accepts it.
pub proof fn lemma_verification_soundness(p: Parameters, secret: Seq<u8>, msg: Seq<u8>)
    requires
        p.wf(),
        msg.len() == p.message_byte_length,
    ensures
        full_signature_valid(p, public_key_of(secret, p), signature_of(secret, p, msg)),
{
    lemma_params_bounds(p);
    lemma_all_digits_props(p, msg);
    let ds = all_digits(p, msg);
    let pk = public_key_of(secret, p);
    let sig = signature_of(secret, p, msg);
    assert forall|i: int| 0 <= i < pk.len() implies
        chain_op_accepts(p, i as u32, #[trigger] pk[i], sig) by {
        lemma_chain_add(seed_of(secret, i), ds[i] as nat, (p.digit_max() - ds[i]) as nat);
    }
    let dsv = digits_of_sig(sig);
    assert(dsv =~= ds);
    lemma_signature_digits_checksum_ok(p, msg);
    assert(checksum_op_accepts(p, sig));
}

/// A program emitted for the public key of `secret` accepts the signature
/// of any right-length message under `secret`.
pub proof fn lemma_emitted_program_accepts_signature(
    ops: Seq<ScriptOp>, p: Parameters, secret: Seq<u8>, msg: Seq<u8>,
)
    requires
        p.wf(),
        msg.len() == p.message_byte_length,
        ops.len() == p.total_digit_count + 1,
        forall|i: int| 0 <= i < p.total_digit_count
            ==> (#[trigger] ops[i] matches ScriptOp::VerifyChain { position, commitment }
                && position == i && commitment@ == public_key_of(secret, p)[i]),
        ops[p.total_digit_count as int] matches ScriptOp::VerifyChecksum,
    ensures
        full_program_accepts(ops, p, signature_of(secret, p, msg)),
{
    lemma_verification_soundness(p, secret, msg);
    lemma_emitted_program_semantics(ops, p, public_key_of(secret, p),
        signature_of(secret, p, msg));
}

/// Flipping any bit of any digit value in a valid signature is detected:
/// the altered digit either leaves the digit alphabet, or moves the
/// checksum away from the stored checksum digits, or changes a stored
/// checksum digit away from the recomputed one.
pub proof fn lemma_digit_flip_detected(
    p: Parameters, pk: Seq<Seq<u8>>, sig: Seq<(Seq<u8>, u8)>, at: int, d2: u8,
)
    requires
        p.wf(),
        full_signature_valid(p, pk, sig),
        0 <= at < sig.len(),
        d2 != sig[at].1,
    ensures
        !full_signature_valid(p, pk, sig.update(at, (sig[at].0, d2))),
{
    lemma_params_bounds(p);
    let sig2 = sig.update(at, (sig[at].0, d2));
    let ds = digits_of_sig(sig);
    let ds2 = digits_of_sig(sig2);
    assert(ds2 =~= ds.update(at, d2));
    let mdc = p.message_digit_count as int;
    let dmax = p.digit_max();
    if full_signature_valid(p, pk, sig2) {
        assert(ds2[at] <= dmax);
        let t1 = ds.take(mdc);
        let t2 = ds2.take(mdc);
        let s1 = checksum_of(t1, dmax);
        let s2 = checksum_of(t2, dmax);
        lemma_checksum_bounds(t1, dmax, t1.len() as int);
        lemma_checksum_bounds(t2, dmax, t2.len() as int);
        assert(t1.len() * dmax == p.max_checksum());
        if at < mdc {
            lemma_checksum_one_change(t1, t2, dmax, mdc, at);
            assert(s2 == s1 + ds[at] - d2);
            assert(s1 != s2);
            assert(ds2.skip(mdc) =~= ds.skip(mdc));
            assert(checksum_digits(s1, p.checksum_digit_count as int, p.base())
                == checksum_digits(s2, p.checksum_digit_count as int, p.base()));
            lemma_checksum_digits_injective(s1, s2, p.checksum_digit_count as int, p.base());
        } else {
            assert(t1 =~= t2);
            lemma_checksum_prefix_agree(t1, t2, dmax, mdc);
            assert(s1 == s2);
            assert(ds.skip(mdc)[at - mdc] == ds[at]);
            assert(ds2.skip(mdc)[at - mdc] == d2);
            assert(checksum_digits(s1, p.checksum_digit_count as int, p.base())[at - mdc]
                == ds[at]);
            assert(checksum_digits(s2, p.checksum_digit_count as int, p.base())[at - mdc]
                == d2);
        }
    }
}

/// Checksum sensitivity: altering the message digits of a valid signature
/// while leaving the checksum digits unchanged is detected whenever the
/// altered digits' checksum differs from the original one — the checksum
/// positions no longer match.
pub proof fn lemma_checksum_sensitivity(
    p: Parameters, pk: Seq<Seq<u8>>, sig: Seq<(Seq<u8>, u8)>, sig2: Seq<(Seq<u8>, u8)>,
)
    requires
        p.wf(),
        full_signature_valid(p, pk, sig),
        sig2.len() == sig.len(),
        forall|i: int| p.message_digit_count <= i < sig.len()
            ==> (#[trigger] sig2[i]).1 == sig[i].1,
        forall|i: int| 0 <= i < sig2.len() ==> (#[trigger] sig2[i]).1 <= p.digit_max(),
        checksum_of(digits_of_sig(sig2).take(p.message_digit_count as int), p.digit_max())
            != checksum_of(digits_of_sig(sig).take(p.message_digit_count as int), p.digit_max()),
    ensures
        !full_signature_valid(p, pk, sig2),
{
    lemma_params_bounds(p);
    let mdc = p.message_digit_count as int;
    let dmax = p.digit_max();
    let ds = digits_of_sig(sig);
    let ds2 = digits_of_sig(sig2);
    let s1 = checksum_of(ds.take(mdc), dmax);
    let s2 = checksum_of(ds2.take(mdc), dmax);
    if full_signature_valid(p, pk, sig2) {
        lemma_checksum_bounds(ds.take(mdc), dmax, mdc);
        lemma_checksum_bounds(ds2.take(mdc), dmax, mdc);
        assert(ds.take(mdc).len() * dmax == p.max_checksum());
        assert(ds2.skip(mdc) =~= ds.skip(mdc));
        assert(checksum_digits(s1, p.checksum_digit_count as int, p.base())
            == checksum_digits(s2, p.checksum_digit_count as int, p.base()));
        lemma_checksum_digits_injective(s1, s2, p.checksum_digit_count as int, p.base());
    }
}

} // verus!
