//! A Winternitz one-time signature (WOTS) scheme specialised for verification
//! by a stack-based script interpreter.
//!
//! A signer commits to a secret once, publishes a public key derived from
//! repeated hashing, and later produces a signature over a fixed-length
//! message.  A verifier re-derives the checksum from the claimed digits,
//! continues each hash chain to its maximum length, and compares against the
//! public commitments.

use vstd::prelude::*;

pub mod params;
pub mod chain;
pub mod digits;
pub mod codec;
pub mod compact;
pub mod hexs;
pub mod script;
pub mod sign;

verus! {

/// Errors reported by the signing and decoding operations.
///
/// Verification failure is not an error: the verification functions return a
/// boolean outcome, and complete every check even when one has already failed.
#[derive(Clone, Copy, Debug, PartialEq, Eq, Structural)]
pub enum WotsError {
    /// The secret could not be decoded from its hex representation.
    InvalidSecretEncoding,
    /// The message byte length does not equal the instantiation's fixed length.
    MessageLengthMismatch,
    /// The wire witness shape does not match the instantiation.
    MalformedWitness,
}

/// Renders a signature as a program of data pushes for the script
/// interpreter, in either wire variant.
pub trait SignatureImpl: Sized {
    /// The (chain value, digit value) pairs the signature holds.
    spec fn sig_pairs(self) -> Seq<(Seq<u8>, u8)>;

    /// The signature as pushes of chain values and digit values: for each
    /// position the chain value, then the digit in its minimal-length
    /// encoding.
    fn to_script(self) -> (s: crate::script::Script)
        ensures
            s.ops@.len() == 2 * self.sig_pairs().len(),
            forall|i: int| 0 <= i < self.sig_pairs().len()
                ==> (#[trigger] s.ops@[2 * i] matches crate::script::ScriptOp::Push(b)
                    && b@ == self.sig_pairs()[i].0),
            forall|i: int| 0 <= i < self.sig_pairs().len()
                ==> (#[trigger] s.ops@[2 * i + 1] matches crate::script::ScriptOp::Push(b)
                    && b@ == crate::codec::le_bytes_minimal(self.sig_pairs()[i].1 as int)),
    ;

    /// The signature as pushes of chain values alone, in position order.
    fn to_compact_script(self) -> (s: crate::script::Script)
        ensures
            s.ops@.len() == self.sig_pairs().len(),
            forall|i: int| 0 <= i < self.sig_pairs().len()
                ==> (#[trigger] s.ops@[i] matches crate::script::ScriptOp::Push(b)
                    && b@ == self.sig_pairs()[i].0),
    ;
}

} // verus!
