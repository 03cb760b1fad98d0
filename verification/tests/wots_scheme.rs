use wots::SignatureImpl;
use wots::WotsError;
use wots::codec;
use wots::compact;
use wots::params::{Parameters, wots256_params, wots_hash_params};
use wots::script;
use wots::sign;

const SECRET: &str = "6d7920746573742073656372657420313233";
const OTHER_SECRET: &str = "6f74686572207365637265742034353637";

fn short_message() -> Vec<u8> {
    (0u8..16u8).collect()
}

fn long_message() -> Vec<u8> {
    (100u8..132u8).collect()
}

#[test]
fn parameter_derivation_short() {
    let p = wots_hash_params();
    assert_eq!(p.digit_bit_width, 4);
    assert_eq!(p.message_byte_length, 16);
    assert_eq!(p.message_digit_count, 32);
    assert_eq!(p.checksum_digit_count, 3);
    assert_eq!(p.total_digit_count, 35);
}

#[test]
fn parameter_derivation_long() {
    let p = wots256_params();
    assert_eq!(p.message_byte_length, 32);
    assert_eq!(p.message_digit_count, 64);
    assert_eq!(p.checksum_digit_count, 3);
    assert_eq!(p.total_digit_count, 67);
}

#[test]
fn parameter_derivation_matches_generic() {
    let p = Parameters::new_by_bit_length(128, 4);
    assert_eq!(p, wots_hash_params());
    let q = Parameters::new_by_bit_length(256, 4);
    assert_eq!(q, wots256_params());
}

#[test]
fn parameter_derivation_other_widths() {
    let p = Parameters::new_by_bit_length(16, 8);
    assert_eq!(p.message_digit_count, 2);
    // largest checksum 2 * 255 = 510, so two base-256 digits
    assert_eq!(p.checksum_digit_count, 2);
    let q = Parameters::new_by_bit_length(8, 1);
    assert_eq!(q.message_digit_count, 8);
    // largest checksum 8, so four base-2 digits
    assert_eq!(q.checksum_digit_count, 4);
}

#[test]
fn public_key_is_deterministic() {
    let p = wots_hash_params();
    let pk1 = sign::generate_public_key(&p, SECRET).unwrap();
    let pk2 = sign::generate_public_key(&p, SECRET).unwrap();
    assert_eq!(pk1, pk2);
    assert_eq!(pk1.len(), 35);
    for h in &pk1 {
        assert_eq!(h.len(), 20);
    }
    let other = sign::generate_public_key(&p, OTHER_SECRET).unwrap();
    assert_ne!(pk1, other);
}

#[test]
fn invalid_secret_is_reported() {
    let p = wots_hash_params();
    assert_eq!(
        sign::generate_public_key(&p, "zz00").unwrap_err(),
        WotsError::InvalidSecretEncoding
    );
    assert_eq!(
        sign::generate_public_key(&p, "abc").unwrap_err(),
        WotsError::InvalidSecretEncoding
    );
    assert_eq!(
        sign::get_signature(&p, "0g", &short_message()).unwrap_err(),
        WotsError::InvalidSecretEncoding
    );
    assert_eq!(
        compact::get_signature(&p, "0g", &short_message()).unwrap_err(),
        WotsError::InvalidSecretEncoding
    );
}

#[test]
fn wrong_message_length_is_reported() {
    let p = wots_hash_params();
    let msg: Vec<u8> = vec![1, 2, 3];
    assert_eq!(
        sign::get_signature(&p, SECRET, &msg).unwrap_err(),
        WotsError::MessageLengthMismatch
    );
    assert_eq!(
        compact::get_signature(&p, SECRET, &msg).unwrap_err(),
        WotsError::MessageLengthMismatch
    );
    // a long-instantiation message is refused by the short instantiation
    assert_eq!(
        sign::get_signature(&p, SECRET, &long_message()).unwrap_err(),
        WotsError::MessageLengthMismatch
    );
}

#[test]
fn signing_uses_the_hash_chain() {
    let p = wots_hash_params();
    let pk = sign::generate_public_key(&p, SECRET).unwrap();
    let msg = vec![0u8; 16];
    let sig = sign::get_signature(&p, SECRET, &msg).unwrap();
    // the first message digit of the all-zero message is 0, fifteen chain
    // steps below the commitment, so the two values must differ
    assert_eq!(sig[0].1, 0);
    assert_ne!(sig[0].0, pk[0]);
}

#[test]
fn verification_succeeds_on_honest_signature() {
    let p = wots_hash_params();
    let pk = sign::generate_public_key(&p, SECRET).unwrap();
    let sig = sign::get_signature(&p, SECRET, &short_message()).unwrap();
    let program = script::checksig_verify(&p, &pk);
    assert!(script::execute_checksig(&p, &program, &sig));
}

#[test]
fn verification_succeeds_long_instantiation() {
    let p = wots256_params();
    let pk = sign::generate_public_key(&p, SECRET).unwrap();
    let sig = sign::get_signature(&p, SECRET, &long_message()).unwrap();
    let program = script::checksig_verify(&p, &pk);
    assert!(script::execute_checksig(&p, &program, &sig));
}

#[test]
fn verification_fails_under_wrong_key() {
    let p = wots_hash_params();
    let pk = sign::generate_public_key(&p, OTHER_SECRET).unwrap();
    let sig = sign::get_signature(&p, SECRET, &short_message()).unwrap();
    let program = script::checksig_verify(&p, &pk);
    assert!(!script::execute_checksig(&p, &program, &sig));
}

#[test]
fn chain_value_bit_flip_fails_verification() {
    let p = wots_hash_params();
    let pk = sign::generate_public_key(&p, SECRET).unwrap();
    let program = script::checksig_verify(&p, &pk);
    for position in [0usize, 17, 34] {
        for bit in [0u8, 3, 7] {
            let mut sig = sign::get_signature(&p, SECRET, &short_message()).unwrap();
            sig[position].0[5] ^= 1 << bit;
            assert!(!script::execute_checksig(&p, &program, &sig));
        }
    }
}

#[test]
fn digit_value_bit_flip_fails_verification() {
    let p = wots_hash_params();
    let pk = sign::generate_public_key(&p, SECRET).unwrap();
    let program = script::checksig_verify(&p, &pk);
    for position in [0usize, 31, 32, 34] {
        for bit in [0u8, 2, 5, 7] {
            let mut sig = sign::get_signature(&p, SECRET, &short_message()).unwrap();
            sig[position].1 ^= 1 << bit;
            assert!(!script::execute_checksig(&p, &program, &sig));
        }
    }
}

#[test]
fn altered_message_digit_with_stale_checksum_fails() {
    let p = wots_hash_params();
    let pk = sign::generate_public_key(&p, SECRET).unwrap();
    let program = script::checksig_verify(&p, &pk);
    // a second message that differs in its first digit gives a chain/digit
    // pair that is self-consistent for the altered digit
    let msg = vec![0u8; 16];
    let mut msg2 = vec![0u8; 16];
    msg2[0] = 0x10;
    let sig = sign::get_signature(&p, SECRET, &msg).unwrap();
    let donor = sign::get_signature(&p, SECRET, &msg2).unwrap();
    let mut spliced = sig.clone();
    spliced[0] = donor[0].clone();
    assert_eq!(spliced[0].1, 1);
    // the chain pair at position 0 now verifies on its own, but the stored
    // checksum digits no longer match the message digits
    assert!(!script::execute_checksig(&p, &program, &spliced));
}

#[test]
fn full_round_trip() {
    let p = wots_hash_params();
    let sig = sign::get_signature(&p, SECRET, &short_message()).unwrap();
    let witness = codec::signature_to_raw_witness(&sig);
    let back = codec::raw_witness_to_signature(&p, &witness).unwrap();
    assert_eq!(back, sig);
}

#[test]
fn compact_round_trip() {
    let p = wots_hash_params();
    let sig = compact::get_signature(&p, SECRET, &short_message()).unwrap();
    let witness = compact::signature_to_raw_witness(&sig);
    let back = compact::raw_witness_to_signature(&p, &witness).unwrap();
    assert_eq!(back, sig);
}

#[test]
fn round_trip_long_instantiation() {
    let p = wots256_params();
    let sig = sign::get_signature(&p, SECRET, &long_message()).unwrap();
    let witness = codec::signature_to_raw_witness(&sig);
    let back = codec::raw_witness_to_signature(&p, &witness).unwrap();
    assert_eq!(back, sig);
}

#[test]
fn instantiation_isolation() {
    let short = wots_hash_params();
    let long = wots256_params();
    let sig = sign::get_signature(&short, SECRET, &short_message()).unwrap();
    let witness = codec::signature_to_raw_witness(&sig);
    assert_eq!(
        codec::raw_witness_to_signature(&long, &witness).unwrap_err(),
        WotsError::MalformedWitness
    );
    let sig_long = sign::get_signature(&long, SECRET, &long_message()).unwrap();
    let witness_long = codec::signature_to_raw_witness(&sig_long);
    assert_eq!(
        codec::raw_witness_to_signature(&short, &witness_long).unwrap_err(),
        WotsError::MalformedWitness
    );
    let csig = compact::get_signature(&short, SECRET, &short_message()).unwrap();
    let cwitness = compact::signature_to_raw_witness(&csig);
    assert_eq!(
        compact::raw_witness_to_signature(&long, &cwitness).unwrap_err(),
        WotsError::MalformedWitness
    );
}

#[test]
fn malformed_witness_group_sizes_are_refused() {
    let p = wots_hash_params();
    // right group count, but a chain group of 7 bytes
    let mut w = bitcoin::Witness::new();
    for _ in 0..p.total_digit_count {
        w.push([1u8; 7]);
        w.push([]);
    }
    assert_eq!(
        codec::raw_witness_to_signature(&p, &w).unwrap_err(),
        WotsError::MalformedWitness
    );
    // right group count, but a digit group of two bytes
    let mut w2 = bitcoin::Witness::new();
    for _ in 0..p.total_digit_count {
        w2.push([2u8; 20]);
        w2.push([1u8, 1u8]);
    }
    assert_eq!(
        codec::raw_witness_to_signature(&p, &w2).unwrap_err(),
        WotsError::MalformedWitness
    );
}

#[test]
fn empty_groups_decode_to_zero() {
    let p = wots_hash_params();
    let mut w = bitcoin::Witness::new();
    for _ in 0..2 * p.total_digit_count {
        w.push([]);
    }
    let sig = codec::raw_witness_to_signature(&p, &w).unwrap();
    assert_eq!(sig.len(), 35);
    for (chain_value, digit) in &sig {
        assert_eq!(chain_value, &vec![0u8; 20]);
        assert_eq!(*digit, 0);
    }
    let mut cw = bitcoin::Witness::new();
    for _ in 0..p.total_digit_count {
        cw.push([]);
    }
    let csig = compact::raw_witness_to_signature(&p, &cw).unwrap();
    assert_eq!(csig, vec![vec![0u8; 20]; 35]);
}

#[test]
fn minimal_digit_encoding() {
    assert_eq!(codec::u32_to_le_bytes_minimal(0), Vec::<u8>::new());
    assert_eq!(codec::u32_to_le_bytes_minimal(5), vec![5]);
    assert_eq!(codec::u32_to_le_bytes_minimal(255), vec![255]);
    assert_eq!(codec::u32_to_le_bytes_minimal(300), vec![44, 1]);
    let p = wots_hash_params();
    let sig = sign::get_signature(&p, SECRET, &short_message()).unwrap();
    let witness = codec::signature_to_raw_witness(&sig);
    // a zero digit occupies an empty group, any other digit one byte
    for (i, (_, digit)) in sig.iter().enumerate() {
        let group = witness.nth(2 * i + 1).unwrap();
        if *digit == 0 {
            assert_eq!(group.len(), 0);
        } else {
            assert_eq!(group, &[*digit][..]);
        }
    }
}

#[test]
fn compact_verification_succeeds() {
    let p = wots_hash_params();
    let pk = sign::generate_public_key(&p, SECRET).unwrap();
    let csig = compact::get_signature(&p, SECRET, &short_message()).unwrap();
    let program = compact::checksig_verify(&p, &pk);
    assert!(compact::execute_compact_checksig(&p, &program, &csig));
}

#[test]
fn compact_verification_fails_on_corruption() {
    let p = wots_hash_params();
    let pk = sign::generate_public_key(&p, SECRET).unwrap();
    let program = compact::checksig_verify(&p, &pk);
    let mut csig = compact::get_signature(&p, SECRET, &short_message()).unwrap();
    csig[3][4] ^= 0x20;
    assert!(!compact::execute_compact_checksig(&p, &program, &csig));
}

#[test]
fn compact_search_recovers_explicit_digits() {
    let p = wots_hash_params();
    let pk = sign::generate_public_key(&p, SECRET).unwrap();
    let full = sign::get_signature(&p, SECRET, &short_message()).unwrap();
    let csig = compact::get_signature(&p, SECRET, &short_message()).unwrap();
    for i in 0..csig.len() {
        let recovered = compact::recover_digit(&csig[i], &pk[i], 15);
        assert_eq!(recovered, Some(full[i].1));
        // the compact chain value is the full chain value
        assert_eq!(csig[i], full[i].0);
    }
}

#[test]
fn signature_scripts_carry_the_witness() {
    let p = wots_hash_params();
    let sig = sign::get_signature(&p, SECRET, &short_message()).unwrap();
    let full_script = sig.clone().to_script();
    assert_eq!(full_script.ops.len(), 70);
    let compact_script = sig.clone().to_compact_script();
    assert_eq!(compact_script.ops.len(), 35);
    match (&full_script.ops[0], &compact_script.ops[0]) {
        (script::ScriptOp::Push(a), script::ScriptOp::Push(b)) => {
            assert_eq!(a, &sig[0].0);
            assert_eq!(b, &sig[0].0);
        },
        _ => panic!("expected data pushes"),
    }
    match &full_script.ops[1] {
        script::ScriptOp::Push(d) => {
            assert_eq!(d.len(), usize::from(sig[0].1 != 0));
        },
        _ => panic!("expected a data push"),
    }
}

#[test]
fn emitted_programs_have_the_expected_shape() {
    let p = wots_hash_params();
    let pk = sign::generate_public_key(&p, SECRET).unwrap();
    let full = script::checksig_verify(&p, &pk);
    assert_eq!(full.ops.len(), 36);
    assert!(matches!(full.ops[35], script::ScriptOp::VerifyChecksum));
    match &full.ops[7] {
        script::ScriptOp::VerifyChain { position, commitment } => {
            assert_eq!(*position, 7);
            assert_eq!(commitment, &pk[7]);
        },
        _ => panic!("expected a chain check"),
    }
    let cp = compact::checksig_verify(&p, &pk);
    assert_eq!(cp.ops.len(), 36);
    match &cp.ops[7] {
        script::ScriptOp::RecoverDigit { position, commitment } => {
            assert_eq!(*position, 7);
            assert_eq!(commitment, &pk[7]);
        },
        _ => panic!("expected a digit recovery"),
    }
}

#[test]
fn program_serialization() {
    let p = wots_hash_params();
    let pk = sign::generate_public_key(&p, SECRET).unwrap();
    let program = script::checksig_verify(&p, &pk);
    let bytes = program.to_bytes();
    // instruction count, little-endian
    assert_eq!(&bytes[0..4], &[36, 0, 0, 0]);
    // first instruction: chain check at position 0 with a 20-byte commitment
    assert_eq!(bytes[4], 1);
    assert_eq!(&bytes[5..9], &[0, 0, 0, 0]);
    assert_eq!(&bytes[9..13], &[20, 0, 0, 0]);
    assert_eq!(&bytes[13..33], &pk[0][..]);
    // last instruction: the checksum check
    assert_eq!(*bytes.last().unwrap(), 3);
    // serialization is a function of the program alone
    let again = script::checksig_verify(&p, &pk).to_bytes();
    assert_eq!(bytes, again);
}
