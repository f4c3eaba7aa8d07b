use rinku_node::bls::{
    aggregate_public_keys, aggregate_signatures, bls_keypair_from_material, bls_get_public_key, bls_sign, bls_verify,
    checked_verify_aggregated_checkpoint_signature, compute_bls_fingerprint,
    create_aggregated_checkpoint_signature, create_signer_bitmap, public_keys_summable,
    generate_bls_keypair, parse_signer_bitmap, verify_aggregated_checkpoint_signature,
    verify_aggregated_signature, BlsError,
};
use rinku_node::consensus::{Vote, VoteType};

#[test]
fn test_keypair_generation() {
    let keypair = generate_bls_keypair();
    assert_eq!(keypair.public_key.len(), 48);
    assert_eq!(keypair.private_key.len(), 32);
    assert_eq!(keypair.fingerprint.len(), 40);
}

#[test]
fn test_sign_and_verify() {
    let keypair = generate_bls_keypair();
    let message = b"Hello, Rinku!";

    let signature = bls_sign(message, &keypair.private_key).unwrap();
    assert!(bls_verify(message, &signature, &keypair.public_key));

    let wrong_message = b"Wrong message";
    assert!(!bls_verify(wrong_message, &signature, &keypair.public_key));
}

#[test]
fn test_signature_aggregation() {
    let keypair1 = generate_bls_keypair();
    let keypair2 = generate_bls_keypair();
    let keypair3 = generate_bls_keypair();

    let message = b"Checkpoint data";

    let sig1 = bls_sign(message, &keypair1.private_key).unwrap();
    let sig2 = bls_sign(message, &keypair2.private_key).unwrap();
    let sig3 = bls_sign(message, &keypair3.private_key).unwrap();

    let agg_sig = aggregate_signatures(&[sig1, sig2, sig3]).unwrap();

    let pub_keys = vec![
        keypair1.public_key.clone(),
        keypair2.public_key.clone(),
        keypair3.public_key.clone(),
    ];

    assert!(verify_aggregated_signature(message, &agg_sig, &pub_keys));
}

#[test]
fn test_signer_bitmap() {
    let indices = vec![0, 2, 5, 7];
    let total = 10;

    let bitmap = create_signer_bitmap(&indices, total);
    let parsed = parse_signer_bitmap(&bitmap, total);

    assert_eq!(parsed, indices);
}

#[test]
fn test_bls_sign_and_verify_real_keys() {
    let keypair = generate_bls_keypair();
    let message = b"checkpoint_hash_12345";

    let signature = bls_sign(message, &keypair.private_key).expect("BLS signing should succeed");

    assert!(!signature.is_empty(), "Signature should not be empty");
    assert!(
        bls_verify(message, &signature, &keypair.public_key),
        "Signature verification should succeed with correct key"
    );
}

#[test]
fn test_bls_verify_rejects_wrong_key() {
    let keypair1 = generate_bls_keypair();
    let keypair2 = generate_bls_keypair();
    let message = b"checkpoint_hash_12345";

    let signature = bls_sign(message, &keypair1.private_key).expect("BLS signing should succeed");

    assert!(
        !bls_verify(message, &signature, &keypair2.public_key),
        "Verification should fail with wrong public key"
    );
}

#[test]
fn test_bls_verify_rejects_tampered_message() {
    let keypair = generate_bls_keypair();
    let message = b"checkpoint_hash_12345";
    let tampered = b"checkpoint_hash_67890";

    let signature = bls_sign(message, &keypair.private_key).expect("BLS signing should succeed");

    assert!(
        !bls_verify(tampered, &signature, &keypair.public_key),
        "Verification should fail with tampered message"
    );
}

#[test]
fn test_bls_aggregate_signatures() {
    let keypair1 = generate_bls_keypair();
    let keypair2 = generate_bls_keypair();
    let keypair3 = generate_bls_keypair();
    let message = b"checkpoint_hash_for_aggregation";

    let sig1 = bls_sign(message, &keypair1.private_key).unwrap();
    let sig2 = bls_sign(message, &keypair2.private_key).unwrap();
    let sig3 = bls_sign(message, &keypair3.private_key).unwrap();

    let aggregated = aggregate_signatures(&[sig1, sig2, sig3]).expect("Aggregation should succeed");

    let public_keys = vec![keypair1.public_key, keypair2.public_key, keypair3.public_key];

    assert!(
        verify_aggregated_signature(message, &aggregated, &public_keys),
        "Aggregated signature should verify with all public keys"
    );
}

#[test]
fn test_bls_aggregate_rejects_missing_signer() {
    let keypair1 = generate_bls_keypair();
    let keypair2 = generate_bls_keypair();
    let keypair3 = generate_bls_keypair();
    let message = b"checkpoint_hash_for_aggregation";

    let sig1 = bls_sign(message, &keypair1.private_key).unwrap();
    let sig2 = bls_sign(message, &keypair2.private_key).unwrap();

    let aggregated = aggregate_signatures(&[sig1, sig2]).expect("Aggregation should succeed");

    let public_keys = vec![keypair1.public_key, keypair2.public_key, keypair3.public_key];

    assert!(
        !verify_aggregated_signature(message, &aggregated, &public_keys),
        "Aggregated signature should fail if signer is missing"
    );
}

#[test]
fn test_vote_with_real_bls_signature() {
    let keypair = generate_bls_keypair();
    let vote = Vote {
        validator: "validator_001".to_string(),
        vote_type: VoteType::Commit,
        checkpoint_height: 100,
        checkpoint_hash: "abcdef123456".to_string(),
        signature: vec![],
        timestamp: 1000,
    };

    let message = vote.message();
    let signature = bls_sign(&message, &keypair.private_key).unwrap();

    assert!(bls_verify(&message, &signature, &keypair.public_key), "Vote signature should verify");
}

#[test]
fn public_key_and_fingerprint_agree_with_keypair() {
    let keypair = generate_bls_keypair();
    assert_eq!(bls_get_public_key(&keypair.private_key).unwrap(), keypair.public_key);
    assert_eq!(compute_bls_fingerprint(&keypair.public_key), keypair.fingerprint);
    // SHA-256("abc") starts with ba7816bf8f01cfea414140de5dae2223b00361a3.
    assert_eq!(compute_bls_fingerprint(b"abc"), "ba7816bf8f01cfea414140de5dae2223b00361a3");
}

#[test]
fn bls_error_variants() {
    assert_eq!(bls_sign(b"m", &[1, 2, 3]).unwrap_err(), BlsError::InvalidPrivateKey);
    assert_eq!(bls_get_public_key(&[]).unwrap_err(), BlsError::InvalidPrivateKey);
    assert_eq!(aggregate_signatures(&[]).unwrap_err(), BlsError::NoSignatures);
    assert_eq!(aggregate_signatures(&[vec![1, 2, 3]]).unwrap_err(), BlsError::InvalidSignature);
    assert_eq!(aggregate_public_keys(&[]).unwrap_err(), BlsError::NoPublicKeys);
    assert_eq!(aggregate_public_keys(&[vec![9; 48]]).unwrap_err(), BlsError::InvalidPublicKey);
    assert!(!bls_verify(b"m", &[0u8; 96], &[0u8; 48]));
    assert!(!verify_aggregated_signature(b"m", &[0u8; 96], &[]));
}

#[test]
fn signer_bitmap_ignores_out_of_range_indices() {
    let bitmap = create_signer_bitmap(&[1, 3, 12, 3], 10);
    assert_eq!(bitmap, vec![0b0000_1010, 0]);
    assert_eq!(parse_signer_bitmap(&bitmap, 10), vec![1, 3]);
    assert_eq!(parse_signer_bitmap(&bitmap, 2), vec![1]);
    assert_eq!(parse_signer_bitmap(&[0xff], 12), vec![0, 1, 2, 3, 4, 5, 6, 7]);
}

#[test]
fn aggregated_checkpoint_signature_roundtrip() {
    let keys: Vec<_> = (0..4).map(|_| generate_bls_keypair()).collect();
    let hash = b"checkpoint-hash";
    let signers: Vec<(usize, Vec<u8>)> = vec![(0, keys[0].private_key.clone()), (2, keys[2].private_key.clone())];
    let agg = create_aggregated_checkpoint_signature(hash, &signers).unwrap();
    assert_eq!(agg.signer_count, 2);
    assert_eq!(agg.signer_bitmap, vec![0b0000_0101]);
    let pks: Vec<Vec<u8>> = keys.iter().map(|k| k.public_key.clone()).collect();
    assert!(verify_aggregated_checkpoint_signature(hash, &agg.signature, &agg.signer_bitmap, &pks));
    assert!(!verify_aggregated_checkpoint_signature(b"other", &agg.signature, &agg.signer_bitmap, &pks));
    assert!(!verify_aggregated_checkpoint_signature(hash, &agg.signature, &[0b0000_0111], &pks));
    assert!(!verify_aggregated_checkpoint_signature(hash, &agg.signature, &[0], &pks));
    assert_eq!(
        create_aggregated_checkpoint_signature(hash, &[]).unwrap_err(),
        BlsError::NoValidators
    );
    assert_eq!(
        create_aggregated_checkpoint_signature(hash, &[(0, vec![0u8; 5])]).unwrap_err(),
        BlsError::InvalidPrivateKey
    );
}

#[test]
fn keys_failing_the_group_check_are_reported() {
    let a = generate_bls_keypair();
    let b = generate_bls_keypair();
    let mut infinity = vec![0u8; 48];
    infinity[0] = 0xc0;
    assert!(public_keys_summable(&[a.public_key.clone()]));
    assert!(public_keys_summable(&[a.public_key.clone(), b.public_key.clone()]));
    assert!(!public_keys_summable(&[a.public_key.clone(), infinity.clone()]));
    assert!(public_keys_summable(&[infinity.clone(), a.public_key.clone()]));
    assert!(public_keys_summable(&[vec![9; 48], infinity.clone()]));
    assert!(public_keys_summable(&[]));

    let hash = b"checkpoint";
    let agg = create_aggregated_checkpoint_signature(hash, &[(0, a.private_key.clone()), (1, b.private_key.clone())])
        .unwrap();
    let pks = vec![a.public_key.clone(), b.public_key.clone()];
    assert_eq!(checked_verify_aggregated_checkpoint_signature(hash, &agg.signature, &agg.signer_bitmap, &pks), Some(true));
    assert_eq!(checked_verify_aggregated_checkpoint_signature(b"other", &agg.signature, &agg.signer_bitmap, &pks), Some(false));
    let bad = vec![a.public_key.clone(), infinity.clone()];
    assert_eq!(checked_verify_aggregated_checkpoint_signature(hash, &agg.signature, &agg.signer_bitmap, &bad), None);
    assert_eq!(checked_verify_aggregated_checkpoint_signature(hash, &agg.signature, &[0b01], &bad), Some(false));
}

#[test]
fn signatures_are_ninety_six_bytes_and_garbage_never_verifies() {
    let kp = generate_bls_keypair();
    let sig = bls_sign(b"msg", &kp.private_key).unwrap();
    assert_eq!(sig.len(), 96);
    assert_eq!(kp.public_key.len(), 48);
    assert!(bls_verify(b"msg", &sig, &kp.public_key));
    assert!(!bls_verify(b"msg", &sig[..95], &kp.public_key));
    assert!(!bls_verify(b"msg", &sig, &kp.public_key[..47]));
    assert!(!bls_verify(b"msg", &[], &[]));
}

#[test]
fn aggregate_of_honest_signatures_verifies_in_any_key_order() {
    let kps: Vec<_> = (0..3).map(|_| generate_bls_keypair()).collect();
    let m = b"ordered";
    let sigs: Vec<Vec<u8>> = kps.iter().map(|k| bls_sign(m, &k.private_key).unwrap()).collect();
    let agg = aggregate_signatures(&sigs).unwrap();
    let reversed: Vec<Vec<u8>> = kps.iter().rev().map(|k| k.public_key.clone()).collect();
    assert!(verify_aggregated_signature(m, &agg, &reversed));
    let partial = aggregate_signatures(&sigs[1..]).unwrap();
    assert!(!verify_aggregated_signature(m, &partial, &reversed));
}

#[test]
fn checkpoint_signature_of_unordered_validators_verifies() {
    let keys: Vec<_> = (0..5).map(|_| generate_bls_keypair()).collect();
    let hash = b"unordered";
    let signers: Vec<(usize, Vec<u8>)> = vec![
        (4, keys[4].private_key.clone()),
        (1, keys[1].private_key.clone()),
        (3, keys[3].private_key.clone()),
    ];
    let agg = create_aggregated_checkpoint_signature(hash, &signers).unwrap();
    assert_eq!(agg.signer_count, 3);
    assert_eq!(agg.signer_bitmap, vec![0b0001_1010]);
    assert_eq!(agg.signature.len(), 96);
    let pks: Vec<Vec<u8>> = keys.iter().map(|k| k.public_key.clone()).collect();
    assert!(verify_aggregated_checkpoint_signature(hash, &agg.signature, &agg.signer_bitmap, &pks));
}

#[test]
fn key_pair_from_material_is_deterministic() {
    let a = bls_keypair_from_material(&[7u8; 32]);
    let b = bls_keypair_from_material(&[7u8; 32]);
    let c = bls_keypair_from_material(&[8u8; 32]);
    assert_eq!(a.private_key, b.private_key);
    assert_eq!(a.public_key, b.public_key);
    assert_eq!(a.fingerprint, b.fingerprint);
    assert_ne!(a.private_key, c.private_key);
    assert_eq!(a.private_key.len(), 32);
    assert_eq!(bls_get_public_key(&a.private_key).unwrap(), a.public_key);
    assert_eq!(compute_bls_fingerprint(&a.public_key), a.fingerprint);
    let sig = bls_sign(b"m", &a.private_key).unwrap();
    assert!(bls_verify(b"m", &sig, &a.public_key));
}
