use rinku_node::erasure::{
    compress_da_payload, compute_merkle_proof, compute_merkle_root, compute_shard_params, decode,
    decompress_da_payload, encode, verify_merkle_proof, DaError, DaShard,
};
use rinku_node::hashing::sha256_hex;

#[test]
fn test_encode_decode_roundtrip() {
    let data = b"Hello, Rinku erasure coding! This is test data for the DA layer.";
    let (commitment, shards) = encode(data, 2, 1).unwrap();

    assert_eq!(commitment.data_shard_count, 2);
    assert_eq!(commitment.parity_shard_count, 1);
    assert_eq!(commitment.original_size, data.len());
    assert_eq!(shards.len(), 3);

    let all_shards: Vec<Option<DaShard>> = shards.into_iter().map(Some).collect();
    let recovered = decode(&commitment, &all_shards).unwrap();
    assert_eq!(recovered, data);
}

#[test]
fn test_decode_with_missing_parity() {
    let data = b"Testing reconstruction with missing parity shard.";
    let (commitment, shards) = encode(data, 2, 1).unwrap();

    let partial: Vec<Option<DaShard>> = vec![Some(shards[0].clone()), Some(shards[1].clone()), None];
    let recovered = decode(&commitment, &partial).unwrap();
    assert_eq!(recovered, data);
}

#[test]
fn test_decode_with_missing_data_shard() {
    let data = b"Testing reconstruction with one data shard missing.";
    let (commitment, shards) = encode(data, 2, 1).unwrap();

    let partial: Vec<Option<DaShard>> = vec![None, Some(shards[1].clone()), Some(shards[2].clone())];
    let recovered = decode(&commitment, &partial).unwrap();
    assert_eq!(recovered, data);
}

#[test]
fn test_insufficient_shards_fails() {
    let data = b"Not enough shards to reconstruct.";
    let (commitment, shards) = encode(data, 2, 1).unwrap();

    let partial: Vec<Option<DaShard>> = vec![Some(shards[0].clone()), None, None];
    assert!(decode(&commitment, &partial).is_err());
}

#[test]
fn test_merkle_proof_verification() {
    let leaves: Vec<String> = (0..4).map(|i| sha256_hex(format!("leaf_{}", i).as_bytes())).collect();
    let root = compute_merkle_root(&leaves);

    for (i, leaf) in leaves.iter().enumerate() {
        let proof = compute_merkle_proof(&leaves, i);
        assert!(verify_merkle_proof(&root, leaf, i, &proof, leaves.len()));
    }

    let bad_leaf = sha256_hex(b"bad");
    let proof = compute_merkle_proof(&leaves, 0);
    assert!(!verify_merkle_proof(&root, &bad_leaf, 0, &proof, leaves.len()));
}

#[test]
fn test_shard_params() {
    assert_eq!(compute_shard_params(3), (2, 1));
    assert_eq!(compute_shard_params(5), (3, 2));
    assert_eq!(compute_shard_params(7), (4, 3));
}

#[test]
fn test_tampered_shard_rejected() {
    let data = b"Tamper detection test data for merkle verification.";
    let (commitment, mut shards) = encode(data, 2, 1).unwrap();

    shards[0].data = base64::Engine::encode(
        &base64::engine::general_purpose::STANDARD,
        b"tampered data that is padded out to correct size!!",
    );

    let all_shards: Vec<Option<DaShard>> = shards.into_iter().map(Some).collect();
    assert!(decode(&commitment, &all_shards).is_err());
}

#[test]
fn test_large_payload() {
    let data: Vec<u8> = (0..250_000u32).flat_map(|i| i.to_le_bytes()).collect();
    let (commitment, shards) = encode(&data, 2, 1).unwrap();
    assert!(commitment.original_size == data.len());

    let partial: Vec<Option<DaShard>> = vec![Some(shards[0].clone()), None, Some(shards[2].clone())];
    let recovered = decode(&commitment, &partial).unwrap();
    assert_eq!(recovered, data);
}

#[test]
fn test_empty_data_rejected() {
    assert!(encode(b"", 2, 1).is_err());
}

#[test]
fn test_five_validator_setup() {
    let data = b"Five validator erasure coding test with 3+2 shards.";
    let (k, m) = compute_shard_params(5);
    assert_eq!(k, 3);
    assert_eq!(m, 2);

    let (commitment, shards) = encode(data, k, m).unwrap();
    assert_eq!(shards.len(), 5);

    let partial: Vec<Option<DaShard>> = vec![
        Some(shards[0].clone()),
        None,
        Some(shards[2].clone()),
        None,
        Some(shards[4].clone()),
    ];
    let recovered = decode(&commitment, &partial).unwrap();
    assert_eq!(recovered, data);
}

#[test]
fn encode_error_variants() {
    assert_eq!(encode(b"", 2, 1).unwrap_err(), DaError::EmptyData);
    assert_eq!(encode(b"abc", 40, 40).unwrap_err(), DaError::TooManyShards);
    assert_eq!(encode(b"abc", usize::MAX, 1).unwrap_err(), DaError::TooManyShards);
    assert_eq!(encode(b"abc", 0, 1).unwrap_err(), DaError::ZeroShardCount);
    assert_eq!(encode(b"abc", 2, 0).unwrap_err(), DaError::ZeroShardCount);
    let big = vec![7u8; 4 * 1024 * 1024 + 1];
    assert_eq!(encode(&big, 1, 1).unwrap_err(), DaError::ShardTooLarge);
}

#[test]
fn encode_layout_and_padding() {
    // 5 bytes over 2 data shards: shards of 3 bytes, the second zero-padded.
    let data = b"abcde";
    let (c, shards) = encode(data, 2, 2).unwrap();
    assert_eq!(c.original_size, 5);
    assert!(!c.compressed);
    assert_eq!(c.uncompressed_size, 0);
    let s0 = base64::Engine::decode(&base64::engine::general_purpose::STANDARD, &shards[0].data).unwrap();
    let s1 = base64::Engine::decode(&base64::engine::general_purpose::STANDARD, &shards[1].data).unwrap();
    assert_eq!(s0, b"abc".to_vec());
    assert_eq!(s1, vec![b'd', b'e', 0]);
    for (i, sh) in shards.iter().enumerate() {
        assert_eq!(sh.index, i);
        let bytes = base64::Engine::decode(&base64::engine::general_purpose::STANDARD, &sh.data).unwrap();
        assert_eq!(bytes.len(), 3);
        let leaf = sha256_hex(&bytes);
        assert!(verify_merkle_proof(&c.merkle_root, &leaf, i, &sh.merkle_proof, 4));
    }
    // Parity is not a copy of the data.
    let p0 = base64::Engine::decode(&base64::engine::general_purpose::STANDARD, &shards[2].data).unwrap();
    assert_ne!(p0, s0);
}

#[test]
fn decode_error_variants() {
    let data = b"error variants of decoding";
    let (c, shards) = encode(data, 2, 1).unwrap();
    let all: Vec<Option<DaShard>> = shards.iter().cloned().map(Some).collect();

    assert_eq!(decode(&c, &all[..2]).unwrap_err(), DaError::ShardCountMismatch);

    let mut bad_index = all.clone();
    bad_index[1].as_mut().unwrap().index = 9;
    assert_eq!(decode(&c, &bad_index).unwrap_err(), DaError::ShardIndexOutOfRange(9));

    let mut bad_text = all.clone();
    bad_text[0].as_mut().unwrap().data = "not base64!".to_string();
    assert_eq!(decode(&c, &bad_text).unwrap_err(), DaError::InvalidBase64(0));

    let mut short = all.clone();
    short[2].as_mut().unwrap().data =
        base64::Engine::encode(&base64::engine::general_purpose::STANDARD, b"xy");
    assert_eq!(decode(&c, &short).unwrap_err(), DaError::ShardSizeMismatch(2));

    let mut swapped = all.clone();
    swapped[0].as_mut().unwrap().merkle_proof = shards[1].merkle_proof.clone();
    assert_eq!(decode(&c, &swapped).unwrap_err(), DaError::MerkleProofFailed(0));

    let mut too_many = c.clone();
    too_many.data_shard_count = 60;
    too_many.parity_shard_count = 10;
    assert_eq!(decode(&too_many, &all).unwrap_err(), DaError::TooManyShards);

    let mut zero = c.clone();
    zero.parity_shard_count = 0;
    assert_eq!(decode(&zero, &all[..2]).unwrap_err(), DaError::ZeroShardCount);

    let mut huge = c.clone();
    huge.original_size = 64 * 1024 * 1024 + 1;
    assert_eq!(decode(&huge, &all).unwrap_err(), DaError::DataTooLarge);

    let none: Vec<Option<DaShard>> = vec![None, Some(shards[1].clone()), None];
    assert_eq!(decode(&c, &none).unwrap_err(), DaError::InsufficientShards);
}

#[test]
fn decode_any_two_of_three() {
    let data = b"any two shards out of three rebuild the payload";
    let (c, shards) = encode(data, 2, 1).unwrap();
    for missing in 0..3 {
        let partial: Vec<Option<DaShard>> =
            (0..3).map(|i| if i == missing { None } else { Some(shards[i].clone()) }).collect();
        assert_eq!(decode(&c, &partial).unwrap(), data.to_vec());
    }
}

#[test]
fn compression_roundtrip() {
    let payload: Vec<u8> = (0..5000u32).map(|i| (i % 17) as u8).collect();
    let packed = compress_da_payload(&payload).unwrap();
    assert!(packed.len() < payload.len());
    assert_eq!(decompress_da_payload(&packed, payload.len()).unwrap(), payload);
}

#[test]
fn decompression_errors() {
    let payload = b"some payload bytes".to_vec();
    let packed = compress_da_payload(&payload).unwrap();
    assert_eq!(decompress_da_payload(&packed, 0).unwrap_err(), DaError::InvalidUncompressedSize);
    assert_eq!(
        decompress_da_payload(&packed, 32 * 1024 * 1024 + 1).unwrap_err(),
        DaError::InvalidUncompressedSize
    );
    assert_eq!(
        decompress_da_payload(&packed, payload.len() + 1).unwrap_err(),
        DaError::DecompressedSizeMismatch
    );
    assert_eq!(
        decompress_da_payload(&[0xff, 0xff, 0xff], 10).unwrap_err(),
        DaError::DecompressionFailed
    );
}
