use heirloom::data::{
    decode_token_shard_payload, encode_token_shard_payload, random_window_starts,
    sequential_window_starts, PreparedDataShard, PreparedDataSource, PreparedManifestFacts,
    ShardRead, StreamingTokenIndex, TokenDataset, TokenDatasetState, TokenShardDType,
};
use heirloom::TensorError;

fn shard(tokens: usize) -> PreparedDataShard {
    PreparedDataShard {
        split: "train".to_string(),
        metadata_path: "shard.json".to_string(),
        tokens,
        token_hash: "abc".to_string(),
    }
}

fn v2_manifest() -> PreparedManifestFacts {
    PreparedManifestFacts {
        format: "heirloom.token_dataset".to_string(),
        version: 2,
        storage: "binary_shards".to_string(),
        valid_fraction_in_range: true,
        train_tokens: 30,
        valid_tokens: 5,
        train_tokens_path: String::new(),
        valid_tokens_path: String::new(),
        train_hash: String::new(),
        valid_hash: String::new(),
        sources: vec![PreparedDataSource {
            source_id: "tiny".to_string(),
            path: "tiny.txt".to_string(),
            bytes: 10,
            hash: "h".to_string(),
            tokens: 35,
        }],
        train_shards: vec![shard(10), shard(20)],
        valid_shards: vec![shard(5)],
    }
}

#[test]
fn manifest_validation_follows_version_rules() {
    let manifest = v2_manifest();
    assert!(manifest.validate().is_ok());
    assert!(manifest.is_binary_sharded());

    let mut bad_total = v2_manifest();
    bad_total.train_tokens = 31;
    assert!(matches!(bad_total.validate(), Err(TensorError::InvalidOperation(_))));

    let mut bad_fraction = v2_manifest();
    bad_fraction.valid_fraction_in_range = false;
    assert!(bad_fraction.validate().is_err());

    let mut v1 = v2_manifest();
    v1.version = 1;
    assert!(v1.validate().is_err());
    v1.storage = "json".to_string();
    v1.train_tokens_path = "train.json".to_string();
    v1.valid_tokens_path = "valid.json".to_string();
    v1.train_hash = "t".to_string();
    assert!(v1.validate().is_err());
    v1.valid_hash = "v".to_string();
    assert!(v1.validate().is_ok());
    assert!(!v1.is_binary_sharded());

    let mut v3 = v2_manifest();
    v3.version = 3;
    assert!(v3.validate().is_err());
}

#[test]
fn streaming_index_splits_reads_across_shards() {
    let index = StreamingTokenIndex::new(&[4, 0, 3, 5], 2).unwrap();
    assert_eq!(index.len(), 12);
    assert_eq!(index.find_shard(3).unwrap(), 0);
    assert_eq!(index.find_shard(4).unwrap(), 2);
    assert_eq!(index.find_shard(11).unwrap(), 3);
    assert!(index.find_shard(12).is_err());
    assert_eq!(
        index.plan_reads(2, 7).unwrap(),
        vec![
            ShardRead { shard: 0, offset: 2, take: 2 },
            ShardRead { shard: 2, offset: 0, take: 3 },
            ShardRead { shard: 3, offset: 0, take: 2 },
        ]
    );
    assert!(index.plan_reads(0, 0).unwrap().is_empty());
    assert!(index.plan_reads(10, 3).is_err());
    assert!(StreamingTokenIndex::new(&[2], 2).is_err());
    assert!(StreamingTokenIndex::new(&[5], 0).is_err());
    assert!(StreamingTokenIndex::new(&[usize::MAX, 1], 1).is_err());
}

#[test]
fn sequential_windows_stop_at_the_split_end() {
    assert_eq!(sequential_window_starts(10, 3, 0, 5).unwrap(), Some(vec![0, 3, 6]));
    assert_eq!(sequential_window_starts(10, 3, 1, 2).unwrap(), Some(vec![1, 4]));
    assert_eq!(sequential_window_starts(10, 3, 7, 2).unwrap(), None);
    assert!(sequential_window_starts(10, 3, 0, 0).is_err());
}

#[test]
fn shard_payload_roundtrips() {
    let tokens = vec![0usize, 1, 255, 256, 65_535];
    let payload = encode_token_shard_payload(&tokens, TokenShardDType::U16).unwrap();
    assert_eq!(payload.len(), 10);
    assert_eq!(&payload[4..8], &[255, 0, 0, 1]);
    assert_eq!(decode_token_shard_payload(&payload, TokenShardDType::U16).unwrap(), tokens);
    assert!(encode_token_shard_payload(&[65_536], TokenShardDType::U16).is_err());
    let wide = encode_token_shard_payload(&[70_000], TokenShardDType::U32).unwrap();
    assert_eq!(decode_token_shard_payload(&wide, TokenShardDType::U32).unwrap(), vec![70_000]);
    assert_eq!(TokenShardDType::for_tokens(&[1, 70_000]).unwrap(), TokenShardDType::U32);
}

#[test]
fn resumed_dataset_draws_the_same_batches() {
    let tokens: Vec<usize> = (0..64).collect();
    let mut original = TokenDataset::new(tokens.clone(), 4, 99).unwrap();
    original.next_batch(3).unwrap();
    let saved = original.state();
    let mut resumed = TokenDataset::with_state(tokens, 4, saved).unwrap();
    let a = original.next_batch(3).unwrap();
    let b = resumed.next_batch(3).unwrap();
    assert_eq!(a.inputs, b.inputs);
    assert_eq!(a.targets, b.targets);
    assert_eq!(original.state(), resumed.state());
}

#[test]
fn dataset_windows_follow_the_generator_draws() {
    let tokens: Vec<usize> = (100..140).collect();
    let mut dataset = TokenDataset::new(tokens.clone(), 3, 7).unwrap();
    let state = dataset.state();
    let (starts, next) = random_window_starts(state.rng_state, 2, tokens.len() - 3 - 1);
    let batch = dataset.next_batch(2).unwrap();
    for (b, &start) in starts.iter().enumerate() {
        for o in 0..3 {
            assert_eq!(batch.inputs[b * 3 + o], tokens[start + o] as i64);
            assert_eq!(batch.targets[b * 3 + o], tokens[start + o + 1] as i64);
        }
    }
    assert_eq!(dataset.state(), TokenDatasetState { rng_state: next, batches_seen: 1 });
    let (zeros, same) = random_window_starts(5, 3, 0);
    assert_eq!(zeros, vec![0, 0, 0]);
    assert_eq!(same, 5);
}

#[test]
fn manifest_refusals_carry_the_values() {
    let mut bad_total = v2_manifest();
    bad_total.train_tokens = 31;
    assert_eq!(
        bad_total.validate().unwrap_err().message(),
        "dataset manifest v2 shard token counts do not match split totals: \
         train_shards=30 train_total=31 valid_shards=5 valid_total=5"
    );

    let mut empty = v2_manifest();
    empty.valid_tokens = 0;
    assert_eq!(
        empty.validate().unwrap_err().message(),
        "prepared dataset must have non-empty train and valid splits, got train=30 valid=0"
    );

    let mut v2_json = v2_manifest();
    v2_json.storage = "json".to_string();
    assert_eq!(
        v2_json.validate().unwrap_err().message(),
        "dataset manifest v2 storage must be \"binary_shards\", got \"json\""
    );

    let mut v1 = v2_manifest();
    v1.version = 1;
    assert_eq!(
        v1.validate().unwrap_err().message(),
        "dataset manifest v1 storage must be \"json\", got \"binary_shards\""
    );
}

#[test]
fn token_refusals_carry_the_values() {
    let err = encode_token_shard_payload(&[1, 70000, 80000], TokenShardDType::U16).unwrap_err();
    assert_eq!(err.message(), "token id 70000 exceeds U16 token shard limit");
    let err = heirloom::data::validate_loaded_tokens("valid", &[1, 2, 3], 4, "0000").unwrap_err();
    let hash = heirloom::hash::stable_hash_tokens(&[1, 2, 3]);
    assert_eq!(err.message(), format!("valid token file mismatch: expected len/hash=4/0000, got 3/{hash}"));
}
