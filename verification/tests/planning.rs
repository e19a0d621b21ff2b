use heirloom::data::{
    blend_counts, check_shard_matches, validate_corpus_blend, BlendSourceFacts, PreparedDataShard,
    TokenShardDType, TokenShardMetadata,
};
use heirloom::dispatch::{plan_broadcast, plan_matmul, MatmulBatchRange};
use heirloom::nn::{
    attention_tensor_core_dims, child_module_name, linear_coverage_record, plan_linear_amp_bf16,
    CausalAttentionDims,
};
use heirloom::{DType, Device, TensorError};

fn source(id: &str, weight_ok: bool, has_path: bool, hash: bool) -> BlendSourceFacts {
    BlendSourceFacts {
        source_id: id.to_string(),
        sampling_weight_ok: weight_ok,
        sampling_weight_text: if weight_ok { "1".to_string() } else { "-0.5".to_string() },
        has_path,
        has_content_hash: hash,
        local_records: if has_path { Some(10) } else { None },
        local_bytes: if has_path { Some(1000) } else { None },
    }
}

#[test]
fn matmul_plan_broadcasts_batches_and_reads_matrix_ranges() {
    let plan = plan_matmul(&[2, 1, 3, 4], &[5, 4, 6], 2 * 3 * 4, 5 * 4 * 6).unwrap();
    assert_eq!(plan.batch_shape, vec![2, 5]);
    assert_eq!((plan.m, plan.k, plan.n), (3, 4, 6));
    assert_eq!(plan.output_len, 2 * 5 * 3 * 6);
    assert_eq!(plan.output_shape, vec![2, 5, 3, 6]);
    assert_eq!(plan.batches.len(), 10);
    assert_eq!(
        plan.batches[6],
        MatmulBatchRange { left_start: 12, left_end: 24, right_start: 24, right_end: 48 }
    );
    assert!(matches!(plan_matmul(&[3], &[3, 2], 3, 6), Err(TensorError::Shape(_))));
    assert!(matches!(plan_matmul(&[2, 3], &[4, 2], 6, 8), Err(TensorError::Shape(_))));
    assert!(matches!(plan_matmul(&[2, 2, 3], &[3, 3, 4], 12, 36), Err(TensorError::Shape(_))));
    assert!(plan_matmul(&[2, 3], &[3, 4], 5, 12).is_err());
    let plain = plan_matmul(&[2, 3], &[3, 4], 6, 12).unwrap();
    assert!(plain.batch_shape.is_empty());
    assert_eq!(plain.batches, vec![MatmulBatchRange { left_start: 0, left_end: 6, right_start: 0, right_end: 12 }]);
}

#[test]
fn broadcast_plan_maps_outputs_to_inputs() {
    let plan = plan_broadcast(&[2, 1], &[3]).unwrap();
    assert_eq!(plan.shape, vec![2, 3]);
    assert_eq!(plan.sources, vec![(0, 0), (0, 1), (0, 2), (1, 0), (1, 1), (1, 2)]);
    assert_eq!(plan.indices[4], vec![1, 1]);
    assert!(plan_broadcast(&[2], &[3]).is_err());
    let scalar = plan_broadcast(&[], &[]).unwrap();
    assert_eq!(scalar.sources, vec![(0, 0)]);
    assert!(plan_broadcast(&[0, 3], &[3]).unwrap().sources.is_empty());
}

#[test]
fn linear_amp_plan_follows_fallback_order() {
    let plan = plan_linear_amp_bf16(&[4, 8, 16], 512, 16, 32, Device::Cuda(0), DType::F32, DType::F32, DType::F32, true, true, true, true).unwrap();
    assert_eq!(plan.outer, 32);
    assert!(plan.use_tensor_core && plan.fused_bias);
    assert_eq!(plan.kernel_path, "cuda_tensor_core_bf16_rhs_t_cp_async_bias_fused");
    assert_eq!(plan.fallback_reason, None);
    assert_eq!(plan.output_shape, vec![4, 8, 32]);

    let unfused = plan_linear_amp_bf16(&[2, 16], 32, 16, 8, Device::Cuda(1), DType::F32, DType::F32, DType::F32, true, true, false, true).unwrap();
    assert_eq!(unfused.kernel_path, "cuda_tensor_core_bf16_rhs_t");

    let cpu = plan_linear_amp_bf16(&[2, 16], 32, 16, 8, Device::Cpu, DType::F32, DType::F32, DType::F32, true, true, true, true).unwrap();
    assert_eq!(cpu.kernel_path, "fallback_linear_forward");
    assert_eq!(cpu.fallback_reason, Some("unsupported_device"));
    let shape = plan_linear_amp_bf16(&[2, 16], 32, 16, 8, Device::Cuda(0), DType::F32, DType::F32, DType::F32, false, true, true, true).unwrap();
    assert_eq!(shape.fallback_reason, Some("unsupported_shape"));
    let dtype = plan_linear_amp_bf16(&[2, 16], 32, 16, 8, Device::Cuda(0), DType::BFloat16, DType::F32, DType::F32, true, true, true, true).unwrap();
    assert_eq!(dtype.fallback_reason, Some("dtype_mismatch"));
    let record = linear_coverage_record("lm_head", &dtype, 16, 8, Device::Cuda(0), DType::BFloat16, DType::F32, DType::F32);
    assert_eq!((record.m, record.k, record.n), (2, 16, 8));
    assert!(!record.used_tensor_core);

    assert!(matches!(plan_linear_amp_bf16(&[], 1, 16, 8, Device::Cpu, DType::F32, DType::F32, DType::F32, true, true, true, true), Err(TensorError::Shape(_))));
    assert!(plan_linear_amp_bf16(&[2, 15], 30, 16, 8, Device::Cpu, DType::F32, DType::F32, DType::F32, true, true, true, true).is_err());
}

#[test]
fn attention_dims_and_module_names() {
    assert_eq!(
        attention_tensor_core_dims(&[2, 16, 64], 4),
        Some(CausalAttentionDims { batch: 2, time: 16, channels: 64, n_heads: 4 })
    );
    assert_eq!(attention_tensor_core_dims(&[2, 16, 64], 3), None);
    assert_eq!(attention_tensor_core_dims(&[16, 64], 4), None);
    assert_eq!(attention_tensor_core_dims(&[2, 16, 64], 0), None);
    assert_eq!(child_module_name("", "lm_head"), "lm_head");
    assert_eq!(child_module_name("block.3", "attention"), "block.3.attention");
}

#[test]
fn corpus_blend_validation_and_counts() {
    let sources = vec![source("dolma", true, false, false), source("local.traces", true, true, true)];
    assert!(validate_corpus_blend("heirloom.corpus_blend", 1, &sources).is_ok());
    assert!(validate_corpus_blend("other", 1, &sources).is_err());
    assert!(validate_corpus_blend("heirloom.corpus_blend", 2, &sources).is_err());
    assert!(validate_corpus_blend("heirloom.corpus_blend", 1, &[]).is_err());
    let dup = vec![source("a", true, false, false), source("a", true, false, false)];
    assert!(matches!(validate_corpus_blend("heirloom.corpus_blend", 1, &dup), Err(TensorError::InvalidOperation(_))));
    assert!(validate_corpus_blend("heirloom.corpus_blend", 1, &[source("  ", true, false, false)]).is_err());
    assert!(validate_corpus_blend("heirloom.corpus_blend", 1, &[source("x", false, false, false)]).is_err());
    assert!(validate_corpus_blend("heirloom.corpus_blend", 1, &[source("x", true, true, false)]).is_err());
    let counts = blend_counts(&sources);
    assert_eq!(counts.local_source_count, 1);
    assert_eq!(counts.planned_source_count, 1);
    assert_eq!(counts.local_record_count, 10);
    assert_eq!(counts.local_bytes, 1000);
}

#[test]
fn streamed_shard_must_match_listing() {
    let listed = PreparedDataShard {
        split: "train".to_string(),
        metadata_path: "train-000.json".to_string(),
        tokens: 4,
        token_hash: "abcd".to_string(),
    };
    let mut metadata = TokenShardMetadata {
        format: "heirloom.token_shard".to_string(),
        version: 1,
        payload_path: "train-000.bin".to_string(),
        dtype: TokenShardDType::U16,
        token_count: 4,
        token_hash: "abcd".to_string(),
        payload_bytes: 8,
        payload_hash: "ffff".to_string(),
    };
    assert!(check_shard_matches(&listed, "data/train-000.json", &metadata).is_ok());
    assert!(metadata.validate().is_ok());
    metadata.token_hash = "abce".to_string();
    assert_eq!(
        check_shard_matches(&listed, "data/train-000.json", &metadata).unwrap_err().message(),
        "train shard metadata mismatch for data/train-000.json: manifest len/hash=4/abcd, shard len/hash=4/abce"
    );
    metadata.payload_bytes = 9;
    assert!(metadata.validate().is_err());
}
