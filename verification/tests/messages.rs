use heirloom::device_list::{cuda_device_ids, device_list_items, DeviceListError};
use heirloom::memory_transformer::MemoryUpdatePolicy;
use heirloom::runtime::memory_applied_path;
use heirloom::shape::{broadcast_shapes, checked_numel, expand_strides, normalize_dim, validate_permutation};
use heirloom::checkpoint::{ensure_checkpoint_family, LmModelFamily};
use heirloom::data::{
    decode_token_shard_payload, StreamingTokenIndex, TokenDataset, TokenShardDType, TokenShardMetadata,
    TOKEN_SHARD_FORMAT, TOKEN_SHARD_VERSION,
};
use heirloom::extension::validate_custom_op_name;
use heirloom::memory_transformer::{validate_trainable_rows, MemoryAccessCounts, MemoryTransformerConfig};

fn metadata(format: &str, version: u32, payload_bytes: usize) -> TokenShardMetadata {
    TokenShardMetadata {
        format: format.to_string(),
        version,
        payload_path: "train.bin".to_string(),
        dtype: TokenShardDType::U16,
        token_count: 4,
        token_hash: String::new(),
        payload_bytes,
        payload_hash: String::new(),
    }
}

#[test]
fn token_shard_metadata_refusals_report_the_values() {
    let err = metadata("other", TOKEN_SHARD_VERSION, 8).validate().unwrap_err();
    assert_eq!(err.message(), "unsupported token shard format other, expected heirloom.token_shard");
    let err = metadata(TOKEN_SHARD_FORMAT, 7, 8).validate().unwrap_err();
    assert_eq!(err.message(), "unsupported token shard version 7, expected 1");
    let err = metadata(TOKEN_SHARD_FORMAT, TOKEN_SHARD_VERSION, 9).validate().unwrap_err();
    assert_eq!(err.message(), "token shard payload byte mismatch: metadata=9 expected=8");
    metadata(TOKEN_SHARD_FORMAT, TOKEN_SHARD_VERSION, 8).validate().unwrap();
}

#[test]
fn access_count_refusals_report_the_values() {
    let counts = MemoryAccessCounts { memory_slots: 3, total_events: 1, unique_rows: 1, row_counts: vec![1, 0] };
    assert_eq!(
        counts.validate().unwrap_err().message(),
        "MemoryAccessCounts row_counts length 2 does not match memory_slots 3"
    );
    let counts = MemoryAccessCounts { memory_slots: 2, total_events: 5, unique_rows: 1, row_counts: vec![1, 0] };
    assert_eq!(
        counts.validate().unwrap_err().message(),
        "MemoryAccessCounts total_events 5 does not match row_counts sum 1"
    );
    let counts = MemoryAccessCounts { memory_slots: 2, total_events: 1, unique_rows: 2, row_counts: vec![1, 0] };
    assert_eq!(
        counts.validate().unwrap_err().message(),
        "MemoryAccessCounts unique_rows 2 does not match non-zero row count 1"
    );
}

#[test]
fn trainable_row_refusals_name_the_first_bad_row() {
    assert_eq!(
        validate_trainable_rows(4, &[1, 9, 1], 1).unwrap_err().message(),
        "SMFT trainable row 9 is out of range for memory_slots 4"
    );
    assert_eq!(
        validate_trainable_rows(4, &[1, 2, 1, 9], 0).unwrap_err().message(),
        "SMFT trainable row 1 appears more than once"
    );
    assert_eq!(
        validate_trainable_rows(4, &[1, 2], 1).unwrap_err().message(),
        "SMFT frozen_rows 1 does not match memory_slots 4 minus trainable rows 2"
    );
}

#[test]
fn memory_config_refusals_report_the_values() {
    let mut config = MemoryTransformerConfig::tiny(256);
    config.n_heads = 3;
    assert_eq!(config.validate().unwrap_err().message(), "d_model 64 must be divisible by n_heads 3");
    let mut config = MemoryTransformerConfig::tiny(256);
    config.memory_top_k = 2000;
    assert_eq!(config.validate().unwrap_err().message(), "memory_top_k 2000 cannot exceed memory_slots 1024");
    let mut config = MemoryTransformerConfig::tiny(256);
    config.memory_heads = 2;
    assert_eq!(
        config.validate().unwrap_err().message(),
        "memory_heads=2 requested, but the first Heirloom memory layer supports one memory head"
    );
    let mut config = MemoryTransformerConfig::tiny(256);
    config.memory_layer_indices = vec![3, 40, 3];
    assert_eq!(config.validate().unwrap_err().message(), "memory layer index 40 is outside n_layers 32");
    config.memory_layer_indices = vec![3, 5, 3];
    assert_eq!(config.validate().unwrap_err().message(), "duplicate memory layer index 3");
}

#[test]
fn dataset_refusals_report_the_values() {
    let err = TokenDataset::new(vec![1, 2, 3], 3, 7).err().unwrap();
    assert_eq!(err.message(), "dataset needs more than block_size tokens, got 3 tokens and block_size 3");
    let err = TokenDataset::deterministic_sharded_batch(&[1, 2, 3, 4, 5], 2, 1, 0, 0, 3, 2).err().unwrap();
    assert_eq!(err.message(), "rank must be less than world_size, got rank=3 world_size=2");
    let err = StreamingTokenIndex::new(&[2, 1], 3).err().unwrap();
    assert_eq!(
        err.message(),
        "streaming dataset needs more than block_size tokens, got 3 tokens and block_size 3"
    );
    let index = StreamingTokenIndex::new(&[3, 4], 2).unwrap();
    assert_eq!(
        index.plan_reads(5, 4).unwrap_err().message(),
        "streaming token read out of range: start=5 len=4 total=7"
    );
    assert_eq!(index.find_shard(7).unwrap_err().message(), "token index 7 is outside streaming shard ranges");
    assert_eq!(
        decode_token_shard_payload(&[1, 2, 3], TokenShardDType::U16).unwrap_err().message(),
        "token shard payload byte length 3 is not divisible by token width 2"
    );
}

#[test]
fn name_and_family_refusals_report_the_values() {
    assert_eq!(
        validate_custom_op_name(&"a".repeat(130)).unwrap_err().message(),
        "custom op name must be at most 128 bytes, got 130"
    );
    assert_eq!(
        ensure_checkpoint_family(LmModelFamily::TinyTransformer, LmModelFamily::MemoryTransformer)
            .unwrap_err()
            .message(),
        "checkpoint model_family is TinyTransformer, but loader expected MemoryTransformer"
    );
}

#[test]
fn shape_refusals_report_the_shapes() {
    assert_eq!(
        broadcast_shapes(&[2, 3], &[4, 1, 5]).unwrap_err().message(),
        "cannot broadcast shapes [2, 3] and [4, 1, 5]: dimension 2 has 3 vs 5"
    );
    assert_eq!(
        checked_numel(&[usize::MAX, 2]).unwrap_err().message(),
        format!("shape [{}, 2] overflows usize element count", usize::MAX)
    );
    assert_eq!(
        expand_strides(&[2, 3], &[3, 1], &[3]).unwrap_err().message(),
        "cannot expand shape [2, 3] to lower-rank shape [3]"
    );
    assert_eq!(
        expand_strides(&[2, 3], &[3, 1], &[4, 2, 5]).unwrap_err().message(),
        "cannot expand shape [2, 3] to [4, 2, 5]: dim 1 has 3 vs 5"
    );
    assert_eq!(normalize_dim(3, -4).unwrap_err().message(), "dim -4 out of range for tensor rank 3");
    assert_eq!(normalize_dim(3, 3).unwrap_err().message(), "dim 3 out of range for tensor rank 3");
    assert_eq!(
        validate_permutation(3, &[0, 1]).unwrap_err().message(),
        "permutation rank mismatch: tensor rank 3, dims [0, 1]"
    );
    assert_eq!(
        validate_permutation(3, &[0, 0, 7]).unwrap_err().message(),
        "permutation contains duplicate dim 0: [0, 0, 7]"
    );
    assert_eq!(
        validate_permutation(3, &[0, 5, 0]).unwrap_err().message(),
        "permutation dim 5 out of range for rank 3"
    );
}

#[test]
fn linear_plan_refusals_report_the_input_shape() {
    let err = heirloom::nn::plan_linear_amp_bf16(
        &[],
        1,
        16,
        8,
        heirloom::Device::Cpu,
        heirloom::DType::F32,
        heirloom::DType::F32,
        heirloom::DType::F32,
        false,
        false,
        false,
        false,
    )
    .unwrap_err();
    assert_eq!(err.message(), "Linear expected input with last dim 16, got scalar");
    let err = heirloom::nn::plan_linear_amp_bf16(
        &[2, 4],
        8,
        16,
        8,
        heirloom::Device::Cpu,
        heirloom::DType::F32,
        heirloom::DType::F32,
        heirloom::DType::F32,
        false,
        false,
        false,
        false,
    )
    .unwrap_err();
    assert_eq!(err.message(), "Linear expected input last dim 16, got [2, 4]");
}

#[test]
fn optimizer_index_refusals_name_the_first_bad_index() {
    let err = heirloom::optim::validate_optimizer_parameter_indices(&[0, 5, 0], 3).unwrap_err();
    assert_eq!(err.message(), "AdamW parameter index 5 is out of range for 3 parameters");
    let err = heirloom::optim::validate_optimizer_parameter_indices(&[1, 1, 9], 3).unwrap_err();
    assert_eq!(err.message(), "duplicate AdamW parameter index 1");
}

#[test]
fn blend_refusals_report_format_and_version() {
    let err = heirloom::data::validate_corpus_blend("x.blend", 1, &[]).unwrap_err();
    assert_eq!(err.message(), "unsupported corpus blend manifest format x.blend, expected heirloom.corpus_blend");
    let err = heirloom::data::validate_corpus_blend("heirloom.corpus_blend", 4, &[]).unwrap_err();
    assert_eq!(err.message(), "unsupported corpus blend manifest version 4, expected 1");
}

#[test]
fn debug_quoting_matches_the_debug_form_of_ascii_text() {
    for code in 0u8..128 {
        let text = format!("a{}b", code as char);
        let mut message = String::new();
        heirloom::text::push_debug_quoted(&mut message, &text);
        assert_eq!(message, format!("{:?}", text), "character {code}");
    }
    let mut message = String::new();
    heirloom::text::push_debug_quoted(&mut message, "héllo wörld");
    assert_eq!(message, format!("{:?}", "héllo wörld"));
}

#[test]
fn state_dict_refusals_name_the_parameter() {
    let names = vec!["w".to_string(), "layer\"0\".bias".to_string()];
    let entries = vec![("w".to_string(), "0000-w.npy".to_string())];
    let err = heirloom::state_dict::state_files_for(&names, &entries).unwrap_err();
    assert_eq!(err.message(), "missing state_dict parameter \"layer\\\"0\\\".bias\"");
    let names = vec!["w".to_string()];
    let entries = vec![
        ("w".to_string(), "0000-w.npy".to_string()),
        ("extra\ttab".to_string(), "0001-extra.npy".to_string()),
    ];
    let err = heirloom::state_dict::state_files_for(&names, &entries).unwrap_err();
    assert_eq!(err.message(), "state_dict contains unexpected parameter \"extra\\ttab\"");
}

#[test]
fn op_name_and_registration_refusals_quote_the_name() {
    let err = validate_custom_op_name("bad name!").unwrap_err();
    assert_eq!(err.message(), "custom op name \"bad name!\" contains unsupported characters");
    fn unit(x: f64) -> f64 {
        x
    }
    let op = heirloom::extension::CustomUnaryOp::new("scale", unit as fn(f64) -> f64, unit as fn(f64) -> f64).unwrap();
    let mut registry = heirloom::extension::CustomUnaryRegistry::new();
    registry.register(op).unwrap();
    let err = registry.register(op).unwrap_err();
    assert_eq!(err.message(), "custom unary op \"scale\" is already registered");
}

#[test]
fn token_width_refusal_names_the_largest_token() {
    let err = TokenShardDType::for_tokens(&[3, 1usize << 40, 7]).unwrap_err();
    assert_eq!(err.message(), format!("token id {} exceeds u32 token shard limit", 1usize << 40));
}

#[test]
fn matmul_plan_refusals_report_the_shapes() {
    assert_eq!(
        heirloom::dispatch::plan_matmul(&[3], &[3, 4], 3, 12).unwrap_err().message(),
        "matmul requires tensors with rank >= 2, got [3] and [3, 4]"
    );
    assert_eq!(
        heirloom::dispatch::plan_matmul(&[2, 3], &[4, 5], 6, 20).unwrap_err().message(),
        "matmul inner dimensions must match, got [2, 3] and [4, 5]"
    );
    assert_eq!(
        heirloom::dispatch::plan_matmul(&[2, 2, 3], &[3, 3, 4], 12, 36).unwrap_err().message(),
        "cannot broadcast shapes [2] and [3]: dimension 0 has 2 vs 3"
    );
    let big = usize::MAX / 2;
    assert_eq!(
        heirloom::dispatch::plan_matmul(&[big, 1], &[1, 3], big, 3).unwrap_err().message(),
        format!("matmul output matrix size overflows: {big} * 3")
    );
}

#[test]
fn device_lists_yield_distinct_cuda_ids() {
    let items = device_list_items("cuda:0, cuda:2 ,cuda:1");
    let raw: Vec<&str> = items.iter().map(|i| i.raw.as_str()).collect();
    let trimmed: Vec<&str> = items.iter().map(|i| i.trimmed.as_str()).collect();
    assert_eq!(raw, vec!["cuda:0", " cuda:2 ", "cuda:1"]);
    assert_eq!(trimmed, vec!["cuda:0", "cuda:2", "cuda:1"]);
    let devices = vec![Some(heirloom::Device::Cuda(0)), Some(heirloom::Device::Cuda(2)), Some(heirloom::Device::Cuda(1))];
    assert_eq!(cuda_device_ids(&items, &devices).ok().unwrap(), vec![0, 2, 1]);
    let cpu = vec![Some(heirloom::Device::Cuda(0)), Some(heirloom::Device::Cpu), None];
    match cuda_device_ids(&items, &cpu) {
        Err(DeviceListError::Refused(e)) => {
            assert_eq!(e.message(), "distributed --devices accepts only cuda:<id> entries, got \" cuda:2 \"")
        }
        _ => panic!("expected a refusal"),
    }
    let dup = vec![Some(heirloom::Device::Cuda(1)), None, Some(heirloom::Device::Cuda(1))];
    assert!(matches!(cuda_device_ids(&items, &dup), Err(DeviceListError::Unparsed(1))));
    let dup = vec![Some(heirloom::Device::Cuda(1)), Some(heirloom::Device::Cuda(3)), Some(heirloom::Device::Cuda(1))];
    match cuda_device_ids(&items, &dup) {
        Err(DeviceListError::Refused(e)) => assert_eq!(e.message(), "duplicate CUDA device cuda:1 in --devices"),
        _ => panic!("expected a refusal"),
    }
    assert_eq!(device_list_items("").len(), 1);
    match cuda_device_ids(&[], &[]) {
        Err(DeviceListError::Refused(e)) => {
            assert_eq!(e.message(), "--devices must include at least one cuda:<id> entry")
        }
        _ => panic!("expected a refusal"),
    }
}

#[test]
fn memory_applied_path_names_the_update_path() {
    assert_eq!(memory_applied_path(MemoryUpdatePolicy::Frozen, true, heirloom::Device::Cpu), "frozen_no_optimizer_step");
    assert_eq!(
        memory_applied_path(MemoryUpdatePolicy::SparseRows, true, heirloom::Device::Cuda(0)),
        "cuda_sparse_rows_selected_memory_tables"
    );
    assert_eq!(
        memory_applied_path(MemoryUpdatePolicy::MemoryOnly, true, heirloom::Device::Cpu),
        "cpu_sparse_rows_selected_memory_tables"
    );
    assert_eq!(memory_applied_path(MemoryUpdatePolicy::Full, false, heirloom::Device::Cpu), "dense_all_parameters");
    assert_eq!(
        memory_applied_path(MemoryUpdatePolicy::MemoryOnly, false, heirloom::Device::Cuda(1)),
        "dense_memory_tables_only"
    );
}

fn blend_source(id: &str, weight: &str, has_path: bool, has_hash: bool) -> heirloom::data::BlendSourceFacts {
    heirloom::data::BlendSourceFacts {
        source_id: id.to_string(),
        sampling_weight_ok: !weight.starts_with('-') && weight != "NaN" && weight != "inf",
        sampling_weight_text: weight.to_string(),
        has_path,
        has_content_hash: has_hash,
        local_records: None,
        local_bytes: None,
    }
}

#[test]
fn blend_refusals_name_the_source() {
    let format = "heirloom.corpus_blend";
    let sources = vec![
        blend_source("b", "1", false, false),
        blend_source("a", "2", false, false),
        blend_source("b", "0.5", false, false),
        blend_source("a", "1", false, false),
        blend_source("a", "3", false, false),
    ];
    let err = heirloom::data::validate_corpus_blend(format, 1, &sources).unwrap_err();
    assert_eq!(err.message(), "duplicate corpus blend source_id a count=3");

    let sources = vec![blend_source("z", "1", false, false), blend_source("z", "1", false, false)];
    let err = heirloom::data::validate_corpus_blend(format, 1, &sources).unwrap_err();
    assert_eq!(err.message(), "duplicate corpus blend source_id z count=2");

    let sources = vec![blend_source("web", "-0.25", false, false), blend_source("  ", "1", false, false)];
    let err = heirloom::data::validate_corpus_blend(format, 1, &sources).unwrap_err();
    assert_eq!(err.message(), "source web has invalid sampling_weight -0.25");

    let sources = vec![blend_source("ok", "1", true, true), blend_source("traces", "1", true, false)];
    let err = heirloom::data::validate_corpus_blend(format, 1, &sources).unwrap_err();
    assert_eq!(err.message(), "local source traces requires content_hash");

    let sources = vec![blend_source(" \t", "1", false, false)];
    let err = heirloom::data::validate_corpus_blend(format, 1, &sources).unwrap_err();
    assert_eq!(err.message(), "corpus blend source_id must not be empty");
}

#[test]
fn matmul_batch_refusals_name_the_range() {
    let err = heirloom::dispatch::plan_matmul(&[2, 2, 3], &[3, 4], 6, 12).unwrap_err();
    assert_eq!(err.message(), "matmul left batch range 6..12 exceeds data length 6");
    let err = heirloom::dispatch::plan_matmul(&[2, 3], &[2, 3, 4], 6, 20).unwrap_err();
    assert_eq!(err.message(), "matmul right batch range 12..24 exceeds data length 20");
}
