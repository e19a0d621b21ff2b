use heirloom::nn::{
    amp_bf16_tensor_core_coverage, device_label, dtype_label, reset_amp_bf16_tensor_core_coverage,
    AmpBf16CoverageStore, AmpBf16LinearRecord, DistributedGradientStats, Gelu, ReLU, Sequential,
    TinyTransformerConfig,
};
use heirloom::{DType, Device};

fn record<'a>(module: &'a str, used: bool, device_ok: bool, shape_ok: bool, dtype: DType) -> AmpBf16LinearRecord<'a> {
    AmpBf16LinearRecord {
        module,
        m: 17,
        k: 15,
        n: 18,
        device: if device_ok { Device::Cuda(0) } else { Device::Cpu },
        input_dtype: dtype,
        weight_dtype: DType::F32,
        bias_dtype: DType::F32,
        tensor_core_device: device_ok,
        tensor_core_shape: shape_ok,
        used_tensor_core: used,
    }
}

#[test]
fn tiny_config_has_reference_sizes() {
    let config = TinyTransformerConfig::tiny(512);
    assert_eq!(config.vocab_size, 512);
    assert_eq!(config.block_size, 64);
    assert_eq!(config.d_model, 64);
    assert_eq!(config.n_heads, 4);
    assert_eq!(config.ff_hidden, 256);
}

#[test]
fn sequential_keeps_layer_order() {
    let mut layers = Sequential::new(vec![1u8]);
    assert_eq!(layers.len(), 1);
    assert!(!layers.is_empty());
    layers.push(2);
    layers.push(3);
    assert_eq!(layers.layers(), &vec![1, 2, 3]);
    assert!(Sequential::<u8>::new(Vec::new()).is_empty());
    assert_eq!(ReLU::new(), ReLU::default());
    assert_eq!(Gelu::new(), Gelu::default());
    assert_eq!(DistributedGradientStats::default().all_reduce_calls, 0);
}

#[test]
fn labels_name_devices_and_dtypes() {
    assert_eq!(device_label(Device::Cpu), "cpu");
    assert_eq!(device_label(Device::Cuda(12)), "cuda:12");
    assert_eq!(dtype_label(DType::BFloat16), "BFloat16");
    assert_eq!(dtype_label(DType::Bool), "Bool");
}

#[test]
fn coverage_store_counts_calls_per_module_in_name_order() {
    let mut store = AmpBf16CoverageStore::new();
    store.record(record("lm_head", true, true, true, DType::F32));
    store.record(record("attention.qkv", false, false, true, DType::F32));
    store.record(record("lm_head", false, true, false, DType::BFloat16));
    let coverage = amp_bf16_tensor_core_coverage(&store);
    assert_eq!(coverage.linear_modules.len(), 2);
    assert_eq!(coverage.linear_modules[0].module, "attention.qkv");
    assert_eq!(coverage.linear_modules[1].module, "lm_head");

    let head = &coverage.linear_modules[1];
    assert_eq!(head.calls, 2);
    assert_eq!(head.tensor_core_calls, 1);
    assert_eq!(head.fallback_calls, 1);
    assert_eq!(head.unsupported_shape_calls, 1);
    assert_eq!(head.unsupported_device_calls, 0);
    assert_eq!(head.dtype_mismatch_calls, 1);
    assert_eq!(head.last_path, "fallback_unsupported_shape");
    assert_eq!(head.last_input_dtype, "BFloat16");
    assert_eq!(head.last_device, "cuda:0");
    assert_eq!((head.last_m, head.last_k, head.last_n), (17, 15, 18));

    let qkv = &coverage.linear_modules[0];
    assert_eq!(qkv.last_path, "fallback_unsupported_device");
    assert_eq!(qkv.last_device, "cpu");

    assert_eq!(coverage.linear_totals.calls, 3);
    assert_eq!(coverage.linear_totals.tensor_core_calls, 1);
    assert_eq!(coverage.linear_totals.fallback_calls, 2);
    assert_eq!(coverage.linear_totals.unsupported_device_calls, 1);

    reset_amp_bf16_tensor_core_coverage(&mut store);
    let empty = amp_bf16_tensor_core_coverage(&store);
    assert!(empty.linear_modules.is_empty());
    assert_eq!(empty.linear_totals.calls, 0);
}

#[test]
fn coverage_paths_follow_fallback_priority() {
    let mut store = AmpBf16CoverageStore::new();
    store.record(record("a", false, true, true, DType::F64));
    store.record(record("b", false, true, true, DType::F32));
    store.record(record("c", true, true, true, DType::F32));
    let coverage = amp_bf16_tensor_core_coverage(&store);
    assert_eq!(coverage.linear_modules[0].last_path, "fallback_dtype_mismatch");
    assert_eq!(coverage.linear_modules[1].last_path, "fallback_unknown");
    assert_eq!(coverage.linear_modules[2].last_path, "tensor_core");
}

#[test]
fn coverage_store_entries_follow_module_names() {
    let mut store = AmpBf16CoverageStore::new();
    assert!(store.entries().is_empty());
    store.record(record("mlp.up", true, true, true, DType::F32));
    store.record(record("attention.out", false, true, true, DType::F32));
    store.record(record("mlp.up", true, true, true, DType::F32));
    let entries = store.entries();
    assert_eq!(entries.len(), 2);
    assert_eq!(entries[0].module, "attention.out");
    assert_eq!(entries[0].calls, 1);
    assert_eq!(entries[1].module, "mlp.up");
    assert_eq!(entries[1].calls, 2);
}
