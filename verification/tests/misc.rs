use heirloom::checkpoint::{ensure_checkpoint_family, LmCheckpointMetadata, LmModelFamily};
use heirloom::dispatch::{resolve_binary, resolve_reduction, schema, BinaryOp, Operator, TensorMeta};
use heirloom::memory_transformer::MemoryTransformerConfig;
use heirloom::nn::TinyTransformerConfig;
use heirloom::runtime::{
    accumulated_training_tokens_seen, ddp_sample_step, device_count_for_training,
    launcher_env_from_values, memory_dense_parameter_estimate, stage_is_after_nccl_init,
    tiny_dense_parameter_estimate, LauncherEnvLookups,
};
use heirloom::{is_grad_enabled, no_grad, operator_catalog, DType, Device, GradMode, TensorError};

#[test]
fn checkpoint_metadata_resumes_dataset_position() {
    let metadata = LmCheckpointMetadata {
        model_family: LmModelFamily::default(),
        config: TinyTransformerConfig::tiny(300),
        dataset_rng_state: 99,
        dataset_batches_seen: 7,
        dataset_manifest_path: None,
        step: 3,
    };
    let state = metadata.dataset_state();
    assert_eq!(state.rng_state, 99);
    assert_eq!(state.batches_seen, 7);
    assert_eq!(metadata.model_family, LmModelFamily::TinyTransformer);
    assert!(ensure_checkpoint_family(LmModelFamily::MemoryTransformer, LmModelFamily::MemoryTransformer).is_ok());
    assert!(matches!(
        ensure_checkpoint_family(LmModelFamily::TinyTransformer, LmModelFamily::MemoryTransformer),
        Err(TensorError::InvalidOperation(_))
    ));
}

#[test]
fn no_grad_disables_recording_and_restores_mode() {
    let mut mode = GradMode::new();
    assert!(is_grad_enabled(&mode));
    let seen = no_grad(&mut mode, |inner| is_grad_enabled(inner));
    assert!(!seen);
    assert!(is_grad_enabled(&mode));
    let mut off = GradMode { enabled: false };
    let value = no_grad(&mut off, |_| 5);
    assert_eq!(value, 5);
    assert!(!off.enabled);
}

#[test]
fn parameter_estimates_count_dense_weights() {
    assert_eq!(tiny_dense_parameter_estimate(&TinyTransformerConfig::tiny(256)), 87_104);
    assert_eq!(
        memory_dense_parameter_estimate(&MemoryTransformerConfig::tiny(256), 256),
        1_636_736
    );
}

#[test]
fn step_bookkeeping_refuses_overflow() {
    assert!(accumulated_training_tokens_seen(usize::MAX, 1, 1, 2).is_err());
    assert!(accumulated_training_tokens_seen(usize::MAX, 0, 1, 2).is_err());
    assert_eq!(accumulated_training_tokens_seen(5, 0, 9, 1).unwrap(), 0);
    assert!(ddp_sample_step(usize::MAX, 1, 0, 1).is_err());
    assert_eq!(ddp_sample_step(0, 0, 7, 0).unwrap(), 7);
    assert_eq!(device_count_for_training(Device::Cuda(3)), 1);
    assert_eq!(device_count_for_training(Device::Cpu), 0);
}

#[test]
fn rank_stages_before_nccl_init_are_recognised() {
    for stage in ["missing", "spawned", "config_loaded", "cuda_context_start", "cuda_context_ready", "nccl_library_loaded", "nccl_init_start"] {
        assert!(!stage_is_after_nccl_init(stage), "{stage}");
    }
    assert!(stage_is_after_nccl_init("nccl_init_done"));
    assert!(stage_is_after_nccl_init("training"));
    assert!(stage_is_after_nccl_init("unparseable"));
}

#[test]
fn launcher_env_prefers_overrides_then_inherited_values() {
    let mut lookups = LauncherEnvLookups {
        heirloom_debug: None,
        nccl_debug: Some("WARN".to_string()),
        heirloom_debug_subsys: Some("INIT".to_string()),
        nccl_debug_subsys: Some("ALL".to_string()),
        heirloom_net_plugin: None,
        heirloom_socket_ifname: None,
        heirloom_ib_disable: None,
        heirloom_cumem_enable: None,
        nccl_cumem_enable: Some("1".to_string()),
        heirloom_cumem_host_enable: None,
        nccl_cumem_host_enable: None,
        heirloom_p2p_disable: None,
        nccl_p2p_disable: None,
        heirloom_p2p_level: None,
        nccl_p2p_level: None,
        heirloom_trace: None,
    };
    let env = launcher_env_from_values(lookups.clone());
    let pairs: Vec<(String, String)> = env.iter().map(|v| (v.name.clone(), v.value.clone())).collect();
    assert_eq!(
        pairs,
        vec![
            ("NCCL_DEBUG".to_string(), "WARN".to_string()),
            ("NCCL_DEBUG_SUBSYS".to_string(), "INIT".to_string()),
            ("NCCL_NET_PLUGIN".to_string(), "none".to_string()),
            ("NCCL_SOCKET_IFNAME".to_string(), "lo".to_string()),
            ("NCCL_IB_DISABLE".to_string(), "1".to_string()),
            ("NCCL_CUMEM_ENABLE".to_string(), "1".to_string()),
        ]
    );
    lookups.heirloom_debug = Some("TRACE".to_string());
    let env = launcher_env_from_values(lookups);
    assert_eq!(env[0].value, "TRACE");
}

#[test]
fn dispatch_laws_hold_on_examples() {
    let dtypes = [DType::F32, DType::BFloat16, DType::F64, DType::I64, DType::Bool];
    let ops = [BinaryOp::Add, BinaryOp::Sub, BinaryOp::Mul, BinaryOp::Div];
    for &a in &dtypes {
        for &b in &dtypes {
            for &op in &ops {
                let left = TensorMeta::new(a, Device::Cpu);
                let right = TensorMeta::new(b, Device::Cpu);
                let ab = resolve_binary(op, left, right).map(|r| r.output_dtype).ok();
                let ba = resolve_binary(op, right, left).map(|r| r.output_dtype).ok();
                assert_eq!(ab, ba);
                if op == BinaryOp::Div {
                    if let Some(dtype) = ab {
                        assert!(dtype.is_floating());
                    }
                }
            }
        }
    }
    let bf16_cpu = TensorMeta::new(DType::BFloat16, Device::Cpu);
    let f32_gpu = TensorMeta::new(DType::F32, Device::Cuda(0));
    assert_eq!(resolve_binary(BinaryOp::Add, bf16_cpu, bf16_cpu).unwrap().output_dtype, DType::BFloat16);
    assert!(matches!(resolve_binary(BinaryOp::Add, bf16_cpu, f32_gpu), Err(TensorError::Device(_))));
    assert!(matches!(resolve_reduction(Operator::Sum, f32_gpu), Err(TensorError::Device(_))));
    assert!(matches!(resolve_reduction(Operator::Relu, bf16_cpu), Err(TensorError::DType(_))));
    for entry in operator_catalog() {
        assert_eq!(schema(entry.operator), entry);
        assert!(entry.returns_fresh_output());
    }
    assert!(schema(Operator::Add).should_record_autograd(DType::F32, true));
    assert!(!schema(Operator::Add).should_record_autograd(DType::I64, true));
    assert_eq!(schema(Operator::SoftmaxDim).name, "aten.softmax.dim");
}
