use heirloom::memory_transformer::MemoryUpdatePolicy;
use heirloom::runtime::{
    checkpoint_batches_seen, logs_step, rank_placements, records_step_checksum, require_two_cuda_devices,
    RankPlacement,
};
use heirloom::runtime::{
    accumulated_training_tokens_seen, ddp_sample_step, launcher_env_from_lookup,
    validate_distributed_memory_all_reduce_evidence, validate_grad_accumulation_steps,
    DistributedMemoryAllReduceEvidence, LauncherEnvVar,
};

fn env_value(env: &[LauncherEnvVar], name: &str) -> Option<String> {
    env.iter()
        .find(|var| var.name == name)
        .map(|var| var.value.clone())
}

#[test]
fn grad_accumulation_helpers_preserve_optimizer_step_semantics() {
    assert!(validate_grad_accumulation_steps(0).is_err());
    validate_grad_accumulation_steps(1).unwrap();
    assert_eq!(accumulated_training_tokens_seen(3, 2, 5, 4).unwrap(), 120);
    assert_eq!(ddp_sample_step(10, 2, 3, 4).unwrap(), 51);
}

#[test]
fn distributed_memory_evidence_requires_dense_counters_for_full_updates() {
    let err = validate_distributed_memory_all_reduce_evidence(DistributedMemoryAllReduceEvidence {
        memory_update_policy: &MemoryUpdatePolicy::Full,
        all_reduce_calls: 0,
        all_reduce_bytes: 0,
        row_union_all_reduce_calls: 0,
        row_union_all_reduce_bytes: 0,
        row_union_candidate_rows: 0,
        compact_gradient_all_reduce_calls: 0,
        compact_gradient_all_reduce_bytes: 0,
    })
    .unwrap_err();

    assert!(
        err.to_string()
            .contains("without recorded gradient all-reduces"),
        "{}",
        err.to_string()
    );

    validate_distributed_memory_all_reduce_evidence(DistributedMemoryAllReduceEvidence {
        memory_update_policy: &MemoryUpdatePolicy::Full,
        all_reduce_calls: 2,
        all_reduce_bytes: 128,
        row_union_all_reduce_calls: 0,
        row_union_all_reduce_bytes: 0,
        row_union_candidate_rows: 0,
        compact_gradient_all_reduce_calls: 0,
        compact_gradient_all_reduce_bytes: 0,
    })
    .unwrap();
}

#[test]
fn distributed_memory_sparse_evidence_requires_compact_gradient_transport() {
    let err = validate_distributed_memory_all_reduce_evidence(DistributedMemoryAllReduceEvidence {
        memory_update_policy: &MemoryUpdatePolicy::SparseRows,
        all_reduce_calls: 4,
        all_reduce_bytes: 256,
        row_union_all_reduce_calls: 2,
        row_union_all_reduce_bytes: 64,
        row_union_candidate_rows: 8,
        compact_gradient_all_reduce_calls: 0,
        compact_gradient_all_reduce_bytes: 0,
    })
    .unwrap_err();

    assert!(
        err.to_string()
            .contains("without recorded compact sparse all-reduces"),
        "{}",
        err.to_string()
    );

    validate_distributed_memory_all_reduce_evidence(DistributedMemoryAllReduceEvidence {
        memory_update_policy: &MemoryUpdatePolicy::SparseRows,
        all_reduce_calls: 4,
        all_reduce_bytes: 256,
        row_union_all_reduce_calls: 2,
        row_union_all_reduce_bytes: 64,
        row_union_candidate_rows: 8,
        compact_gradient_all_reduce_calls: 2,
        compact_gradient_all_reduce_bytes: 512,
    })
    .unwrap();
}

#[test]
fn nccl_launcher_env_defaults_to_single_node_loopback_bootstrap() {
    let env = launcher_env_from_lookup(|_| None);

    assert_eq!(env_value(&env, "NCCL_DEBUG").as_deref(), Some("INFO"));
    assert_eq!(
        env_value(&env, "NCCL_DEBUG_SUBSYS").as_deref(),
        Some("INIT,COLL,GRAPH")
    );
    assert_eq!(env_value(&env, "NCCL_NET_PLUGIN").as_deref(), Some("none"));
    assert_eq!(env_value(&env, "NCCL_SOCKET_IFNAME").as_deref(), Some("lo"));
    assert_eq!(env_value(&env, "NCCL_IB_DISABLE").as_deref(), Some("1"));
    assert!(env_value(&env, "NCCL_CUMEM_ENABLE").is_none());
    assert!(env_value(&env, "NCCL_CUMEM_HOST_ENABLE").is_none());
    assert!(env_value(&env, "NCCL_P2P_DISABLE").is_none());
    assert!(env_value(&env, "NCCL_P2P_LEVEL").is_none());
    assert!(env_value(&env, "HEIRLOOM_NCCL_TRACE").is_none());
}

#[test]
fn nccl_launcher_env_ignores_inherited_vertex_bootstrap_overrides() {
    let env = launcher_env_from_lookup(|name| match name {
        "NCCL_SOCKET_IFNAME" => Some("^cbr,veth,docker,lo,cali,gke,node,cilium".to_string()),
        "NCCL_IB_DISABLE" => Some("0".to_string()),
        "NCCL_NET_PLUGIN" => Some("FastSocket".to_string()),
        "HEIRLOOM_NCCL_TRACE" => Some("1".to_string()),
        _ => None,
    });

    assert_eq!(env_value(&env, "NCCL_SOCKET_IFNAME").as_deref(), Some("lo"));
    assert_eq!(env_value(&env, "NCCL_IB_DISABLE").as_deref(), Some("1"));
    assert_eq!(env_value(&env, "NCCL_NET_PLUGIN").as_deref(), Some("none"));
    assert_eq!(env_value(&env, "HEIRLOOM_NCCL_TRACE").as_deref(), Some("1"));
}

#[test]
fn nccl_launcher_env_preserves_heirloom_specific_overrides() {
    let env = launcher_env_from_lookup(|name| match name {
        "HEIRLOOM_NCCL_SOCKET_IFNAME" => Some("eth0".to_string()),
        "HEIRLOOM_NCCL_IB_DISABLE" => Some("0".to_string()),
        "HEIRLOOM_NCCL_NET_PLUGIN" => Some("none".to_string()),
        "HEIRLOOM_NCCL_CUMEM_ENABLE" => Some("0".to_string()),
        "HEIRLOOM_NCCL_CUMEM_HOST_ENABLE" => Some("0".to_string()),
        "HEIRLOOM_NCCL_P2P_DISABLE" => Some("1".to_string()),
        "HEIRLOOM_NCCL_P2P_LEVEL" => Some("NVL".to_string()),
        "HEIRLOOM_NCCL_TRACE" => Some("1".to_string()),
        _ => None,
    });

    assert_eq!(
        env_value(&env, "NCCL_SOCKET_IFNAME").as_deref(),
        Some("eth0")
    );
    assert_eq!(env_value(&env, "NCCL_IB_DISABLE").as_deref(), Some("0"));
    assert_eq!(env_value(&env, "NCCL_NET_PLUGIN").as_deref(), Some("none"));
    assert_eq!(env_value(&env, "NCCL_CUMEM_ENABLE").as_deref(), Some("0"));
    assert_eq!(
        env_value(&env, "NCCL_CUMEM_HOST_ENABLE").as_deref(),
        Some("0")
    );
    assert_eq!(env_value(&env, "NCCL_P2P_DISABLE").as_deref(), Some("1"));
    assert_eq!(env_value(&env, "NCCL_P2P_LEVEL").as_deref(), Some("NVL"));
    assert_eq!(env_value(&env, "HEIRLOOM_NCCL_TRACE").as_deref(), Some("1"));
}

#[test]
fn distributed_run_planning() {
    assert_eq!(
        require_two_cuda_devices("distributed NCCL training", 1).unwrap_err().message(),
        "distributed NCCL training requires at least two CUDA devices, got 1"
    );
    assert!(require_two_cuda_devices("gpu nccl-probe", 2).is_ok());
    assert_eq!(
        rank_placements(&[3, 1]),
        vec![
            RankPlacement { rank: 0, world_size: 2, device_id: 3, save_checkpoint: true },
            RankPlacement { rank: 1, world_size: 2, device_id: 1, save_checkpoint: false },
        ]
    );
    // checksums every 4 printed steps and on the last local step
    let recorded: Vec<usize> =
        (0..6).filter(|&local| records_step_checksum(4, 10 + local + 1, local, 6)).map(|l| 10 + l + 1).collect();
    assert_eq!(recorded, vec![12, 16]);
    assert!(!records_step_checksum(0, 12, 5, 6));
    assert!(logs_step(5, 11, 0));
    assert!(logs_step(5, 15, 4));
    assert!(!logs_step(5, 14, 3));
    assert!(!logs_step(0, 15, 0));
    assert_eq!(checkpoint_batches_seen(10, 6, 4), 64);
}
