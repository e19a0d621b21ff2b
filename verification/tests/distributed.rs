use heirloom::data::{push_window, record_batch, record_window_reads, ShardRead, StreamingTokenLoaderStats};
use heirloom::launcher::{launcher_step, LauncherAction, LauncherLimits, LauncherPoll, LauncherState, RankExit};
use heirloom::memory_transformer::MemoryAccessCounts;
use heirloom::nccl_id::{nccl_unique_id_candidate, select_nccl_unique_id, NcclIdCandidate};
use heirloom::rank_reports::{
    aggregate_rank_cuda_runtime, aggregate_rank_performance_counts, cuda_runtime_field_names,
    KernelFamilyStats, RankCudaRuntime, RankPerformance,
};
use heirloom::TensorError;

const MARKER: &str = "HEIRLOOM_NCCL_UNIQUE_ID=";

fn valid_hex(byte: u8) -> String {
    (0..128).map(|_| format!("{byte:02x}")).collect()
}

// Stand-in for the NCCL id parser: 128 bytes as 256 hex digits.
fn parse_id(hex: &str) -> Result<(), String> {
    if hex.len() == 256 && hex.bytes().all(|b| b.is_ascii_hexdigit()) {
        Ok(())
    } else {
        Err(format!("expected 256 hex digits, got {}", hex.len()))
    }
}

fn parse_stdout(stdout: &str) -> Result<String, TensorError> {
    let lines: Vec<Option<NcclIdCandidate>> = stdout
        .lines()
        .map(|line| {
            nccl_unique_id_candidate(line, MARKER).map(|hex| {
                let invalid_reason = parse_id(&hex).err();
                NcclIdCandidate { hex, invalid_reason }
            })
        })
        .collect();
    select_nccl_unique_id(&lines, MARKER)
}

#[test]
fn parses_marked_nccl_unique_id_from_noisy_stdout() {
    let hex = valid_hex(0xab);
    let stdout = format!("NCCL INFO graph line\n{MARKER}{hex}\nNCCL INFO done\n");
    assert_eq!(parse_stdout(&stdout).unwrap(), hex);
}

#[test]
fn parses_exact_hex_nccl_unique_id_for_backwards_compatibility() {
    let hex = valid_hex(0x17);
    assert_eq!(parse_stdout(&hex).unwrap(), hex);
}

#[test]
fn rejects_missing_nccl_unique_id_marker_or_exact_hex_line() {
    let err = parse_stdout("NCCL INFO only\n").unwrap_err();
    assert!(format!("{}", err.to_string()).contains("did not contain"));
    assert_eq!(
        err.message(),
        "NCCL unique-id helper stdout did not contain HEIRLOOM_NCCL_UNIQUE_ID=; stdout_lines=1"
    );
}

#[test]
fn rejects_invalid_marked_nccl_unique_id_payload() {
    let stdout = format!("{MARKER}abc\n");
    let err = parse_stdout(&stdout).unwrap_err();
    assert!(format!("{}", err.to_string()).contains("invalid id"));
}

#[test]
fn rejects_multiple_nccl_unique_id_candidates() {
    let first = valid_hex(0x01);
    let second = valid_hex(0x02);
    let stdout = format!("{MARKER}{first}\n{MARKER}{second}");
    let err = parse_stdout(&stdout).unwrap_err();
    assert!(format!("{}", err.to_string()).contains("multiple candidate ids"));
}

#[test]
fn nccl_candidate_trims_the_marker_line() {
    let hex = valid_hex(0x3c);
    assert_eq!(nccl_unique_id_candidate(&format!("  {MARKER}  {hex} \t"), MARKER), Some(hex.clone()));
    assert_eq!(nccl_unique_id_candidate(&format!(" {hex} "), MARKER), Some(hex));
    assert_eq!(nccl_unique_id_candidate("NCCL INFO x", MARKER), None);
    assert_eq!(nccl_unique_id_candidate(&"g".repeat(256), MARKER), None);
}

fn rank_perf(tokens: u64, timings: [u64; 6]) -> RankPerformance {
    RankPerformance {
        train_elapsed_ms: Some(timings[0]),
        dataloader_elapsed_ms: Some(timings[1]),
        host_to_device_elapsed_ms: Some(timings[2]),
        forward_backward_elapsed_ms: Some(timings[3]),
        all_reduce_elapsed_ms: Some(timings[4]),
        optimizer_elapsed_ms: Some(timings[5]),
        tokens_seen: Some(tokens),
        micro_batch_size: None,
        grad_accumulation_steps: None,
    }
}

#[test]
fn aggregate_rank_performance_preserves_timing_buckets() {
    let ranks = vec![rank_perf(100, [10, 1, 2, 3, 4, 5]), rank_perf(200, [12, 2, 1, 4, 6, 3])];
    let report = aggregate_rank_performance_counts(&ranks).unwrap();
    assert_eq!(report.tokens_seen, 300);
    assert_eq!(report.train_elapsed_ms, 12);
    assert_eq!(report.dataloader_elapsed_ms, 2);
    assert_eq!(report.host_to_device_elapsed_ms, 2);
    assert_eq!(report.forward_backward_elapsed_ms, 4);
    assert_eq!(report.all_reduce_elapsed_ms, 6);
    assert_eq!(report.optimizer_elapsed_ms, 5);
    assert_eq!(report.micro_batch_size, 0);
    assert_eq!(report.grad_accumulation_steps, 1);
    assert_eq!(report.data_parallel_world_size, 2);
}

#[test]
fn performance_batch_sizes_come_from_the_first_report_and_saturate() {
    let mut first = rank_perf(1, [0; 6]);
    first.train_elapsed_ms = None;
    let mut second = rank_perf(2, [0; 6]);
    second.micro_batch_size = Some(4);
    second.grad_accumulation_steps = Some(3);
    let mut third = rank_perf(3, [0; 6]);
    third.micro_batch_size = Some(9);
    let report = aggregate_rank_performance_counts(&[first, second, third]).unwrap();
    assert_eq!(report.train_elapsed_ms, 0);
    assert_eq!(report.micro_batch_size, 4);
    assert_eq!(report.grad_accumulation_steps, 3);
    assert_eq!(report.effective_batch_size, 12);
    assert_eq!(report.global_micro_batch_size, 12);
    assert_eq!(report.global_effective_batch_size, 36);
    let mut huge = rank_perf(0, [0; 6]);
    huge.micro_batch_size = Some(u64::MAX);
    huge.grad_accumulation_steps = Some(2);
    let report = aggregate_rank_performance_counts(&[huge]).unwrap();
    assert_eq!(report.effective_batch_size, u64::MAX);
    assert!(aggregate_rank_performance_counts(&[]).is_none());
}

fn field_index(name: &str) -> usize {
    cuda_runtime_field_names().iter().position(|field| *field == name).unwrap()
}

fn family(label: &str, calls: u64, elements: u64, elapsed_us: u64) -> KernelFamilyStats {
    KernelFamilyStats { label: label.to_string(), calls, elements, elapsed_us }
}

#[test]
fn aggregate_rank_cuda_runtime_sums_flash_backward_fields() {
    let names = [
        "flash_bf16_tensor_core_backward_requested_calls",
        "flash_bf16_tensor_core_backward_executed_calls",
        "flash_bf16_tensor_core_backward_fallback_calls",
        "flash_bf16_tensor_core_backward_row_dot_calls",
        "flash_bf16_tensor_core_backward_qk_recompute_mma_tile_calls",
        "flash_bf16_tensor_core_backward_dp_mma_tile_calls",
        "flash_bf16_tensor_core_backward_dq_mma_tile_calls",
        "flash_bf16_tensor_core_backward_dk_mma_tile_calls",
        "flash_bf16_tensor_core_backward_dv_mma_tile_calls",
        "flash_bf16_tensor_core_backward_scalar_tile_calls",
        "flash_bf16_tensor_core_backward_ragged_tile_count",
        "flash_bf16_tensor_core_backward_causal_masked_tile_count",
        "flash_bf16_tensor_core_backward_elapsed_us",
    ];
    let width = cuda_runtime_field_names().len();
    let mut first = vec![0u64; width];
    let mut second = vec![0u64; width];
    first[field_index("kernel_launch_family_elapsed_us")] = 800;
    second[field_index("kernel_launch_family_elapsed_us")] = 1800;
    for (k, name) in names.iter().enumerate() {
        first[field_index(name)] = (k as u64) + 1;
        second[field_index(name)] = ((k as u64) + 1) * 10;
    }
    let ranks = vec![
        RankCudaRuntime {
            counters: first,
            families: vec![
                family("rank2_elementwise", 3, 30, 300),
                family("tensor_core_gemm_cp_async", 5, 50, 500),
            ],
        },
        RankCudaRuntime {
            counters: second,
            families: vec![
                family("rank2_elementwise", 7, 70, 700),
                family("flash_attention_bf16_tensor_core_backward", 11, 110, 1100),
            ],
        },
    ];
    let report = aggregate_rank_cuda_runtime(&ranks);
    let labels: Vec<&str> = report.families.iter().map(|f| f.label.as_str()).collect();
    assert_eq!(
        labels,
        vec!["flash_attention_bf16_tensor_core_backward", "rank2_elementwise", "tensor_core_gemm_cp_async"]
    );
    let elementwise = &report.families[1];
    assert_eq!((elementwise.calls, elementwise.elements, elementwise.elapsed_us), (10, 100, 1000));
    assert_eq!(report.families[2].calls, 5);
    assert_eq!(report.families[0].calls, 11);
    assert_eq!(report.counters[field_index("kernel_launch_family_elapsed_us")], 2600);
    for (k, name) in names.iter().enumerate() {
        assert_eq!(report.counters[field_index(name)], ((k as u64) + 1) * 11);
    }
    assert_eq!(report.counters.len(), 97);
}

#[test]
fn cuda_families_without_timing_sort_by_calls_then_label() {
    let ranks = vec![RankCudaRuntime {
        counters: vec![],
        families: vec![family("b", 2, 1, 0), family("a", 2, 1, 0), family("c", 5, 0, 0), family("b", 0, 0, 0)],
    }];
    let report = aggregate_rank_cuda_runtime(&ranks);
    let labels: Vec<&str> = report.families.iter().map(|f| f.label.as_str()).collect();
    assert_eq!(labels, vec!["c", "a", "b"]);
    assert!(report.counters.iter().all(|c| *c == 0));
    let saturated = vec![RankCudaRuntime {
        counters: vec![],
        families: vec![family("x", u64::MAX, 0, 0), family("x", 5, 0, 0)],
    }];
    assert_eq!(aggregate_rank_cuda_runtime(&saturated).families[0].calls, u64::MAX);
}

fn limits() -> LauncherLimits {
    LauncherLimits { rank_start_timeout_ms: 1000, nccl_init_timeout_ms: Some(500), timeout_ms: Some(10_000) }
}

fn stages(names: &[Option<&str>]) -> Vec<Option<String>> {
    names.iter().map(|name| name.map(str::to_string)).collect()
}

#[test]
fn launcher_step_reports_the_first_failed_rank() {
    let state = LauncherState { completed: vec![false, false, false], nccl_init_seen_at_ms: None };
    let poll = LauncherPoll {
        now_ms: 10,
        exits: vec![RankExit::Succeeded, RankExit::Failed, RankExit::Failed],
        stages: stages(&[Some("done"), Some("training"), Some("training")]),
    };
    let (next, action) = launcher_step(&limits(), &state, &poll);
    assert!(matches!(action, LauncherAction::RankFailed { index: 1 }));
    assert_eq!(next.completed, vec![true, true, false]);
}

#[test]
fn launcher_step_passes_when_every_rank_succeeded() {
    let state = LauncherState { completed: vec![true, false], nccl_init_seen_at_ms: None };
    let poll = LauncherPoll {
        now_ms: 50_000,
        exits: vec![RankExit::Failed, RankExit::Succeeded],
        stages: stages(&[Some("done"), Some("done")]),
    };
    let (next, action) = launcher_step(&limits(), &state, &poll);
    assert!(matches!(action, LauncherAction::Passed));
    assert_eq!(next.completed, vec![true, true]);
}

#[test]
fn launcher_step_names_ranks_that_never_started() {
    let state = LauncherState { completed: vec![false, false, false, false], nccl_init_seen_at_ms: None };
    let poll = LauncherPoll {
        now_ms: 1001,
        exits: vec![RankExit::Running; 4],
        stages: stages(&[Some("spawned"), Some("training"), None, Some("missing")]),
    };
    let (_, action) = launcher_step(&limits(), &state, &poll);
    match action {
        LauncherAction::RankStartTimeout { ranks } => assert_eq!(ranks, vec![0, 2, 3]),
        _ => panic!("expected a rank start timeout"),
    }
    let early = LauncherPoll { now_ms: 1000, ..poll };
    let (_, action) = launcher_step(&limits(), &state, &early);
    assert!(matches!(action, LauncherAction::Wait { progressed: false }));
}

#[test]
fn launcher_step_times_out_nccl_init_and_the_whole_run() {
    let state = LauncherState { completed: vec![false, false], nccl_init_seen_at_ms: None };
    let poll = LauncherPoll {
        now_ms: 100,
        exits: vec![RankExit::Running, RankExit::Running],
        stages: stages(&[Some("nccl_init_start"), Some("nccl_init_done")]),
    };
    let (next, action) = launcher_step(&limits(), &state, &poll);
    assert!(matches!(action, LauncherAction::Wait { progressed: false }));
    assert_eq!(next.nccl_init_seen_at_ms, Some(100));
    let later = LauncherPoll { now_ms: 601, ..poll.clone() };
    let (_, action) = launcher_step(&limits(), &next, &later);
    assert!(matches!(action, LauncherAction::NcclInitTimeout));
    let ready = LauncherPoll {
        now_ms: 10_001,
        exits: vec![RankExit::Running, RankExit::Running],
        stages: stages(&[Some("training"), Some("training")]),
    };
    let (_, action) = launcher_step(&limits(), &next, &ready);
    assert!(matches!(action, LauncherAction::Timeout));
}

#[test]
fn streaming_window_helpers_fill_the_batch_and_count_reads() {
    let mut inputs = Vec::new();
    let mut targets = Vec::new();
    push_window(&mut inputs, &mut targets, &[5, 6, 7, 8], 3);
    assert_eq!(inputs, vec![5, 6, 7]);
    assert_eq!(targets, vec![6, 7, 8]);
    let mut stats = StreamingTokenLoaderStats::default();
    let reads = vec![ShardRead { shard: 0, offset: 3, take: 2 }, ShardRead { shard: 1, offset: 0, take: 2 }];
    record_window_reads(&mut stats, &reads, &[2, 4]);
    assert_eq!(stats.read_calls, 2);
    assert_eq!(stats.bytes_read, 12);
    record_batch(&mut stats, 2, 3);
    assert_eq!((stats.batches, stats.samples, stats.tokens), (1, 2, 6));
}

#[test]
fn merge_in_stops_at_the_first_overflowing_row() {
    let mut left = MemoryAccessCounts::from_row_counts(2, vec![u64::MAX - 1, 0]).unwrap();
    let right = MemoryAccessCounts::from_row_counts(2, vec![0, 0]).unwrap();
    left.merge_in(&right).unwrap();
    let bump = MemoryAccessCounts::from_row_counts(2, vec![2, 0]).unwrap();
    let err = left.merge_in(&bump).unwrap_err();
    assert!(matches!(err, TensorError::InvalidOperation(_)));
    assert_eq!(err.message(), "MemoryAccessCounts merge overflow");
    assert_eq!(left.row_counts, vec![u64::MAX - 1, 0]);
    let mut partial = MemoryAccessCounts::from_row_counts(3, vec![1, u64::MAX - 2, 0]).unwrap();
    let more = MemoryAccessCounts::from_row_counts(3, vec![2, 5, 1]).unwrap();
    let err = partial.merge_in(&more).unwrap_err();
    assert_eq!(err.message(), "MemoryAccessCounts merge overflow");
    assert_eq!(partial.row_counts, vec![3, u64::MAX - 2, 0]);
    assert_eq!(partial.total_events, u64::MAX - 1);
    assert_eq!(partial.unique_rows, 2);
    let other = MemoryAccessCounts::from_row_counts(3, vec![0, 0, 0]).unwrap();
    let err = left.merge_in(&other).unwrap_err();
    assert_eq!(err.message(), "MemoryAccessCounts merge memory_slots mismatch: 2 vs 3");
}

fn checksum_step(step: u64) -> heirloom::step_checksums::StepChecksumEntry {
    heirloom::step_checksums::StepChecksumEntry { step: Some(step), has_sum: true, has_sumsq: true }
}

#[test]
fn ddp_step_checksum_drifts_rejects_misaligned_steps() {
    let ranks = vec![Some(vec![checksum_step(1)]), Some(vec![checksum_step(2)])];
    let err = heirloom::step_checksums::align_step_checksums(
        heirloom::step_checksums::ChecksumKind::Parameters,
        &ranks,
    )
    .unwrap_err();
    assert!(format!("{}", err.to_string()).contains("does not match rank 0 step"));
    assert_eq!(err.message(), "rank 1 step_checksums[0] step 2 does not match rank 0 step 1");
}

#[test]
fn memory_checksums_align_or_name_the_misalignment() {
    let kind = heirloom::step_checksums::ChecksumKind::Memory;
    let ranks = vec![
        Some(vec![checksum_step(1), checksum_step(2)]),
        Some(vec![checksum_step(1), checksum_step(2)]),
    ];
    assert_eq!(heirloom::step_checksums::align_step_checksums(kind, &ranks).unwrap(), vec![1, 2]);
    let short = vec![Some(vec![checksum_step(1), checksum_step(2)]), Some(vec![checksum_step(1)])];
    assert_eq!(
        heirloom::step_checksums::align_step_checksums(kind, &short).unwrap_err().message(),
        "rank 1 memory step_checksums length 1 does not match rank 0 length 2"
    );
    let mut missing = checksum_step(1);
    missing.has_sumsq = false;
    let gap = vec![Some(vec![checksum_step(1)]), Some(vec![missing]), None];
    assert_eq!(
        heirloom::step_checksums::align_step_checksums(kind, &gap).unwrap_err().message(),
        "rank 1 memory step_checksums[0] is missing memory_table_checksum_sumsq"
    );
    let absent = vec![Some(vec![checksum_step(1)]), None];
    assert_eq!(
        heirloom::step_checksums::align_step_checksums(kind, &absent).unwrap_err().message(),
        "rank 1 memory report is missing step_checksums"
    );
    assert!(heirloom::step_checksums::align_step_checksums(kind, &[None, None]).unwrap().is_empty());
}
