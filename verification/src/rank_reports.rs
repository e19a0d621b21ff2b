//! Combining the per-rank reports of a distributed run: performance
//! counters and CUDA runtime counters.

use vstd::prelude::*;
use crate::text::{lex_lt, lex_order, lemma_lex_order, str_eq, Lex};

verus! {

// ---------------------------------------------------------------------------
// Performance
// ---------------------------------------------------------------------------

/// The integer performance counters one rank reports; a counter the rank
/// did not report is `None`.
#[derive(Clone, Copy, Debug, PartialEq, Eq, Structural)]
pub struct RankPerformance {
    pub train_elapsed_ms: Option<u64>,
    pub dataloader_elapsed_ms: Option<u64>,
    pub host_to_device_elapsed_ms: Option<u64>,
    pub forward_backward_elapsed_ms: Option<u64>,
    pub all_reduce_elapsed_ms: Option<u64>,
    pub optimizer_elapsed_ms: Option<u64>,
    pub tokens_seen: Option<u64>,
    pub micro_batch_size: Option<u64>,
    pub grad_accumulation_steps: Option<u64>,
}

/// One counter of a rank's performance report.
#[derive(Clone, Copy, Debug, PartialEq, Eq, Structural)]
pub enum PerformanceField {
    TrainElapsed,
    DataloaderElapsed,
    HostToDeviceElapsed,
    ForwardBackwardElapsed,
    AllReduceElapsed,
    OptimizerElapsed,
    TokensSeen,
    MicroBatchSize,
    GradAccumulationSteps,
}

impl RankPerformance {
    pub open spec fn field_spec(&self, field: PerformanceField) -> Option<u64> {
        match field {
            PerformanceField::TrainElapsed => self.train_elapsed_ms,
            PerformanceField::DataloaderElapsed => self.dataloader_elapsed_ms,
            PerformanceField::HostToDeviceElapsed => self.host_to_device_elapsed_ms,
            PerformanceField::ForwardBackwardElapsed => self.forward_backward_elapsed_ms,
            PerformanceField::AllReduceElapsed => self.all_reduce_elapsed_ms,
            PerformanceField::OptimizerElapsed => self.optimizer_elapsed_ms,
            PerformanceField::TokensSeen => self.tokens_seen,
            PerformanceField::MicroBatchSize => self.micro_batch_size,
            PerformanceField::GradAccumulationSteps => self.grad_accumulation_steps,
        }
    }

    /// The reported value of `field`, if any.
    pub fn field(&self, field: PerformanceField) -> (v: Option<u64>)
        ensures
            v == self.field_spec(field),
    {
        match field {
            PerformanceField::TrainElapsed => self.train_elapsed_ms,
            PerformanceField::DataloaderElapsed => self.dataloader_elapsed_ms,
            PerformanceField::HostToDeviceElapsed => self.host_to_device_elapsed_ms,
            PerformanceField::ForwardBackwardElapsed => self.forward_backward_elapsed_ms,
            PerformanceField::AllReduceElapsed => self.all_reduce_elapsed_ms,
            PerformanceField::OptimizerElapsed => self.optimizer_elapsed_ms,
            PerformanceField::TokensSeen => self.tokens_seen,
            PerformanceField::MicroBatchSize => self.micro_batch_size,
            PerformanceField::GradAccumulationSteps => self.grad_accumulation_steps,
        }
    }
}

/// A reported value, or 0 where the rank reported none.
pub open spec fn reported_or_zero(r: RankPerformance, field: PerformanceField) -> nat {
    match r.field_spec(field) {
        Some(v) => v as nat,
        None => 0,
    }
}

/// The largest value of `field` over the ranks, 0 when none reports it.
pub open spec fn max_reported(ranks: Seq<RankPerformance>, field: PerformanceField) -> nat
    decreases ranks.len(),
{
    if ranks.len() == 0 {
        0
    } else {
        let rest = max_reported(ranks.drop_last(), field);
        let v = reported_or_zero(ranks.last(), field);
        if v > rest {
            v
        } else {
            rest
        }
    }
}

/// The sum of `field` over the ranks, a missing value counting 0.
pub open spec fn sum_reported(ranks: Seq<RankPerformance>, field: PerformanceField) -> nat
    decreases ranks.len(),
{
    if ranks.len() == 0 {
        0
    } else {
        sum_reported(ranks.drop_last(), field) + reported_or_zero(ranks.last(), field)
    }
}

/// The first reported value of `field`, in rank order.
pub open spec fn first_reported(ranks: Seq<RankPerformance>, field: PerformanceField) -> Option<u64>
    decreases ranks.len(),
{
    if ranks.len() == 0 {
        None
    } else if ranks[0].field_spec(field) is Some {
        ranks[0].field_spec(field)
    } else {
        first_reported(ranks.drop_first(), field)
    }
}

/// `a * b`, or `u64::MAX` where the product does not fit.
pub open spec fn saturating_product(a: nat, b: nat) -> nat {
    if a * b > u64::MAX {
        u64::MAX as nat
    } else {
        a * b
    }
}

/// `a * b`, saturating at `u64::MAX`.
pub fn saturating_mul_u64(a: u64, b: u64) -> (r: u64)
    ensures
        r == saturating_product(a as nat, b as nat),
{
    match a.checked_mul(b) {
        Some(p) => p,
        None => u64::MAX,
    }
}

/// The largest reported value of `field`, 0 when no rank reports it.
pub fn max_field(ranks: &[RankPerformance], field: PerformanceField) -> (m: u64)
    ensures
        m == max_reported(ranks@, field),
{
    let mut m: u64 = 0;
    let mut i: usize = 0;
    assert(ranks@.take(0) =~= Seq::<RankPerformance>::empty());
    while i < ranks.len()
        invariant
            i <= ranks.len(),
            m == max_reported(ranks@.take(i as int), field),
        decreases ranks.len() - i,
    {
        assert(ranks@.take(i + 1).drop_last() =~= ranks@.take(i as int));
        match ranks[i].field(field) {
            Some(v) => {
                if v > m {
                    m = v;
                }
            },
            None => {},
        }
        i = i + 1;
    }
    assert(ranks@.take(ranks.len() as int) =~= ranks@);
    m
}

proof fn lemma_sum_reported_prefix(ranks: Seq<RankPerformance>, field: PerformanceField, i: int)
    requires
        0 <= i <= ranks.len(),
    ensures
        sum_reported(ranks.take(i), field) <= sum_reported(ranks, field),
    decreases ranks.len() - i,
{
    if i < ranks.len() {
        lemma_sum_reported_prefix(ranks, field, i + 1);
        assert(ranks.take(i + 1).drop_last() =~= ranks.take(i));
    } else {
        assert(ranks.take(i) =~= ranks);
    }
}

/// The sum of `field` over the ranks, a missing value counting 0.
pub fn sum_field(ranks: &[RankPerformance], field: PerformanceField) -> (s: u64)
    requires
        sum_reported(ranks@, field) <= u64::MAX,
    ensures
        s == sum_reported(ranks@, field),
{
    let mut s: u64 = 0;
    let mut i: usize = 0;
    assert(ranks@.take(0) =~= Seq::<RankPerformance>::empty());
    while i < ranks.len()
        invariant
            i <= ranks.len(),
            sum_reported(ranks@, field) <= u64::MAX,
            s == sum_reported(ranks@.take(i as int), field),
        decreases ranks.len() - i,
    {
        assert(ranks@.take(i + 1).drop_last() =~= ranks@.take(i as int));
        proof {
            lemma_sum_reported_prefix(ranks@, field, i + 1);
        }
        match ranks[i].field(field) {
            Some(v) => {
                s = s + v;
            },
            None => {},
        }
        i = i + 1;
    }
    assert(ranks@.take(ranks.len() as int) =~= ranks@);
    s
}

/// The first reported value of `field`, in rank order.
pub fn first_field(ranks: &[RankPerformance], field: PerformanceField) -> (v: Option<u64>)
    ensures
        v == first_reported(ranks@, field),
{
    let mut i: usize = 0;
    assert(ranks@.skip(0) =~= ranks@);
    while i < ranks.len()
        invariant
            i <= ranks.len(),
            first_reported(ranks@, field) == first_reported(ranks@.skip(i as int), field),
        decreases ranks.len() - i,
    {
        assert(ranks@.skip(i as int)[0] == ranks@[i as int]);
        assert(ranks@.skip(i as int).drop_first() =~= ranks@.skip(i + 1));
        match ranks[i].field(field) {
            Some(v) => {
                return Some(v);
            },
            None => {},
        }
        i = i + 1;
    }
    assert(ranks@.skip(i as int).len() == 0);
    None
}

/// The integer part of a distributed run's performance summary.
#[derive(Clone, Copy, Debug, PartialEq, Eq, Structural)]
pub struct PerformanceAggregate {
    pub tokens_seen: u64,
    pub train_elapsed_ms: u64,
    pub dataloader_elapsed_ms: u64,
    pub host_to_device_elapsed_ms: u64,
    pub forward_backward_elapsed_ms: u64,
    pub all_reduce_elapsed_ms: u64,
    pub optimizer_elapsed_ms: u64,
    pub micro_batch_size: u64,
    pub grad_accumulation_steps: u64,
    pub effective_batch_size: u64,
    pub data_parallel_world_size: usize,
    pub global_micro_batch_size: u64,
    pub global_effective_batch_size: u64,
}

/// The first reported value of `field`, or `default`.
pub open spec fn first_or(ranks: Seq<RankPerformance>, field: PerformanceField, default: u64) -> u64 {
    match first_reported(ranks, field) {
        Some(v) => v,
        None => default,
    }
}

/// Combines the ranks' performance counters: timing buckets are the largest
/// rank's value, tokens are summed, micro-batch size and gradient
/// accumulation come from the first rank that reports them (0 and 1 when
/// none does), and the batch sizes derived from them saturate at
/// `u64::MAX`. No report gives no summary.
pub fn aggregate_rank_performance_counts(ranks: &[RankPerformance]) -> (agg: Option<
    PerformanceAggregate,
>)
    requires
        sum_reported(ranks@, PerformanceField::TokensSeen) <= u64::MAX,
    ensures
        agg is None <==> ranks@.len() == 0,
        agg matches Some(a) ==> {
            let micro = first_or(ranks@, PerformanceField::MicroBatchSize, 0);
            let steps = first_or(ranks@, PerformanceField::GradAccumulationSteps, 1);
            let effective = saturating_product(micro as nat, steps as nat);
            &&& a.tokens_seen == sum_reported(ranks@, PerformanceField::TokensSeen)
            &&& a.train_elapsed_ms == max_reported(ranks@, PerformanceField::TrainElapsed)
            &&& a.dataloader_elapsed_ms == max_reported(ranks@, PerformanceField::DataloaderElapsed)
            &&& a.host_to_device_elapsed_ms == max_reported(ranks@, PerformanceField::HostToDeviceElapsed)
            &&& a.forward_backward_elapsed_ms == max_reported(
                ranks@,
                PerformanceField::ForwardBackwardElapsed,
            )
            &&& a.all_reduce_elapsed_ms == max_reported(ranks@, PerformanceField::AllReduceElapsed)
            &&& a.optimizer_elapsed_ms == max_reported(ranks@, PerformanceField::OptimizerElapsed)
            &&& a.micro_batch_size == micro
            &&& a.grad_accumulation_steps == steps
            &&& a.effective_batch_size == effective
            &&& a.data_parallel_world_size == ranks@.len()
            &&& a.global_micro_batch_size == saturating_product(micro as nat, ranks@.len())
            &&& a.global_effective_batch_size == saturating_product(effective, ranks@.len())
        },
{
    if ranks.len() == 0 {
        return None;
    }
    let micro = match first_field(ranks, PerformanceField::MicroBatchSize) {
        Some(v) => v,
        None => 0,
    };
    let steps = match first_field(ranks, PerformanceField::GradAccumulationSteps) {
        Some(v) => v,
        None => 1,
    };
    let world = ranks.len() as u64;
    let effective = saturating_mul_u64(micro, steps);
    Some(
        PerformanceAggregate {
            tokens_seen: sum_field(ranks, PerformanceField::TokensSeen),
            train_elapsed_ms: max_field(ranks, PerformanceField::TrainElapsed),
            dataloader_elapsed_ms: max_field(ranks, PerformanceField::DataloaderElapsed),
            host_to_device_elapsed_ms: max_field(ranks, PerformanceField::HostToDeviceElapsed),
            forward_backward_elapsed_ms: max_field(ranks, PerformanceField::ForwardBackwardElapsed),
            all_reduce_elapsed_ms: max_field(ranks, PerformanceField::AllReduceElapsed),
            optimizer_elapsed_ms: max_field(ranks, PerformanceField::OptimizerElapsed),
            micro_batch_size: micro,
            grad_accumulation_steps: steps,
            effective_batch_size: effective,
            data_parallel_world_size: ranks.len(),
            global_micro_batch_size: saturating_mul_u64(micro, world),
            global_effective_batch_size: saturating_mul_u64(effective, world),
        },
    )
}

// ---------------------------------------------------------------------------
// CUDA runtime counters
// ---------------------------------------------------------------------------

/// Number of CUDA runtime counters a rank reports.
pub const CUDA_RUNTIME_FIELD_COUNT: usize = 97;

/// The names of the CUDA runtime counters, in counter order.
pub open spec fn cuda_runtime_field_name_list() -> Seq<Seq<char>> {
    seq![
        "kernel_launch_calls"@,
        "kernel_launch_elements"@,
        "kernel_launch_family_elapsed_us"@,
        "host_sync_calls"@,
        "stream_create_calls"@,
        "stream_sync_calls"@,
        "event_create_calls"@,
        "event_record_calls"@,
        "event_query_calls"@,
        "event_elapsed_calls"@,
        "h2d_bytes"@,
        "d2h_bytes"@,
        "d2d_bytes"@,
        "allocation_active_bytes"@,
        "allocation_reserved_bytes"@,
        "allocation_high_water_bytes"@,
        "allocation_calls"@,
        "allocation_cache_hits"@,
        "allocation_frees"@,
        "allocation_deferred_frees"@,
        "allocation_pending_reclaims"@,
        "module_load_calls"@,
        "module_cache_hits"@,
        "tensor_core_padded_tiles"@,
        "tensor_core_remainder_tiles"@,
        "tensor_core_cta_gemm_calls"@,
        "tensor_core_cta_tiles"@,
        "tensor_core_cta_warps_launched"@,
        "tensor_core_mma_warp_tiles"@,
        "tensor_core_staged_cta_gemm_calls"@,
        "tensor_core_staged_cta_gemm_elapsed_us"@,
        "tensor_core_shared_stage_tiles"@,
        "tensor_core_shared_stage_bytes"@,
        "tensor_core_wide_swizzled_cta_gemm_calls"@,
        "tensor_core_wide_swizzled_cta_gemm_elapsed_us"@,
        "tensor_core_swizzled_stage_tiles"@,
        "tensor_core_swizzled_stage_bytes"@,
        "tensor_core_ldmatrix_gemm_requested_calls"@,
        "tensor_core_ldmatrix_gemm_executed_calls"@,
        "tensor_core_ldmatrix_gemm_staged_fallback_calls"@,
        "tensor_core_ldmatrix_gemm_hard_require_failures"@,
        "tensor_core_ldmatrix_gemm_instructions"@,
        "tensor_core_ldmatrix_gemm_elapsed_us"@,
        "tensor_core_cp_async_gemm_requested_calls"@,
        "tensor_core_cp_async_gemm_executed_calls"@,
        "tensor_core_cp_async_gemm_staged_fallback_calls"@,
        "tensor_core_cp_async_gemm_hard_require_failures"@,
        "tensor_core_cp_async_gemm_instructions"@,
        "tensor_core_cp_async_gemm_elapsed_us"@,
        "tensor_core_global_cta_gemm_calls"@,
        "tensor_core_global_cta_gemm_elapsed_us"@,
        "tensor_core_legacy_warp_gemm_calls"@,
        "tensor_core_legacy_warp_gemm_elapsed_us"@,
        "tensor_core_attention_padded_tiles"@,
        "tensor_core_attention_remainder_tiles"@,
        "tensor_core_attention_scalar_fallbacks"@,
        "tensor_core_attention_ldmatrix_requested_calls"@,
        "tensor_core_attention_ldmatrix_global_fallback_calls"@,
        "tensor_core_attention_cp_async_requested_calls"@,
        "tensor_core_attention_cp_async_global_fallback_calls"@,
        "bf16_attention_materialized_reference_calls"@,
        "flash_bf16_attention_requested_calls"@,
        "flash_bf16_attention_executed_calls"@,
        "flash_bf16_attention_fallback_calls"@,
        "flash_bf16_attention_scalar_fallback_calls"@,
        "flash_bf16_attention_qk_tile_calls"@,
        "flash_bf16_attention_av_tile_calls"@,
        "flash_bf16_attention_ragged_tile_count"@,
        "flash_bf16_attention_causal_masked_tile_count"@,
        "flash_bf16_attention_elapsed_us"@,
        "flash_bf16_attention_hard_require_failures"@,
        "flash_bf16_scalar_streaming_requested_calls"@,
        "flash_bf16_scalar_streaming_executed_calls"@,
        "flash_bf16_scalar_streaming_qk_tile_calls"@,
        "flash_bf16_scalar_streaming_av_tile_calls"@,
        "flash_bf16_scalar_streaming_elapsed_us"@,
        "flash_bf16_tensor_core_requested_calls"@,
        "flash_bf16_tensor_core_executed_calls"@,
        "flash_bf16_tensor_core_fallback_calls"@,
        "flash_bf16_tensor_core_qk_mma_tile_calls"@,
        "flash_bf16_tensor_core_av_mma_tile_calls"@,
        "flash_bf16_tensor_core_ragged_tile_count"@,
        "flash_bf16_tensor_core_causal_masked_tile_count"@,
        "flash_bf16_tensor_core_elapsed_us"@,
        "flash_bf16_tensor_core_backward_requested_calls"@,
        "flash_bf16_tensor_core_backward_executed_calls"@,
        "flash_bf16_tensor_core_backward_fallback_calls"@,
        "flash_bf16_tensor_core_backward_row_dot_calls"@,
        "flash_bf16_tensor_core_backward_qk_recompute_mma_tile_calls"@,
        "flash_bf16_tensor_core_backward_dp_mma_tile_calls"@,
        "flash_bf16_tensor_core_backward_dq_mma_tile_calls"@,
        "flash_bf16_tensor_core_backward_dk_mma_tile_calls"@,
        "flash_bf16_tensor_core_backward_dv_mma_tile_calls"@,
        "flash_bf16_tensor_core_backward_scalar_tile_calls"@,
        "flash_bf16_tensor_core_backward_ragged_tile_count"@,
        "flash_bf16_tensor_core_backward_causal_masked_tile_count"@,
        "flash_bf16_tensor_core_backward_elapsed_us"@,
    ]
}

/// The names of the CUDA runtime counters, in the order in which
/// `RankCudaRuntime::counters` and `CudaRuntimeAggregate::counters` hold
/// them.
pub fn cuda_runtime_field_names() -> (names: Vec<&'static str>)
    ensures
        names@.len() == CUDA_RUNTIME_FIELD_COUNT,
        forall|i: int| 0 <= i < CUDA_RUNTIME_FIELD_COUNT ==> (#[trigger] names@[i])@ == cuda_runtime_field_name_list()[i],
{
    let names = vec![
        "kernel_launch_calls",
        "kernel_launch_elements",
        "kernel_launch_family_elapsed_us",
        "host_sync_calls",
        "stream_create_calls",
        "stream_sync_calls",
        "event_create_calls",
        "event_record_calls",
        "event_query_calls",
        "event_elapsed_calls",
        "h2d_bytes",
        "d2h_bytes",
        "d2d_bytes",
        "allocation_active_bytes",
        "allocation_reserved_bytes",
        "allocation_high_water_bytes",
        "allocation_calls",
        "allocation_cache_hits",
        "allocation_frees",
        "allocation_deferred_frees",
        "allocation_pending_reclaims",
        "module_load_calls",
        "module_cache_hits",
        "tensor_core_padded_tiles",
        "tensor_core_remainder_tiles",
        "tensor_core_cta_gemm_calls",
        "tensor_core_cta_tiles",
        "tensor_core_cta_warps_launched",
        "tensor_core_mma_warp_tiles",
        "tensor_core_staged_cta_gemm_calls",
        "tensor_core_staged_cta_gemm_elapsed_us",
        "tensor_core_shared_stage_tiles",
        "tensor_core_shared_stage_bytes",
        "tensor_core_wide_swizzled_cta_gemm_calls",
        "tensor_core_wide_swizzled_cta_gemm_elapsed_us",
        "tensor_core_swizzled_stage_tiles",
        "tensor_core_swizzled_stage_bytes",
        "tensor_core_ldmatrix_gemm_requested_calls",
        "tensor_core_ldmatrix_gemm_executed_calls",
        "tensor_core_ldmatrix_gemm_staged_fallback_calls",
        "tensor_core_ldmatrix_gemm_hard_require_failures",
        "tensor_core_ldmatrix_gemm_instructions",
        "tensor_core_ldmatrix_gemm_elapsed_us",
        "tensor_core_cp_async_gemm_requested_calls",
        "tensor_core_cp_async_gemm_executed_calls",
        "tensor_core_cp_async_gemm_staged_fallback_calls",
        "tensor_core_cp_async_gemm_hard_require_failures",
        "tensor_core_cp_async_gemm_instructions",
        "tensor_core_cp_async_gemm_elapsed_us",
        "tensor_core_global_cta_gemm_calls",
        "tensor_core_global_cta_gemm_elapsed_us",
        "tensor_core_legacy_warp_gemm_calls",
        "tensor_core_legacy_warp_gemm_elapsed_us",
        "tensor_core_attention_padded_tiles",
        "tensor_core_attention_remainder_tiles",
        "tensor_core_attention_scalar_fallbacks",
        "tensor_core_attention_ldmatrix_requested_calls",
        "tensor_core_attention_ldmatrix_global_fallback_calls",
        "tensor_core_attention_cp_async_requested_calls",
        "tensor_core_attention_cp_async_global_fallback_calls",
        "bf16_attention_materialized_reference_calls",
        "flash_bf16_attention_requested_calls",
        "flash_bf16_attention_executed_calls",
        "flash_bf16_attention_fallback_calls",
        "flash_bf16_attention_scalar_fallback_calls",
        "flash_bf16_attention_qk_tile_calls",
        "flash_bf16_attention_av_tile_calls",
        "flash_bf16_attention_ragged_tile_count",
        "flash_bf16_attention_causal_masked_tile_count",
        "flash_bf16_attention_elapsed_us",
        "flash_bf16_attention_hard_require_failures",
        "flash_bf16_scalar_streaming_requested_calls",
        "flash_bf16_scalar_streaming_executed_calls",
        "flash_bf16_scalar_streaming_qk_tile_calls",
        "flash_bf16_scalar_streaming_av_tile_calls",
        "flash_bf16_scalar_streaming_elapsed_us",
        "flash_bf16_tensor_core_requested_calls",
        "flash_bf16_tensor_core_executed_calls",
        "flash_bf16_tensor_core_fallback_calls",
        "flash_bf16_tensor_core_qk_mma_tile_calls",
        "flash_bf16_tensor_core_av_mma_tile_calls",
        "flash_bf16_tensor_core_ragged_tile_count",
        "flash_bf16_tensor_core_causal_masked_tile_count",
        "flash_bf16_tensor_core_elapsed_us",
        "flash_bf16_tensor_core_backward_requested_calls",
        "flash_bf16_tensor_core_backward_executed_calls",
        "flash_bf16_tensor_core_backward_fallback_calls",
        "flash_bf16_tensor_core_backward_row_dot_calls",
        "flash_bf16_tensor_core_backward_qk_recompute_mma_tile_calls",
        "flash_bf16_tensor_core_backward_dp_mma_tile_calls",
        "flash_bf16_tensor_core_backward_dq_mma_tile_calls",
        "flash_bf16_tensor_core_backward_dk_mma_tile_calls",
        "flash_bf16_tensor_core_backward_dv_mma_tile_calls",
        "flash_bf16_tensor_core_backward_scalar_tile_calls",
        "flash_bf16_tensor_core_backward_ragged_tile_count",
        "flash_bf16_tensor_core_backward_causal_masked_tile_count",
        "flash_bf16_tensor_core_backward_elapsed_us",
    ];
    assert(names@.map_values(|n: &'static str| n@) =~= cuda_runtime_field_name_list());
    proof {
        assert forall|i: int| 0 <= i < CUDA_RUNTIME_FIELD_COUNT implies (#[trigger] names@[i])@
            == cuda_runtime_field_name_list()[i] by {
            assert(names@.map_values(|n: &'static str| n@)[i] == names@[i]@);
        }
    }
    names
}

/// One kernel family's launch totals, keyed by its label.
#[derive(Clone, Debug)]
pub struct KernelFamilyStats {
    pub label: String,
    pub calls: u64,
    pub elements: u64,
    pub elapsed_us: u64,
}

/// The CUDA runtime section of one rank's report: the counters, in the
/// order of `cuda_runtime_field_names` (a missing trailing counter counts
/// 0), and the per-family launch totals.
#[derive(Clone, Debug)]
pub struct RankCudaRuntime {
    pub counters: Vec<u64>,
    pub families: Vec<KernelFamilyStats>,
}

/// The CUDA runtime section of a distributed run: every counter summed over
/// the ranks, and one entry per kernel family.
#[derive(Clone, Debug)]
pub struct CudaRuntimeAggregate {
    pub counters: Vec<u64>,
    pub families: Vec<KernelFamilyStats>,
}

/// Counter `f` of a rank, 0 where the rank does not report it.
pub open spec fn counter_of(r: RankCudaRuntime, f: int) -> nat {
    if 0 <= f < r.counters@.len() {
        r.counters@[f] as nat
    } else {
        0
    }
}

/// Counter `f` summed over the ranks.
pub open spec fn counter_total(ranks: Seq<RankCudaRuntime>, f: int) -> nat
    decreases ranks.len(),
{
    if ranks.len() == 0 {
        0
    } else {
        counter_total(ranks.drop_last(), f) + counter_of(ranks.last(), f)
    }
}

/// Every family entry of every rank, in rank order.
pub open spec fn family_entries(ranks: Seq<RankCudaRuntime>) -> Seq<KernelFamilyStats>
    decreases ranks.len(),
{
    if ranks.len() == 0 {
        Seq::empty()
    } else {
        family_entries(ranks.drop_last()) + ranks.last().families@
    }
}

/// One of a family's three totals.
#[derive(Clone, Copy, Debug, PartialEq, Eq, Structural)]
pub enum FamilyStat {
    Calls,
    Elements,
    ElapsedUs,
}

pub open spec fn stat_of(e: KernelFamilyStats, s: FamilyStat) -> nat {
    match s {
        FamilyStat::Calls => e.calls as nat,
        FamilyStat::Elements => e.elements as nat,
        FamilyStat::ElapsedUs => e.elapsed_us as nat,
    }
}

/// Total `s` of the entries labelled `label`.
pub open spec fn family_total(es: Seq<KernelFamilyStats>, label: Seq<char>, s: FamilyStat) -> nat
    decreases es.len(),
{
    if es.len() == 0 {
        0
    } else {
        family_total(es.drop_last(), label, s) + (if es.last().label@ == label {
            stat_of(es.last(), s)
        } else {
            0
        })
    }
}

/// `n`, saturated at `u64::MAX`.
pub open spec fn capped(n: nat) -> nat {
    if n > u64::MAX {
        u64::MAX as nat
    } else {
        n
    }
}

/// Some entry is labelled `label`.
pub open spec fn has_label(es: Seq<KernelFamilyStats>, label: Seq<char>) -> bool {
    exists|k: int| 0 <= k < es.len() && #[trigger] es[k].label@ == label
}

/// Some family reported elapsed time.
pub open spec fn any_elapsed(fs: Seq<KernelFamilyStats>) -> bool {
    exists|i: int| 0 <= i < fs.len() && #[trigger] fs[i].elapsed_us > 0
}

/// Report order of families: more elapsed time first (when `timed`), then
/// more calls, then more elements, then label order.
pub open spec fn family_before(a: KernelFamilyStats, b: KernelFamilyStats, timed: bool) -> bool {
    if timed && a.elapsed_us != b.elapsed_us {
        a.elapsed_us > b.elapsed_us
    } else if a.calls != b.calls {
        a.calls > b.calls
    } else if a.elements != b.elements {
        a.elements > b.elements
    } else {
        lex_lt(a.label@, b.label@)
    }
}

/// The families are listed strictly in report order.
pub open spec fn families_sorted(fs: Seq<KernelFamilyStats>, timed: bool) -> bool {
    forall|i: int, j: int| 0 <= i < j < fs.len() ==> family_before(#[trigger] fs[i], #[trigger] fs[j], timed)
}

/// `family_before` is a strict order, total on distinct labels.
pub proof fn lemma_family_order(a: KernelFamilyStats, b: KernelFamilyStats, c: KernelFamilyStats, timed: bool)
    ensures
        !family_before(a, a, timed),
        family_before(a, b, timed) ==> !family_before(b, a, timed),
        a.label@ != b.label@ ==> family_before(a, b, timed) || family_before(b, a, timed),
        family_before(a, b, timed) && family_before(b, c, timed) ==> family_before(a, c, timed),
{
    lemma_lex_order(a.label@, b.label@, c.label@);
    lemma_lex_order(b.label@, a.label@, c.label@);
}

proof fn lemma_counter_total_prefix(ranks: Seq<RankCudaRuntime>, f: int, i: int)
    requires
        0 <= i <= ranks.len(),
    ensures
        counter_total(ranks.take(i), f) <= counter_total(ranks, f),
    decreases ranks.len() - i,
{
    if i < ranks.len() {
        lemma_counter_total_prefix(ranks, f, i + 1);
        assert(ranks.take(i + 1).drop_last() =~= ranks.take(i));
    } else {
        assert(ranks.take(i) =~= ranks);
    }
}

proof fn lemma_total_absent(es: Seq<KernelFamilyStats>, label: Seq<char>, s: FamilyStat)
    requires
        !has_label(es, label),
    ensures
        family_total(es, label, s) == 0,
    decreases es.len(),
{
    if es.len() > 0 {
        assert(es.drop_last().len() < es.len());
        if has_label(es.drop_last(), label) {
            let k = choose|k: int| 0 <= k < es.drop_last().len() && #[trigger] es.drop_last()[k].label@ == label;
            assert(es[k].label@ == label);
        }
        assert(es[es.len() - 1].label@ != label);
        lemma_total_absent(es.drop_last(), label, s);
    }
}

/// Counter `f` summed over the ranks.
fn sum_counter(ranks: &[RankCudaRuntime], f: usize) -> (s: u64)
    requires
        counter_total(ranks@, f as int) <= u64::MAX,
    ensures
        s == counter_total(ranks@, f as int),
{
    let mut s: u64 = 0;
    let mut i: usize = 0;
    assert(ranks@.take(0) =~= Seq::<RankCudaRuntime>::empty());
    while i < ranks.len()
        invariant
            i <= ranks.len(),
            counter_total(ranks@, f as int) <= u64::MAX,
            s == counter_total(ranks@.take(i as int), f as int),
        decreases ranks.len() - i,
    {
        assert(ranks@.take(i + 1).drop_last() =~= ranks@.take(i as int));
        proof {
            lemma_counter_total_prefix(ranks@, f as int, i + 1);
        }
        if f < ranks[i].counters.len() {
            s = s + ranks[i].counters[f];
        }
        i = i + 1;
    }
    assert(ranks@.take(ranks.len() as int) =~= ranks@);
    s
}

/// Whether `a` comes before `b` in report order.
fn family_precedes(a: &KernelFamilyStats, b: &KernelFamilyStats, timed: bool) -> (r: bool)
    ensures
        r == family_before(*a, *b, timed),
{
    if timed && a.elapsed_us != b.elapsed_us {
        a.elapsed_us > b.elapsed_us
    } else if a.calls != b.calls {
        a.calls > b.calls
    } else if a.elements != b.elements {
        a.elements > b.elements
    } else {
        match lex_order(a.label.as_str(), b.label.as_str()) {
            Lex::Before => true,
            _ => false,
        }
    }
}

/// Some label of `labels` reads `label`.
pub open spec fn in_labels(labels: Seq<String>, label: Seq<char>) -> bool {
    exists|i: int| 0 <= i < labels.len() && #[trigger] labels[i]@ == label
}

/// `labels` and `stats` hold, once per label seen in `seen`, that label's
/// saturated totals.
pub open spec fn accumulated(labels: Seq<String>, stats: Seq<(u64, u64, u64)>, seen: Seq<KernelFamilyStats>) -> bool {
    &&& labels.len() == stats.len()
    &&& forall|i: int, j: int| 0 <= i < j < labels.len() ==> #[trigger] labels[i]@ != #[trigger] labels[j]@
    &&& forall|i: int| 0 <= i < labels.len() ==> has_label(seen, #[trigger] labels[i]@)
    &&& forall|k: int| 0 <= k < seen.len() ==> in_labels(labels, #[trigger] seen[k].label@)
    &&& forall|i: int| 0 <= i < labels.len() ==> #[trigger] totals_at(labels, stats, seen, i)
}

/// Entry `i` holds the saturated totals of its label over `seen`.
pub open spec fn totals_at(labels: Seq<String>, stats: Seq<(u64, u64, u64)>, seen: Seq<KernelFamilyStats>, i: int) -> bool {
    &&& stats[i].0 == capped(family_total(seen, labels[i]@, FamilyStat::Calls))
    &&& stats[i].1 == capped(family_total(seen, labels[i]@, FamilyStat::Elements))
    &&& stats[i].2 == capped(family_total(seen, labels[i]@, FamilyStat::ElapsedUs))
}

proof fn lemma_total_push(es: Seq<KernelFamilyStats>, e: KernelFamilyStats, label: Seq<char>)
    ensures
        family_total(es.push(e), label, FamilyStat::Calls) == family_total(es, label, FamilyStat::Calls) + (
        if e.label@ == label {
            e.calls as nat
        } else {
            0
        }),
        family_total(es.push(e), label, FamilyStat::Elements) == family_total(es, label, FamilyStat::Elements)
            + (if e.label@ == label {
            e.elements as nat
        } else {
            0
        }),
        family_total(es.push(e), label, FamilyStat::ElapsedUs) == family_total(es, label, FamilyStat::ElapsedUs)
            + (if e.label@ == label {
            e.elapsed_us as nat
        } else {
            0
        }),
{
    assert(es.push(e).drop_last() =~= es);
}

/// Folds one family entry into the accumulated totals.
fn add_family_entry(
    labels: &mut Vec<String>,
    stats: &mut Vec<(u64, u64, u64)>,
    e: &KernelFamilyStats,
    Ghost(seen): Ghost<Seq<KernelFamilyStats>>,
)
    requires
        accumulated(old(labels)@, old(stats)@, seen),
    ensures
        accumulated(final(labels)@, final(stats)@, seen.push(*e)),
{
    let ghost next = seen.push(*e);
    proof {
        assert forall|l: Seq<char>| has_label(seen, l) implies has_label(next, l) by {
            let k = choose|k: int| 0 <= k < seen.len() && #[trigger] seen[k].label@ == l;
            assert(next[k].label@ == l);
        }
        assert(next[seen.len() as int] == *e);
        assert(has_label(next, e.label@));
    }
    let mut j: usize = 0;
    while j < labels.len()
        invariant
            j <= labels.len(),
            accumulated(labels@, stats@, seen),
            forall|q: int| 0 <= q < j ==> labels@[q]@ != e.label@,
        ensures
            j <= labels.len(),
            accumulated(labels@, stats@, seen),
            forall|q: int| 0 <= q < j ==> labels@[q]@ != e.label@,
            j < labels.len() ==> labels@[j as int]@ == e.label@,
        decreases labels.len() - j,
    {
        if str_eq(labels[j].as_str(), e.label.as_str()) {
            break;
        }
        j = j + 1;
    }
    if j < labels.len() {
        let (c, m, t) = stats[j];
        let ghost old_labels = labels@;
        let ghost old_stats = stats@;
        stats.set(j, (c.saturating_add(e.calls), m.saturating_add(e.elements), t.saturating_add(e.elapsed_us)));
        proof {
            assert(labels@[j as int]@ == e.label@);
            assert forall|i: int| 0 <= i < labels@.len() implies #[trigger] totals_at(labels@, stats@, next, i) by {
                lemma_total_push(seen, *e, labels@[i]@);
                assert(totals_at(old_labels, old_stats, seen, i));
                assert(labels@ == old_labels);
                if i != j {
                    if i < j {
                        assert(labels@[i]@ != labels@[j as int]@);
                    } else {
                        assert(labels@[j as int]@ != labels@[i]@);
                    }
                    assert(stats@[i] == old_stats[i]);
                }
            }
            assert forall|k: int| 0 <= k < next.len() implies in_labels(labels@, #[trigger] next[k].label@) by {
                if k < seen.len() {
                    assert(next[k] == seen[k]);
                    assert(in_labels(labels@, seen[k].label@));
                } else {
                    assert(labels@[j as int]@ == next[k].label@);
                }
            }
            assert forall|i: int| 0 <= i < labels@.len() implies has_label(next, #[trigger] labels@[i]@) by {
                assert(has_label(seen, labels@[i]@));
            }
            assert(labels@ == old_labels);
            assert(stats@.len() == labels@.len());
            assert forall|i: int, q: int| 0 <= i < q < labels@.len() implies #[trigger] labels@[i]@
                != #[trigger] labels@[q]@ by {
                assert(old_labels[i]@ != old_labels[q]@);
            }
        }
    } else {
        let ghost old_labels = labels@;
        let ghost old_stats = stats@;
        proof {
            if has_label(seen, e.label@) {
                let k = choose|k: int| 0 <= k < seen.len() && #[trigger] seen[k].label@ == e.label@;
                assert(in_labels(labels@, seen[k].label@));
                let i = choose|i: int| 0 <= i < labels@.len() && #[trigger] labels@[i]@ == seen[k].label@;
                assert(labels@[i]@ != e.label@);
            }
            lemma_total_absent(seen, e.label@, FamilyStat::Calls);
            lemma_total_absent(seen, e.label@, FamilyStat::Elements);
            lemma_total_absent(seen, e.label@, FamilyStat::ElapsedUs);
            lemma_total_push(seen, *e, e.label@);
        }
        labels.push(e.label.clone());
        stats.push((e.calls, e.elements, e.elapsed_us));
        proof {
            let n = old_labels.len() as int;
            assert(labels@[n]@ == e.label@);
            assert forall|i: int| 0 <= i < labels@.len() implies #[trigger] totals_at(labels@, stats@, next, i) by {
                lemma_total_push(seen, *e, labels@[i]@);
                if i < n {
                    assert(labels@[i] == old_labels[i]);
                    assert(stats@[i] == old_stats[i]);
                    assert(old_labels[i]@ != e.label@);
                    assert(totals_at(old_labels, old_stats, seen, i));
                }
            }
            assert forall|i: int, q: int| 0 <= i < q < labels@.len() implies #[trigger] labels@[i]@
                != #[trigger] labels@[q]@ by {
                if q == n {
                    assert(old_labels[i]@ != e.label@);
                } else {
                    assert(old_labels[i]@ != old_labels[q]@);
                }
            }
            assert forall|k: int| 0 <= k < next.len() implies in_labels(labels@, #[trigger] next[k].label@) by {
                if k < seen.len() {
                    assert(next[k] == seen[k]);
                    assert(in_labels(old_labels, seen[k].label@));
                    let i = choose|i: int| 0 <= i < old_labels.len() && #[trigger] old_labels[i]@ == seen[k].label@;
                    assert(labels@[i]@ == seen[k].label@);
                } else {
                    assert(labels@[n]@ == next[k].label@);
                }
            }
            assert forall|i: int| 0 <= i < labels@.len() implies has_label(next, #[trigger] labels@[i]@) by {
                if i < n {
                    assert(labels@[i] == old_labels[i]);
                    assert(has_label(seen, old_labels[i]@));
                }
            }
        }
    }
}

/// Every family entry of every rank, folded into one saturated total per
/// label.
fn accumulate_families(ranks: &[RankCudaRuntime]) -> (acc: (Vec<String>, Vec<(u64, u64, u64)>))
    ensures
        accumulated(acc.0@, acc.1@, family_entries(ranks@)),
{
    let mut labels: Vec<String> = Vec::new();
    let mut stats: Vec<(u64, u64, u64)> = Vec::new();
    let mut r: usize = 0;
    assert(ranks@.take(0) =~= Seq::<RankCudaRuntime>::empty());
    while r < ranks.len()
        invariant
            r <= ranks.len(),
            accumulated(labels@, stats@, family_entries(ranks@.take(r as int))),
        decreases ranks.len() - r,
    {
        let ghost base = family_entries(ranks@.take(r as int));
        let families = &ranks[r].families;
        let mut j: usize = 0;
        assert(families@.take(0) =~= Seq::<KernelFamilyStats>::empty());
        assert(base + families@.take(0) =~= base);
        while j < families.len()
            invariant
                j <= families.len(),
                families@ == ranks@[r as int].families@,
                accumulated(labels@, stats@, base + families@.take(j as int)),
            decreases families.len() - j,
        {
            add_family_entry(&mut labels, &mut stats, &families[j], Ghost(base + families@.take(j as int)));
            assert(base + families@.take(j + 1) =~= (base + families@.take(j as int)).push(families@[j as int]));
            j = j + 1;
        }
        proof {
            assert(ranks@.take(r + 1).drop_last() =~= ranks@.take(r as int));
            assert(ranks@.take(r + 1).last() == ranks@[r as int]);
            assert(families@.take(families@.len() as int) =~= families@);
            assert(family_entries(ranks@.take(r + 1)) == base + families@);
        }
        r = r + 1;
    }
    assert(ranks@.take(ranks.len() as int) =~= ranks@);
    (labels, stats)
}

/// No two families share a label.
pub open spec fn labels_distinct(fs: Seq<KernelFamilyStats>) -> bool {
    forall|i: int, j: int| 0 <= i < j < fs.len() ==> #[trigger] fs[i].label@ != #[trigger] fs[j].label@
}

/// `x` is accumulated entry `t` for some `t < upto`.
pub open spec fn from_acc(labels: Seq<String>, stats: Seq<(u64, u64, u64)>, x: KernelFamilyStats, upto: int) -> bool {
    exists|t: int|
        0 <= t < upto && #[trigger] labels[t]@ == x.label@ && stats[t] == (x.calls, x.elements, x.elapsed_us)
}

/// Some family is labelled `label`.
pub open spec fn in_families(fs: Seq<KernelFamilyStats>, label: Seq<char>) -> bool {
    exists|i: int| 0 <= i < fs.len() && #[trigger] fs[i].label@ == label
}

proof fn lemma_insert_sorted(fs: Seq<KernelFamilyStats>, p: int, x: KernelFamilyStats, timed: bool)
    requires
        families_sorted(fs, timed),
        0 <= p <= fs.len(),
        forall|q: int| 0 <= q < p ==> family_before(#[trigger] fs[q], x, timed),
        forall|q: int| p <= q < fs.len() ==> family_before(x, #[trigger] fs[q], timed),
    ensures
        families_sorted(fs.insert(p, x), timed),
{
    let g = fs.insert(p, x);
    assert forall|i: int, j: int| 0 <= i < j < g.len() implies family_before(#[trigger] g[i], #[trigger] g[j], timed) by {
        if j < p {
            assert(g[i] == fs[i] && g[j] == fs[j]);
        } else if j == p {
            assert(g[i] == fs[i]);
        } else if i < p {
            assert(g[i] == fs[i] && g[j] == fs[j - 1]);
        } else if i == p {
            assert(g[j] == fs[j - 1]);
        } else {
            assert(g[i] == fs[i - 1] && g[j] == fs[j - 1]);
        }
    }
}

/// The accumulated families, listed in report order.
fn sort_families(labels: &Vec<String>, stats: &Vec<(u64, u64, u64)>, timed: bool) -> (out: Vec<KernelFamilyStats>)
    requires
        labels@.len() == stats@.len(),
        forall|i: int, j: int| 0 <= i < j < labels@.len() ==> #[trigger] labels@[i]@ != #[trigger] labels@[j]@,
    ensures
        families_sorted(out@, timed),
        labels_distinct(out@),
        forall|i: int| 0 <= i < out@.len() ==> from_acc(labels@, stats@, #[trigger] out@[i], labels@.len() as int),
        forall|t: int| 0 <= t < labels@.len() ==> in_families(out@, #[trigger] labels@[t]@),
{
    let mut out: Vec<KernelFamilyStats> = Vec::new();
    let mut t: usize = 0;
    while t < labels.len()
        invariant
            t <= labels@.len(),
            labels@.len() == stats@.len(),
            forall|i: int, j: int| 0 <= i < j < labels@.len() ==> #[trigger] labels@[i]@ != #[trigger] labels@[j]@,
            families_sorted(out@, timed),
            labels_distinct(out@),
            forall|i: int| 0 <= i < out@.len() ==> from_acc(labels@, stats@, #[trigger] out@[i], t as int),
            forall|u: int| 0 <= u < t ==> in_families(out@, #[trigger] labels@[u]@),
        decreases labels@.len() - t,
    {
        let (c, m, e) = stats[t];
        let x = KernelFamilyStats { label: labels[t].clone(), calls: c, elements: m, elapsed_us: e };
        proof {
            assert forall|i: int| 0 <= i < out@.len() implies #[trigger] out@[i].label@ != x.label@ by {
                let u = choose|u: int|
                    0 <= u < t && #[trigger] labels@[u]@ == out@[i].label@ && stats@[u] == (
                        out@[i].calls,
                        out@[i].elements,
                        out@[i].elapsed_us,
                    );
                assert(labels@[u]@ != labels@[t as int]@);
            }
        }
        let mut p: usize = 0;
        while p < out.len()
            invariant
                p <= out@.len(),
                forall|i: int| 0 <= i < out@.len() ==> #[trigger] out@[i].label@ != x.label@,
                forall|q: int| 0 <= q < p ==> family_before(#[trigger] out@[q], x, timed),
            ensures
                p <= out@.len(),
                forall|q: int| 0 <= q < p ==> family_before(#[trigger] out@[q], x, timed),
                p < out@.len() ==> family_before(x, out@[p as int], timed),
            decreases out@.len() - p,
        {
            if family_precedes(&x, &out[p], timed) {
                break;
            }
            proof {
                lemma_family_order(x, out@[p as int], x, timed);
            }
            p = p + 1;
        }
        proof {
            assert forall|q: int| p <= q < out@.len() implies family_before(x, #[trigger] out@[q], timed) by {
                if q > p {
                    lemma_family_order(x, out@[p as int], out@[q], timed);
                }
            }
            lemma_insert_sorted(out@, p as int, x, timed);
        }
        let ghost before = out@;
        out.insert(p, x);
        proof {
            assert(out@ == before.insert(p as int, x));
            assert forall|i: int, j: int| 0 <= i < j < out@.len() implies #[trigger] out@[i].label@
                != #[trigger] out@[j].label@ by {
                if j < p {
                    assert(out@[i] == before[i] && out@[j] == before[j]);
                } else if j == p {
                    assert(out@[i] == before[i]);
                } else if i < p {
                    assert(out@[i] == before[i] && out@[j] == before[j - 1]);
                } else if i == p {
                    assert(out@[j] == before[j - 1]);
                } else {
                    assert(out@[i] == before[i - 1] && out@[j] == before[j - 1]);
                }
            }
            assert forall|i: int| 0 <= i < out@.len() implies from_acc(labels@, stats@, #[trigger] out@[i], t + 1) by {
                if i < p {
                    assert(out@[i] == before[i]);
                    assert(from_acc(labels@, stats@, before[i], t as int));
                } else if i == p {
                    assert(out@[i] == x);
                    assert(labels@[t as int]@ == x.label@);
                } else {
                    assert(out@[i] == before[i - 1]);
                    assert(from_acc(labels@, stats@, before[i - 1], t as int));
                }
            }
            assert forall|u: int| 0 <= u < t + 1 implies in_families(out@, #[trigger] labels@[u]@) by {
                if u < t {
                    assert(in_families(before, labels@[u]@));
                    let i = choose|i: int| 0 <= i < before.len() && #[trigger] before[i].label@ == labels@[u]@;
                    if i < p {
                        assert(out@[i] == before[i]);
                    } else {
                        assert(out@[i + 1] == before[i]);
                    }
                } else {
                    assert(out@[p as int].label@ == labels@[u]@);
                }
            }
        }
        t = t + 1;
    }
    out
}

/// Combines the ranks' CUDA runtime sections: each counter is summed over
/// the ranks, and each kernel family appears once, with its calls,
/// elements and elapsed time summed over every rank (saturating at
/// `u64::MAX`). Families are listed by elapsed time, then calls, then
/// elements, all descending, then by label; when no family reports elapsed
/// time the order starts at calls. No label appears twice.
pub fn aggregate_rank_cuda_runtime(ranks: &[RankCudaRuntime]) -> (agg: CudaRuntimeAggregate)
    requires
        forall|f: int| 0 <= f < CUDA_RUNTIME_FIELD_COUNT ==> #[trigger] counter_total(ranks@, f) <= u64::MAX,
    ensures
        agg.counters@.len() == CUDA_RUNTIME_FIELD_COUNT,
        forall|f: int| 0 <= f < CUDA_RUNTIME_FIELD_COUNT ==> #[trigger] agg.counters@[f] == counter_total(ranks@, f),
        forall|i: int|
            0 <= i < agg.families@.len() ==> has_label(family_entries(ranks@), #[trigger] agg.families@[i].label@),
        forall|i: int|
            0 <= i < agg.families@.len() ==> {
                let fam = #[trigger] agg.families@[i];
                let es = family_entries(ranks@);
                &&& fam.calls == capped(family_total(es, fam.label@, FamilyStat::Calls))
                &&& fam.elements == capped(family_total(es, fam.label@, FamilyStat::Elements))
                &&& fam.elapsed_us == capped(family_total(es, fam.label@, FamilyStat::ElapsedUs))
            },
        forall|k: int|
            0 <= k < family_entries(ranks@).len() ==> in_families(agg.families@, #[trigger] family_entries(ranks@)[k].label@),
        families_sorted(agg.families@, any_elapsed(agg.families@)),
        labels_distinct(agg.families@),
{
    let mut counters: Vec<u64> = Vec::new();
    let mut f: usize = 0;
    while f < CUDA_RUNTIME_FIELD_COUNT
        invariant
            f <= CUDA_RUNTIME_FIELD_COUNT,
            counters@.len() == f,
            forall|g: int| 0 <= g < CUDA_RUNTIME_FIELD_COUNT ==> #[trigger] counter_total(ranks@, g) <= u64::MAX,
            forall|g: int| 0 <= g < f ==> #[trigger] counters@[g] == counter_total(ranks@, g),
        decreases CUDA_RUNTIME_FIELD_COUNT - f,
    {
        assert(counter_total(ranks@, f as int) <= u64::MAX);
        let s = sum_counter(ranks, f);
        counters.push(s);
        f = f + 1;
    }
    let (labels, stats) = accumulate_families(ranks);
    let ghost es = family_entries(ranks@);
    let mut timed = false;
    let mut t: usize = 0;
    while t < stats.len()
        invariant
            t <= stats@.len(),
            timed <==> exists|u: int| 0 <= u < t && #[trigger] stats@[u].2 > 0,
        decreases stats@.len() - t,
    {
        if stats[t].2 > 0 {
            timed = true;
        }
        t = t + 1;
    }
    let families = sort_families(&labels, &stats, timed);
    proof {
        assert forall|i: int| 0 <= i < families@.len() implies {
            let fam = #[trigger] families@[i];
            &&& has_label(es, fam.label@)
            &&& fam.calls == capped(family_total(es, fam.label@, FamilyStat::Calls))
            &&& fam.elements == capped(family_total(es, fam.label@, FamilyStat::Elements))
            &&& fam.elapsed_us == capped(family_total(es, fam.label@, FamilyStat::ElapsedUs))
        } by {
            let fam = families@[i];
            assert(from_acc(labels@, stats@, fam, labels@.len() as int));
            let u = choose|u: int|
                0 <= u < labels@.len() && #[trigger] labels@[u]@ == fam.label@ && stats@[u] == (
                    fam.calls,
                    fam.elements,
                    fam.elapsed_us,
                );
            assert(totals_at(labels@, stats@, es, u));
            assert(has_label(es, labels@[u]@));
        }
        assert forall|k: int| 0 <= k < es.len() implies in_families(families@, #[trigger] es[k].label@) by {
            assert(in_labels(labels@, es[k].label@));
            let u = choose|u: int| 0 <= u < labels@.len() && #[trigger] labels@[u]@ == es[k].label@;
            assert(in_families(families@, labels@[u]@));
        }
        if timed {
            let u = choose|u: int| 0 <= u < stats@.len() && #[trigger] stats@[u].2 > 0;
            assert(in_families(families@, labels@[u]@));
            let i = choose|i: int| 0 <= i < families@.len() && #[trigger] families@[i].label@ == labels@[u]@;
            assert(from_acc(labels@, stats@, families@[i], labels@.len() as int));
            let v = choose|v: int|
                0 <= v < labels@.len() && #[trigger] labels@[v]@ == families@[i].label@ && stats@[v] == (
                    families@[i].calls,
                    families@[i].elements,
                    families@[i].elapsed_us,
                );
            if v != u {
                if v < u {
                    assert(labels@[v]@ != labels@[u]@);
                } else {
                    assert(labels@[u]@ != labels@[v]@);
                }
            }
            assert(families@[i].elapsed_us > 0);
            assert(any_elapsed(families@));
        } else {
            if any_elapsed(families@) {
                let i = choose|i: int| 0 <= i < families@.len() && #[trigger] families@[i].elapsed_us > 0;
                assert(from_acc(labels@, stats@, families@[i], labels@.len() as int));
                let v = choose|v: int|
                    0 <= v < labels@.len() && #[trigger] labels@[v]@ == families@[i].label@ && stats@[v] == (
                        families@[i].calls,
                        families@[i].elements,
                        families@[i].elapsed_us,
                    );
                assert(stats@[v].2 > 0);
            }
        }
    }
    CudaRuntimeAggregate { counters, families }
}

} // verus!
