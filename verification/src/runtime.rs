use vstd::prelude::*;

use crate::error::{field_text, invalid_operation, push_field, push_number, Result, TensorError};
use crate::text::decimal;
use crate::memory_transformer::{MemoryTransformerConfig, MemoryUpdatePolicy};
use crate::nn::TinyTransformerConfig;
use crate::storage::Device;
use crate::text::str_eq;

verus! {

// ---------------------------------------------------------------------------
// Gradient accumulation and step bookkeeping
// ---------------------------------------------------------------------------

/// At least one micro-batch must be accumulated per optimizer step.
pub fn validate_grad_accumulation_steps(steps: usize) -> (res: Result<()>)
    ensures
        res is Ok <==> steps > 0,
        res matches Err(e) ==> e is InvalidOperation,
{
    if steps == 0 {
        return Err(invalid_operation("--grad-accumulation-steps must be greater than zero"));
    }
    Ok(())
}

/// Tokens consumed by `steps` optimizer steps of `grad_accumulation_steps`
/// micro-batches of `batch_size` windows of `block_size` tokens, multiplied
/// in that order; refused as soon as a partial product leaves `usize`.
pub fn accumulated_training_tokens_seen(
    steps: usize,
    batch_size: usize,
    block_size: usize,
    grad_accumulation_steps: usize,
) -> (res: Result<usize>)
    ensures
        res is Ok <==> steps * grad_accumulation_steps <= usize::MAX && steps * grad_accumulation_steps
            * batch_size <= usize::MAX && steps * grad_accumulation_steps * batch_size * block_size
            <= usize::MAX,
        res matches Ok(t) ==> t == steps * grad_accumulation_steps * batch_size * block_size,
        res matches Err(e) ==> e is InvalidOperation,
{
    let overflow = "training token count overflowed usize while building performance report";
    let a = match steps.checked_mul(grad_accumulation_steps) {
        Some(a) => a,
        None => {
            return Err(invalid_operation(overflow));
        },
    };
    let b = match a.checked_mul(batch_size) {
        Some(b) => b,
        None => {
            return Err(invalid_operation(overflow));
        },
    };
    match b.checked_mul(block_size) {
        Some(t) => Ok(t),
        None => Err(invalid_operation(overflow)),
    }
}

/// Global sample index of micro-step `micro_step` of local step
/// `local_step` for a run resumed at `start_step`:
/// `(start_step + local_step) * grad_accumulation_steps + micro_step`,
/// refused as soon as a partial result leaves `usize`.
pub fn ddp_sample_step(
    start_step: usize,
    local_step: usize,
    micro_step: usize,
    grad_accumulation_steps: usize,
) -> (res: Result<usize>)
    ensures
        res is Ok <==> start_step + local_step <= usize::MAX && (start_step + local_step)
            * grad_accumulation_steps <= usize::MAX && (start_step + local_step) * grad_accumulation_steps
            + micro_step <= usize::MAX,
        res matches Ok(s) ==> s == (start_step + local_step) * grad_accumulation_steps + micro_step,
        res matches Err(e) ==> e is InvalidOperation,
{
    let overflow = "DDP sample step overflowed usize during gradient accumulation";
    let a = match start_step.checked_add(local_step) {
        Some(a) => a,
        None => {
            return Err(invalid_operation(overflow));
        },
    };
    let b = match a.checked_mul(grad_accumulation_steps) {
        Some(b) => b,
        None => {
            return Err(invalid_operation(overflow));
        },
    };
    match b.checked_add(micro_step) {
        Some(s) => Ok(s),
        None => Err(invalid_operation(overflow)),
    }
}

/// Devices a training run occupies: one CUDA device, or none on CPU.
pub fn device_count_for_training(device: Device) -> (n: usize)
    ensures
        n == (if device is Cuda { 1usize } else { 0usize }),
{
    match device {
        Device::Cuda(_) => 1,
        Device::Cpu => 0,
    }
}

// ---------------------------------------------------------------------------
// Dense parameter estimates
// ---------------------------------------------------------------------------

/// Attention, MLP and norm parameters of one decoder block of width `d`
/// and hidden width `ff`.
pub open spec fn block_parameters(d: int, ff: int) -> int {
    (4 * d * d + 4 * d) + (2 * d * ff + ff + d) + 4 * d
}

/// Dense parameters of the tiny transformer: token and position embeddings,
/// one decoder block and the output head.
pub open spec fn tiny_dense_parameters(config: TinyTransformerConfig) -> int {
    let vocab = config.vocab_size as int;
    let block = config.block_size as int;
    let d = config.d_model as int;
    let ff = config.ff_hidden as int;
    (vocab * d + block * d) + block_parameters(d, ff) + (d * vocab + vocab)
}

/// Dense parameters of the memory transformer: embeddings, `n_layers`
/// decoder blocks, a final norm and the output head.
pub open spec fn memory_dense_parameters(config: MemoryTransformerConfig, vocab_size: int) -> int {
    let block = config.block_size as int;
    let layers = config.n_layers as int;
    let d = config.d_model as int;
    let ff = config.ff_hidden as int;
    (vocab_size * d + block * d) + layers * block_parameters(d, ff) + 2 * d + (d * vocab_size + vocab_size)
}

proof fn lemma_block_parts_bounded(d: int, ff: int, bound: int)
    requires
        0 <= d,
        0 <= ff,
        block_parameters(d, ff) <= bound,
    ensures
        4 * d <= bound,
        4 * d * d <= bound,
        2 * d <= bound,
        2 * d * ff <= bound,
{
    assert(0 <= 4 * d * d) by (nonlinear_arith)
        requires
            0 <= d,
    ;
    assert(0 <= 2 * d * ff) by (nonlinear_arith)
        requires
            0 <= d,
            0 <= ff,
    ;
}

/// Estimated dense parameter count of a tiny transformer (no overflow: the
/// estimate, and so every partial sum, fits in `u64`).
pub fn tiny_dense_parameter_estimate(config: &TinyTransformerConfig) -> (n: u64)
    requires
        tiny_dense_parameters(*config) <= u64::MAX,
    ensures
        n == tiny_dense_parameters(*config),
{
    let vocab = config.vocab_size as u64;
    let block = config.block_size as u64;
    let d = config.d_model as u64;
    let ff = config.ff_hidden as u64;
    proof {
        let (v, b, dd, f) = (vocab as int, block as int, d as int, ff as int);
        assert(0 <= v * dd && 0 <= b * dd && 0 <= dd * v) by (nonlinear_arith)
            requires
                0 <= v,
                0 <= b,
                0 <= dd,
        ;
        assert(v * dd == dd * v) by (nonlinear_arith);
        lemma_block_parts_bounded(dd, f, u64::MAX as int);
    }
    let embeddings = vocab * d + block * d;
    let attention = 4 * d * d + 4 * d;
    let mlp = 2 * d * ff + ff + d;
    let norms = 4 * d;
    let lm_head = d * vocab + vocab;
    embeddings + attention + mlp + norms + lm_head
}

/// Estimated dense parameter count of a memory transformer over a
/// vocabulary of `vocab_size`. Both the estimate and one block's share must
/// fit in `u64`.
pub fn memory_dense_parameter_estimate(config: &MemoryTransformerConfig, vocab_size: usize) -> (n: u64)
    requires
        block_parameters(config.d_model as int, config.ff_hidden as int) <= u64::MAX,
        memory_dense_parameters(*config, vocab_size as int) <= u64::MAX,
    ensures
        n == memory_dense_parameters(*config, vocab_size as int),
{
    let vocab = vocab_size as u64;
    let block = config.block_size as u64;
    let layers = config.n_layers as u64;
    let d = config.d_model as u64;
    let ff = config.ff_hidden as u64;
    proof {
        let (v, b, dd, f, l) = (vocab as int, block as int, d as int, ff as int, layers as int);
        assert(0 <= v * dd && 0 <= b * dd && 0 <= dd * v) by (nonlinear_arith)
            requires
                0 <= v,
                0 <= b,
                0 <= dd,
        ;
        assert(v * dd == dd * v) by (nonlinear_arith);
        lemma_block_parts_bounded(dd, f, u64::MAX as int);
        assert(0 <= l * block_parameters(dd, f)) by (nonlinear_arith)
            requires
                0 <= l,
                0 <= block_parameters(dd, f),
        ;
    }
    let embeddings = vocab * d + block * d;
    let per_layer_attention = 4 * d * d + 4 * d;
    let per_layer_mlp = 2 * d * ff + ff + d;
    let per_layer_norms = 4 * d;
    let final_norm = 2 * d;
    let lm_head = d * vocab + vocab;
    embeddings + layers * (per_layer_attention + per_layer_mlp + per_layer_norms) + final_norm + lm_head
}

// ---------------------------------------------------------------------------
// Distributed launcher environment
// ---------------------------------------------------------------------------

/// One environment variable handed to every rank.
#[derive(Clone, Debug)]
pub struct LauncherEnvVar {
    pub name: String,
    pub value: String,
}

/// What the environment holds for each variable the launcher consults
/// (`heirloom_*` for the `HEIRLOOM_NCCL_*` overrides, `nccl_*` for the
/// inherited `NCCL_*` values).
#[derive(Clone, Debug)]
pub struct LauncherEnvLookups {
    pub heirloom_debug: Option<String>,
    pub nccl_debug: Option<String>,
    pub heirloom_debug_subsys: Option<String>,
    pub nccl_debug_subsys: Option<String>,
    pub heirloom_net_plugin: Option<String>,
    pub heirloom_socket_ifname: Option<String>,
    pub heirloom_ib_disable: Option<String>,
    pub heirloom_cumem_enable: Option<String>,
    pub nccl_cumem_enable: Option<String>,
    pub heirloom_cumem_host_enable: Option<String>,
    pub nccl_cumem_host_enable: Option<String>,
    pub heirloom_p2p_disable: Option<String>,
    pub nccl_p2p_disable: Option<String>,
    pub heirloom_p2p_level: Option<String>,
    pub nccl_p2p_level: Option<String>,
    pub heirloom_trace: Option<String>,
}

pub open spec fn opt_view(o: Option<String>) -> Option<Seq<char>> {
    match o {
        Some(s) => Some(s@),
        None => None,
    }
}

/// The first value that is present.
pub open spec fn first_of(a: Option<Seq<char>>, b: Option<Seq<char>>) -> Option<Seq<char>> {
    if a is Some {
        a
    } else {
        b
    }
}

/// The entry `(name, value)` when a value is present, nothing otherwise.
pub open spec fn env_entry(name: Seq<char>, value: Option<Seq<char>>) -> Seq<(Seq<char>, Seq<char>)> {
    match value {
        Some(v) => seq![(name, v)],
        None => Seq::empty(),
    }
}

/// The launcher environment, in order. Socket, InfiniBand and network
/// plugin settings come only from the `HEIRLOOM_NCCL_*` overrides, falling
/// back to a single-node loopback bootstrap (`lo`, `1`, `none`); inherited
/// `NCCL_*` values for those three are ignored. Debug settings and the
/// memory and peer-to-peer knobs prefer the override, then the inherited
/// value; debug settings have defaults (`INFO`, `INIT,COLL,GRAPH`), the
/// others are left out when unset. `HEIRLOOM_NCCL_TRACE` passes through.
pub open spec fn launcher_env_spec(v: LauncherEnvLookups) -> Seq<(Seq<char>, Seq<char>)> {
    env_entry(
        "NCCL_DEBUG"@,
        first_of(first_of(opt_view(v.heirloom_debug), opt_view(v.nccl_debug)), Some("INFO"@)),
    ) + env_entry(
        "NCCL_DEBUG_SUBSYS"@,
        first_of(
            first_of(opt_view(v.heirloom_debug_subsys), opt_view(v.nccl_debug_subsys)),
            Some("INIT,COLL,GRAPH"@),
        ),
    ) + env_entry("NCCL_NET_PLUGIN"@, first_of(opt_view(v.heirloom_net_plugin), Some("none"@)))
        + env_entry("NCCL_SOCKET_IFNAME"@, first_of(opt_view(v.heirloom_socket_ifname), Some("lo"@)))
        + env_entry("NCCL_IB_DISABLE"@, first_of(opt_view(v.heirloom_ib_disable), Some("1"@))) + env_entry(
        "NCCL_CUMEM_ENABLE"@,
        first_of(opt_view(v.heirloom_cumem_enable), opt_view(v.nccl_cumem_enable)),
    ) + env_entry(
        "NCCL_CUMEM_HOST_ENABLE"@,
        first_of(opt_view(v.heirloom_cumem_host_enable), opt_view(v.nccl_cumem_host_enable)),
    ) + env_entry(
        "NCCL_P2P_DISABLE"@,
        first_of(opt_view(v.heirloom_p2p_disable), opt_view(v.nccl_p2p_disable)),
    ) + env_entry("NCCL_P2P_LEVEL"@, first_of(opt_view(v.heirloom_p2p_level), opt_view(v.nccl_p2p_level)))
        + env_entry("HEIRLOOM_NCCL_TRACE"@, opt_view(v.heirloom_trace))
}

pub open spec fn env_pairs(env: Seq<LauncherEnvVar>) -> Seq<(Seq<char>, Seq<char>)> {
    env.map_values(|e: LauncherEnvVar| (e.name@, e.value@))
}

fn pick(first: Option<String>, second: Option<String>) -> (r: Option<String>)
    ensures
        opt_view(r) == first_of(opt_view(first), opt_view(second)),
{
    match first {
        Some(v) => Some(v),
        None => second,
    }
}

fn default_to(value: Option<String>, fallback: &str) -> (r: Option<String>)
    ensures
        opt_view(r) == first_of(opt_view(value), Some(fallback@)),
{
    match value {
        Some(v) => Some(v),
        None => Some(String::from_str(fallback)),
    }
}

fn push_entry(env: &mut Vec<LauncherEnvVar>, name: &str, value: Option<String>)
    ensures
        env_pairs(final(env)@) == env_pairs(old(env)@) + env_entry(name@, opt_view(value)),
{
    let ghost before = env@;
    match value {
        Some(v) => {
            env.push(LauncherEnvVar { name: String::from_str(name), value: v });
        },
        None => {},
    }
    assert(env_pairs(env@) =~= env_pairs(before) + env_entry(name@, opt_view(value)));
}

/// Builds the launcher environment from what the environment holds.
pub fn launcher_env_from_values(v: LauncherEnvLookups) -> (env: Vec<LauncherEnvVar>)
    ensures
        env_pairs(env@) == launcher_env_spec(v),
{
    let ghost spec_v = v;
    let mut env: Vec<LauncherEnvVar> = Vec::new();
    assert(env_pairs(env@) =~= Seq::<(Seq<char>, Seq<char>)>::empty());
    push_entry(&mut env, "NCCL_DEBUG", default_to(pick(v.heirloom_debug, v.nccl_debug), "INFO"));
    push_entry(
        &mut env,
        "NCCL_DEBUG_SUBSYS",
        default_to(pick(v.heirloom_debug_subsys, v.nccl_debug_subsys), "INIT,COLL,GRAPH"),
    );
    push_entry(&mut env, "NCCL_NET_PLUGIN", default_to(v.heirloom_net_plugin, "none"));
    push_entry(&mut env, "NCCL_SOCKET_IFNAME", default_to(v.heirloom_socket_ifname, "lo"));
    push_entry(&mut env, "NCCL_IB_DISABLE", default_to(v.heirloom_ib_disable, "1"));
    push_entry(&mut env, "NCCL_CUMEM_ENABLE", pick(v.heirloom_cumem_enable, v.nccl_cumem_enable));
    push_entry(
        &mut env,
        "NCCL_CUMEM_HOST_ENABLE",
        pick(v.heirloom_cumem_host_enable, v.nccl_cumem_host_enable),
    );
    push_entry(&mut env, "NCCL_P2P_DISABLE", pick(v.heirloom_p2p_disable, v.nccl_p2p_disable));
    push_entry(&mut env, "NCCL_P2P_LEVEL", pick(v.heirloom_p2p_level, v.nccl_p2p_level));
    push_entry(&mut env, "HEIRLOOM_NCCL_TRACE", v.heirloom_trace);
    assert(Seq::<(Seq<char>, Seq<char>)>::empty() + launcher_env_spec(spec_v) =~= launcher_env_spec(spec_v));
    env
}

/// Whether `lookup` may answer `value` for the variable `name`.
pub open spec fn lookup_gives<F: Fn(&str) -> Option<String>>(lookup: F, name: &str, value: Option<String>) -> bool {
    lookup.ensures((name,), value)
}

/// Builds the launcher environment by asking `lookup` for each variable
/// (the process environment, in the launcher). Every value used is one
/// that `lookup` gave for that variable's name.
pub fn launcher_env_from_lookup<F: Fn(&str) -> Option<String>>(lookup: F) -> (env: Vec<LauncherEnvVar>)
    requires
        forall|name: &str| lookup.requires((name,)),
    ensures
        exists|v: LauncherEnvLookups|
            {
                &&& lookup_gives(lookup, "HEIRLOOM_NCCL_DEBUG", v.heirloom_debug)
                &&& lookup_gives(lookup, "NCCL_DEBUG", v.nccl_debug)
                &&& lookup_gives(lookup, "HEIRLOOM_NCCL_DEBUG_SUBSYS", v.heirloom_debug_subsys)
                &&& lookup_gives(lookup, "NCCL_DEBUG_SUBSYS", v.nccl_debug_subsys)
                &&& lookup_gives(lookup, "HEIRLOOM_NCCL_NET_PLUGIN", v.heirloom_net_plugin)
                &&& lookup_gives(lookup, "HEIRLOOM_NCCL_SOCKET_IFNAME", v.heirloom_socket_ifname)
                &&& lookup_gives(lookup, "HEIRLOOM_NCCL_IB_DISABLE", v.heirloom_ib_disable)
                &&& lookup_gives(lookup, "HEIRLOOM_NCCL_CUMEM_ENABLE", v.heirloom_cumem_enable)
                &&& lookup_gives(lookup, "NCCL_CUMEM_ENABLE", v.nccl_cumem_enable)
                &&& lookup_gives(lookup, "HEIRLOOM_NCCL_CUMEM_HOST_ENABLE", v.heirloom_cumem_host_enable)
                &&& lookup_gives(lookup, "NCCL_CUMEM_HOST_ENABLE", v.nccl_cumem_host_enable)
                &&& lookup_gives(lookup, "HEIRLOOM_NCCL_P2P_DISABLE", v.heirloom_p2p_disable)
                &&& lookup_gives(lookup, "NCCL_P2P_DISABLE", v.nccl_p2p_disable)
                &&& lookup_gives(lookup, "HEIRLOOM_NCCL_P2P_LEVEL", v.heirloom_p2p_level)
                &&& lookup_gives(lookup, "NCCL_P2P_LEVEL", v.nccl_p2p_level)
                &&& lookup_gives(lookup, "HEIRLOOM_NCCL_TRACE", v.heirloom_trace)
                &&& env_pairs(env@) == launcher_env_spec(v)
            },
{
    let v = LauncherEnvLookups {
        heirloom_debug: lookup("HEIRLOOM_NCCL_DEBUG"),
        nccl_debug: lookup("NCCL_DEBUG"),
        heirloom_debug_subsys: lookup("HEIRLOOM_NCCL_DEBUG_SUBSYS"),
        nccl_debug_subsys: lookup("NCCL_DEBUG_SUBSYS"),
        heirloom_net_plugin: lookup("HEIRLOOM_NCCL_NET_PLUGIN"),
        heirloom_socket_ifname: lookup("HEIRLOOM_NCCL_SOCKET_IFNAME"),
        heirloom_ib_disable: lookup("HEIRLOOM_NCCL_IB_DISABLE"),
        heirloom_cumem_enable: lookup("HEIRLOOM_NCCL_CUMEM_ENABLE"),
        nccl_cumem_enable: lookup("NCCL_CUMEM_ENABLE"),
        heirloom_cumem_host_enable: lookup("HEIRLOOM_NCCL_CUMEM_HOST_ENABLE"),
        nccl_cumem_host_enable: lookup("NCCL_CUMEM_HOST_ENABLE"),
        heirloom_p2p_disable: lookup("HEIRLOOM_NCCL_P2P_DISABLE"),
        nccl_p2p_disable: lookup("NCCL_P2P_DISABLE"),
        heirloom_p2p_level: lookup("HEIRLOOM_NCCL_P2P_LEVEL"),
        nccl_p2p_level: lookup("NCCL_P2P_LEVEL"),
        heirloom_trace: lookup("HEIRLOOM_NCCL_TRACE"),
    };
    let ghost gv = v;
    let env = launcher_env_from_values(v);
    assert(env_pairs(env@) == launcher_env_spec(gv));
    env
}

// ---------------------------------------------------------------------------
// Rank stages and distributed evidence
// ---------------------------------------------------------------------------

/// Stages a rank reports before NCCL initialisation completes.
pub open spec fn is_pre_nccl_stage(stage: Seq<char>) -> bool {
    ||| stage == "missing"@
    ||| stage == "spawned"@
    ||| stage == "config_loaded"@
    ||| stage == "cuda_context_start"@
    ||| stage == "cuda_context_ready"@
    ||| stage == "nccl_library_loaded"@
    ||| stage == "nccl_init_start"@
}

/// Whether a rank that reported `stage` had got past NCCL initialisation.
pub fn stage_is_after_nccl_init(stage: &str) -> (b: bool)
    ensures
        b == !is_pre_nccl_stage(stage@),
{
    !(str_eq(stage, "missing") || str_eq(stage, "spawned") || str_eq(stage, "config_loaded") || str_eq(
        stage,
        "cuda_context_start",
    ) || str_eq(stage, "cuda_context_ready") || str_eq(stage, "nccl_library_loaded") || str_eq(
        stage,
        "nccl_init_start",
    ))
}

/// All-reduce counters a distributed memory-model run reports.
pub struct DistributedMemoryAllReduceEvidence<'a> {
    pub memory_update_policy: &'a MemoryUpdatePolicy,
    pub all_reduce_calls: u64,
    pub all_reduce_bytes: u64,
    pub row_union_all_reduce_calls: u64,
    pub row_union_all_reduce_bytes: u64,
    pub row_union_candidate_rows: u64,
    pub compact_gradient_all_reduce_calls: u64,
    pub compact_gradient_all_reduce_bytes: u64,
}

/// Sparse-row runs record the row-union exchange and compact gradients.
pub open spec fn sparse_transport_recorded(e: DistributedMemoryAllReduceEvidence) -> bool {
    &&& e.row_union_all_reduce_calls > 0
    &&& e.row_union_all_reduce_bytes > 0
    &&& e.row_union_candidate_rows > 0
    &&& e.compact_gradient_all_reduce_calls > 0
    &&& e.compact_gradient_all_reduce_bytes > 0
}

/// The refusal of a run without dense gradient all-reduces.
pub open spec fn dense_evidence_message(e: DistributedMemoryAllReduceEvidence) -> Seq<char> {
    "distributed memory NCCL training completed without recorded gradient all-reduces"@ + ": "@
        + field_text("all_reduce_calls"@, e.all_reduce_calls as nat) + " "@ + field_text(
        "all_reduce_bytes"@,
        e.all_reduce_bytes as nat,
    )
}

/// The refusal of a sparse-row run without its compact sparse transport.
pub open spec fn sparse_evidence_message(e: DistributedMemoryAllReduceEvidence) -> Seq<char> {
    "distributed sparse-row memory training completed without recorded compact sparse all-reduces"@
        + ": "@ + field_text("row_union_all_reduce_calls"@, e.row_union_all_reduce_calls as nat) + " "@
        + field_text("row_union_all_reduce_bytes"@, e.row_union_all_reduce_bytes as nat) + " "@
        + field_text("row_union_candidate_rows"@, e.row_union_candidate_rows as nat) + " "@
        + field_text("compact_gradient_all_reduce_calls"@, e.compact_gradient_all_reduce_calls as nat)
        + " "@ + field_text(
        "compact_gradient_all_reduce_bytes"@,
        e.compact_gradient_all_reduce_bytes as nat,
    )
}

/// A distributed memory run must show dense gradient all-reduces, and a
/// sparse-row run must also show its compact sparse transport. Both
/// refusals are device errors whose messages name the missing transport and
/// report its counters.
pub fn validate_distributed_memory_all_reduce_evidence(evidence: DistributedMemoryAllReduceEvidence) -> (res:
    Result<()>)
    ensures
        res is Ok <==> evidence.all_reduce_calls > 0 && evidence.all_reduce_bytes > 0 && (
        *evidence.memory_update_policy == MemoryUpdatePolicy::SparseRows ==> sparse_transport_recorded(
            evidence,
        )),
        res matches Err(e) ==> e is Device,
        !(evidence.all_reduce_calls > 0 && evidence.all_reduce_bytes > 0) ==> (res matches Err(e)
            && e.message_spec() == dense_evidence_message(evidence)),
        evidence.all_reduce_calls > 0 && evidence.all_reduce_bytes > 0 && res is Err ==> (res matches Err(
            e) && e.message_spec() == sparse_evidence_message(evidence)),
{
    if evidence.all_reduce_calls == 0 || evidence.all_reduce_bytes == 0 {
        let mut message = String::from_str(
            "distributed memory NCCL training completed without recorded gradient all-reduces",
        );
        push_field(&mut message, ": ", "all_reduce_calls", evidence.all_reduce_calls);
        push_field(&mut message, " ", "all_reduce_bytes", evidence.all_reduce_bytes);
        return Err(TensorError::Device(message));
    }
    let sparse = match evidence.memory_update_policy {
        MemoryUpdatePolicy::SparseRows => true,
        _ => false,
    };
    if sparse && (evidence.row_union_all_reduce_calls == 0 || evidence.row_union_all_reduce_bytes == 0
        || evidence.row_union_candidate_rows == 0 || evidence.compact_gradient_all_reduce_calls == 0
        || evidence.compact_gradient_all_reduce_bytes == 0) {
        let mut message = String::from_str(
            "distributed sparse-row memory training completed without recorded compact sparse all-reduces",
        );
        push_field(&mut message, ": ", "row_union_all_reduce_calls", evidence.row_union_all_reduce_calls);
        push_field(&mut message, " ", "row_union_all_reduce_bytes", evidence.row_union_all_reduce_bytes);
        push_field(&mut message, " ", "row_union_candidate_rows", evidence.row_union_candidate_rows);
        push_field(
            &mut message,
            " ",
            "compact_gradient_all_reduce_calls",
            evidence.compact_gradient_all_reduce_calls,
        );
        push_field(
            &mut message,
            " ",
            "compact_gradient_all_reduce_bytes",
            evidence.compact_gradient_all_reduce_bytes,
        );
        return Err(TensorError::Device(message));
    }
    Ok(())
}


/// The optimizer path a memory model's update takes, as its reports name
/// it: none for frozen memory, selected memory-table rows (on the CPU or a
/// CUDA device) when updates are sparse, and otherwise dense updates of all
/// parameters or of the memory tables only.
pub open spec fn memory_applied_path_spec(policy: MemoryUpdatePolicy, uses_sparse_rows: bool, device: Device) -> Seq<
    char,
> {
    if policy == MemoryUpdatePolicy::Frozen {
        "frozen_no_optimizer_step"@
    } else if uses_sparse_rows {
        match device {
            Device::Cpu => "cpu_sparse_rows_selected_memory_tables"@,
            Device::Cuda(_) => "cuda_sparse_rows_selected_memory_tables"@,
        }
    } else if policy == MemoryUpdatePolicy::Full {
        "dense_all_parameters"@
    } else {
        "dense_memory_tables_only"@
    }
}

/// The optimizer path of a memory model's update. A sparse-rows policy is
/// always applied to sparse rows.
pub fn memory_applied_path(policy: MemoryUpdatePolicy, uses_sparse_rows: bool, device: Device) -> (path:
    &'static str)
    requires
        policy == MemoryUpdatePolicy::SparseRows ==> uses_sparse_rows,
    ensures
        path@ == memory_applied_path_spec(policy, uses_sparse_rows, device),
{
    match policy {
        MemoryUpdatePolicy::Frozen => "frozen_no_optimizer_step",
        _ => if uses_sparse_rows {
            match device {
                Device::Cpu => "cpu_sparse_rows_selected_memory_tables",
                Device::Cuda(_) => "cuda_sparse_rows_selected_memory_tables",
            }
        } else {
            match policy {
                MemoryUpdatePolicy::Full => "dense_all_parameters",
                _ => "dense_memory_tables_only",
            }
        },
    }
}


// ---------------------------------------------------------------------------
// Planning a distributed run
// ---------------------------------------------------------------------------

/// A distributed run needs at least two CUDA devices; `what` names the run
/// in the refusal (for example `distributed NCCL training`).
pub fn require_two_cuda_devices(what: &str, device_count: usize) -> (res: Result<()>)
    ensures
        res is Ok <==> device_count >= 2,
        res matches Err(e) ==> e is InvalidOperation && e.message_spec() == what@
            + " requires at least two CUDA devices, got "@ + decimal(device_count as nat),
{
    if device_count < 2 {
        let mut message = String::from_str(what);
        push_number(&mut message, " requires at least two CUDA devices, got ", device_count as u64);
        return Err(TensorError::InvalidOperation(message));
    }
    Ok(())
}

/// What one rank of a distributed run is told about its place in it.
#[derive(Clone, Copy, Debug, PartialEq, Eq)]
pub struct RankPlacement {
    pub rank: usize,
    pub world_size: usize,
    pub device_id: usize,
    pub save_checkpoint: bool,
}

/// One rank per listed CUDA device, in list order: rank `i` runs on
/// `devices[i]`, every rank knows the world size, and only rank 0 saves the
/// checkpoint.
pub fn rank_placements(devices: &[usize]) -> (plan: Vec<RankPlacement>)
    ensures
        plan@.len() == devices@.len(),
        forall|i: int|
            0 <= i < devices@.len() ==> #[trigger] plan@[i] == (RankPlacement {
                rank: i as usize,
                world_size: devices@.len() as usize,
                device_id: devices@[i],
                save_checkpoint: i == 0,
            }),
{
    let mut plan: Vec<RankPlacement> = Vec::new();
    let mut i: usize = 0;
    while i < devices.len()
        invariant
            i <= devices@.len(),
            plan@.len() == i,
            forall|k: int|
                0 <= k < i ==> #[trigger] plan@[k] == (RankPlacement {
                    rank: k as usize,
                    world_size: devices@.len() as usize,
                    device_id: devices@[k],
                    save_checkpoint: k == 0,
                }),
        decreases devices@.len() - i,
    {
        plan.push(RankPlacement { rank: i, world_size: devices.len(), device_id: devices[i], save_checkpoint: i == 0 });
        i = i + 1;
    }
    plan
}

/// Whether a rank records parameter checksums after local step
/// `local_step` (printed as step `printed_step`) of a run of `steps` steps:
/// only when checksums are on (`checksum_every > 0`), on every
/// `checksum_every`-th printed step and on the last step.
pub fn records_step_checksum(checksum_every: usize, printed_step: usize, local_step: usize, steps: usize) -> (b:
    bool)
    requires
        local_step < steps,
    ensures
        b == (checksum_every > 0 && (printed_step % checksum_every == 0 || local_step + 1 == steps)),
{
    checksum_every > 0 && (printed_step % checksum_every == 0 || local_step + 1 == steps)
}

/// Whether a rank logs its loss after local step `local_step` (printed as
/// step `printed_step`): only when logging is on (`log_every > 0`), on the
/// first local step and on every `log_every`-th printed step.
pub fn logs_step(log_every: usize, printed_step: usize, local_step: usize) -> (b: bool)
    ensures
        b == (log_every > 0 && (local_step == 0 || printed_step % log_every == 0)),
{
    log_every > 0 && (local_step == 0 || printed_step % log_every == 0)
}

/// The batches a checkpoint written after `steps` steps from `start_step`
/// records as seen: every step drew `grad_accumulation_steps` batches.
pub fn checkpoint_batches_seen(start_step: usize, steps: usize, grad_accumulation_steps: usize) -> (n: usize)
    requires
        start_step + steps <= usize::MAX,
        (start_step + steps) * grad_accumulation_steps <= usize::MAX,
    ensures
        n == (start_step + steps) * grad_accumulation_steps,
{
    let total = start_step + steps;
    total * grad_accumulation_steps
}

} // verus!
