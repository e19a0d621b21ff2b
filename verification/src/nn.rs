use vstd::prelude::*;

use crate::error::{dims_text, push_dims, push_number, Result, TensorError};
pub use crate::optim::{Optimizer, SparseAdamWCompactRowsUpdate, SparseAdamWRowsUpdate};
use crate::storage::{DType, Device};
use crate::text::{decimal, decimal_u64, lemma_lex_order, lex_lt, lex_order, Lex};

verus! {

/// Shape configuration for the bounded decoder-only reference model.
#[derive(Clone, Copy, Debug, PartialEq, Eq, Structural)]
pub struct TinyTransformerConfig {
    pub vocab_size: usize,
    pub block_size: usize,
    pub d_model: usize,
    pub n_heads: usize,
    pub ff_hidden: usize,
}

impl TinyTransformerConfig {
    /// The smallest reference configuration over a vocabulary of `vocab_size`.
    pub fn tiny(vocab_size: usize) -> (c: Self)
        ensures
            c == (TinyTransformerConfig {
                vocab_size,
                block_size: 64,
                d_model: 64,
                n_heads: 4,
                ff_hidden: 256,
            }),
    {
        TinyTransformerConfig { vocab_size, block_size: 64, d_model: 64, n_heads: 4, ff_hidden: 256 }
    }
}

/// Elementwise rectified-linear activation.
#[derive(Clone, Copy, Debug, PartialEq, Eq, Structural)]
pub struct ReLU;

impl ReLU {
    pub fn new() -> (r: Self)
        ensures
            r == ReLU,
    {
        ReLU
    }
}

impl Default for ReLU {
    fn default() -> (r: Self)
        ensures
            r == ReLU,
    {
        ReLU
    }
}

/// Elementwise Gaussian error linear unit.
#[derive(Clone, Copy, Debug, PartialEq, Eq, Structural)]
pub struct Gelu;

impl Gelu {
    pub fn new() -> (g: Self)
        ensures
            g == Gelu,
    {
        Gelu
    }
}

impl Default for Gelu {
    fn default() -> (g: Self)
        ensures
            g == Gelu,
    {
        Gelu
    }
}

/// Why text generation stopped.
#[derive(Clone, Copy, Debug, PartialEq, Eq, Structural)]
pub enum GenerationFinishReason {
    Eos,
    MaxNewTokens,
}

/// Ordered composition of layers; the layers keep the order they were given.
pub struct Sequential<L> {
    layers: Vec<L>,
}

impl<L> View for Sequential<L> {
    type V = Seq<L>;

    closed spec fn view(&self) -> Seq<L> {
        self.layers@
    }
}

impl<L> Sequential<L> {
    pub fn new(layers: Vec<L>) -> (s: Self)
        ensures
            s@ == layers@,
    {
        Sequential { layers }
    }

    /// Appends `module` after the existing layers.
    pub fn push(&mut self, module: L)
        ensures
            final(self)@ == old(self)@.push(module),
    {
        self.layers.push(module);
    }

    pub fn len(&self) -> (n: usize)
        ensures
            n == self@.len(),
    {
        self.layers.len()
    }

    pub fn is_empty(&self) -> (b: bool)
        ensures
            b == (self@.len() == 0),
    {
        self.layers.len() == 0
    }

    /// The layers, in order.
    pub fn layers(&self) -> (l: &Vec<L>)
        ensures
            l@ == self@,
    {
        &self.layers
    }
}

/// Gradient all-reduce traffic of one distributed step.
#[derive(Clone, Copy, Debug, PartialEq, Eq, Structural)]
pub struct DistributedGradientStats {
    pub all_reduce_calls: usize,
    pub all_reduce_bytes: usize,
}

impl Default for DistributedGradientStats {
    fn default() -> (s: Self)
        ensures
            s == (DistributedGradientStats { all_reduce_calls: 0, all_reduce_bytes: 0 }),
    {
        DistributedGradientStats { all_reduce_calls: 0, all_reduce_bytes: 0 }
    }
}

// ---------------------------------------------------------------------------
// AMP BF16 linear coverage
// ---------------------------------------------------------------------------

/// AMP BF16 linear-call counters summed over every recorded module.
#[derive(Clone, Copy, Debug, PartialEq, Eq, Structural)]
pub struct AmpBf16LinearCoverageTotals {
    pub calls: usize,
    pub tensor_core_calls: usize,
    pub fallback_calls: usize,
    pub unsupported_shape_calls: usize,
    pub unsupported_device_calls: usize,
    pub dtype_mismatch_calls: usize,
}

impl Default for AmpBf16LinearCoverageTotals {
    fn default() -> (t: Self)
        ensures
            t == (AmpBf16LinearCoverageTotals {
                calls: 0,
                tensor_core_calls: 0,
                fallback_calls: 0,
                unsupported_shape_calls: 0,
                unsupported_device_calls: 0,
                dtype_mismatch_calls: 0,
            }),
    {
        AmpBf16LinearCoverageTotals {
            calls: 0,
            tensor_core_calls: 0,
            fallback_calls: 0,
            unsupported_shape_calls: 0,
            unsupported_device_calls: 0,
            dtype_mismatch_calls: 0,
        }
    }
}

/// AMP BF16 linear-call counters of one module, with the details of its
/// most recent call.
#[derive(Clone, Debug)]
pub struct AmpBf16LinearCoverage {
    pub module: String,
    pub calls: usize,
    pub tensor_core_calls: usize,
    pub fallback_calls: usize,
    pub unsupported_shape_calls: usize,
    pub unsupported_device_calls: usize,
    pub dtype_mismatch_calls: usize,
    pub last_m: usize,
    pub last_k: usize,
    pub last_n: usize,
    pub last_device: String,
    pub last_input_dtype: String,
    pub last_weight_dtype: String,
    pub last_bias_dtype: String,
    pub last_path: String,
}

/// Coverage snapshot: totals and the per-module entries in module-name order.
#[derive(Clone, Debug)]
pub struct AmpBf16TensorCoreCoverage {
    pub linear_totals: AmpBf16LinearCoverageTotals,
    pub linear_modules: Vec<AmpBf16LinearCoverage>,
}

/// One AMP BF16 linear call as the coverage store sees it.
#[derive(Clone, Copy, Debug)]
pub struct AmpBf16LinearRecord<'a> {
    pub module: &'a str,
    pub m: usize,
    pub k: usize,
    pub n: usize,
    pub device: Device,
    pub input_dtype: DType,
    pub weight_dtype: DType,
    pub bias_dtype: DType,
    pub tensor_core_device: bool,
    pub tensor_core_shape: bool,
    pub used_tensor_core: bool,
}

impl<'a> AmpBf16LinearRecord<'a> {
    /// Input, weight and bias are all `F32`.
    pub open spec fn dtype_match(&self) -> bool {
        self.input_dtype == DType::F32 && self.weight_dtype == DType::F32 && self.bias_dtype == DType::F32
    }

    /// The path label of the call: the tensor-core path, or the first reason
    /// it fell back (device, then shape, then dtype).
    pub open spec fn path_spec(&self) -> Seq<char> {
        if self.used_tensor_core {
            "tensor_core"@
        } else if !self.tensor_core_device {
            "fallback_unsupported_device"@
        } else if !self.tensor_core_shape {
            "fallback_unsupported_shape"@
        } else if !self.dtype_match() {
            "fallback_dtype_mismatch"@
        } else {
            "fallback_unknown"@
        }
    }
}

/// `cpu`, or `cuda:` and the device ordinal in decimal.
pub open spec fn device_label_spec(device: Device) -> Seq<char> {
    match device {
        Device::Cpu => "cpu"@,
        Device::Cuda(id) => "cuda:"@ + decimal(id as nat),
    }
}

/// The name of the dtype's variant.
pub open spec fn dtype_label_spec(dtype: DType) -> Seq<char> {
    crate::storage::dtype_debug(dtype)
}

pub fn device_label(device: Device) -> (s: String)
    ensures
        s@ == device_label_spec(device),
{
    match device {
        Device::Cpu => String::from_str("cpu"),
        Device::Cuda(id) => {
            let digits = decimal_u64(id as u64);
            String::from_str("cuda:").concat(digits.as_str())
        },
    }
}

pub fn dtype_label(dtype: DType) -> (s: String)
    ensures
        s@ == dtype_label_spec(dtype),
{
    let label = match dtype {
        DType::F32 => "F32",
        DType::BFloat16 => "BFloat16",
        DType::F64 => "F64",
        DType::I64 => "I64",
        DType::Bool => "Bool",
    };
    String::from_str(label)
}

fn coverage_path(record: &AmpBf16LinearRecord) -> (p: &'static str)
    ensures
        p@ == record.path_spec(),
{
    let dtype_match = record.input_dtype == DType::F32 && record.weight_dtype == DType::F32
        && record.bias_dtype == DType::F32;
    if record.used_tensor_core {
        "tensor_core"
    } else if !record.tensor_core_device {
        "fallback_unsupported_device"
    } else if !record.tensor_core_shape {
        "fallback_unsupported_shape"
    } else if !dtype_match {
        "fallback_dtype_mismatch"
    } else {
        "fallback_unknown"
    }
}

/// A module's counters agree: every call took the tensor-core path or fell
/// back, and no failure reason counts more calls than there were.
pub open spec fn counters_consistent(c: AmpBf16LinearCoverage) -> bool {
    &&& c.tensor_core_calls + c.fallback_calls == c.calls
    &&& c.unsupported_shape_calls <= c.calls
    &&& c.unsupported_device_calls <= c.calls
    &&& c.dtype_mismatch_calls <= c.calls
}

/// Entries are in strictly increasing module-name order (so each module
/// appears once) and each has consistent counters.
pub open spec fn coverage_entries_valid(entries: Seq<AmpBf16LinearCoverage>) -> bool {
    &&& forall|i: int, j: int|
        0 <= i < j < entries.len() ==> lex_lt(#[trigger] entries[i].module@, #[trigger] entries[j].module@)
    &&& forall|i: int| 0 <= i < entries.len() ==> counters_consistent(#[trigger] entries[i])
}

/// `after` is `before` (counters `calls`, `tc`, `fb`, `shape`, `dev`, `dt`)
/// advanced by one call described by `record`.
pub open spec fn advanced_by(
    after: AmpBf16LinearCoverage,
    calls: int,
    tc: int,
    fb: int,
    shape: int,
    dev: int,
    dt: int,
    record: AmpBf16LinearRecord,
) -> bool {
    &&& after.calls == calls + 1
    &&& after.tensor_core_calls == tc + (if record.used_tensor_core { 1int } else { 0 })
    &&& after.fallback_calls == fb + (if record.used_tensor_core { 0int } else { 1 })
    &&& after.unsupported_shape_calls == shape + (if record.tensor_core_shape { 0int } else { 1 })
    &&& after.unsupported_device_calls == dev + (if record.tensor_core_device { 0int } else { 1 })
    &&& after.dtype_mismatch_calls == dt + (if record.dtype_match() { 0int } else { 1 })
    &&& after.last_m == record.m
    &&& after.last_k == record.k
    &&& after.last_n == record.n
    &&& after.last_device@ == device_label_spec(record.device)
    &&& after.last_input_dtype@ == dtype_label_spec(record.input_dtype)
    &&& after.last_weight_dtype@ == dtype_label_spec(record.weight_dtype)
    &&& after.last_bias_dtype@ == dtype_label_spec(record.bias_dtype)
    &&& after.last_path@ == record.path_spec()
}

/// `after` is the entry `before` after one more call described by `record`.
pub open spec fn entry_advanced(before: AmpBf16LinearCoverage, after: AmpBf16LinearCoverage, record: AmpBf16LinearRecord) -> bool {
    &&& after.module@ == before.module@
    &&& advanced_by(
        after,
        before.calls as int,
        before.tensor_core_calls as int,
        before.fallback_calls as int,
        before.unsupported_shape_calls as int,
        before.unsupported_device_calls as int,
        before.dtype_mismatch_calls as int,
        record,
    )
}

/// `entry` is a new module's entry after its first call, `record`.
pub open spec fn entry_started(entry: AmpBf16LinearCoverage, record: AmpBf16LinearRecord) -> bool {
    entry.module@ == record.module@ && advanced_by(entry, 0, 0, 0, 0, 0, 0, record)
}

/// Sum of one counter over a run of entries.
pub open spec fn sum_counter(entries: Seq<AmpBf16LinearCoverage>, f: spec_fn(AmpBf16LinearCoverage) -> usize) -> nat
    decreases entries.len(),
{
    if entries.len() == 0 {
        0
    } else {
        sum_counter(entries.drop_last(), f) + f(entries.last()) as nat
    }
}

pub open spec fn calls_of(c: AmpBf16LinearCoverage) -> usize {
    c.calls
}

pub open spec fn tensor_core_calls_of(c: AmpBf16LinearCoverage) -> usize {
    c.tensor_core_calls
}

pub open spec fn fallback_calls_of(c: AmpBf16LinearCoverage) -> usize {
    c.fallback_calls
}

pub open spec fn unsupported_shape_calls_of(c: AmpBf16LinearCoverage) -> usize {
    c.unsupported_shape_calls
}

pub open spec fn unsupported_device_calls_of(c: AmpBf16LinearCoverage) -> usize {
    c.unsupported_device_calls
}

pub open spec fn dtype_mismatch_calls_of(c: AmpBf16LinearCoverage) -> usize {
    c.dtype_mismatch_calls
}

/// Per-module AMP BF16 linear coverage accumulated across calls, kept in
/// module-name order.
pub struct AmpBf16CoverageStore {
    modules: Vec<AmpBf16LinearCoverage>,
}

impl View for AmpBf16CoverageStore {
    type V = Seq<AmpBf16LinearCoverage>;

    closed spec fn view(&self) -> Seq<AmpBf16LinearCoverage> {
        self.modules@
    }
}

fn copy_coverage(c: &AmpBf16LinearCoverage) -> (r: AmpBf16LinearCoverage)
    ensures
        r == *c,
{
    AmpBf16LinearCoverage {
        module: c.module.clone(),
        calls: c.calls,
        tensor_core_calls: c.tensor_core_calls,
        fallback_calls: c.fallback_calls,
        unsupported_shape_calls: c.unsupported_shape_calls,
        unsupported_device_calls: c.unsupported_device_calls,
        dtype_mismatch_calls: c.dtype_mismatch_calls,
        last_m: c.last_m,
        last_k: c.last_k,
        last_n: c.last_n,
        last_device: c.last_device.clone(),
        last_input_dtype: c.last_input_dtype.clone(),
        last_weight_dtype: c.last_weight_dtype.clone(),
        last_bias_dtype: c.last_bias_dtype.clone(),
        last_path: c.last_path.clone(),
    }
}

/// `entry` after one more call described by `record`.
fn advance_entry(entry: &AmpBf16LinearCoverage, record: &AmpBf16LinearRecord) -> (after: AmpBf16LinearCoverage)
    requires
        entry.calls < usize::MAX,
        counters_consistent(*entry),
    ensures
        entry_advanced(*entry, after, *record),
        counters_consistent(after),
{
    let dtype_match = record.input_dtype == DType::F32 && record.weight_dtype == DType::F32
        && record.bias_dtype == DType::F32;
    AmpBf16LinearCoverage {
        module: entry.module.clone(),
        calls: entry.calls + 1,
        tensor_core_calls: if record.used_tensor_core {
            entry.tensor_core_calls + 1
        } else {
            entry.tensor_core_calls
        },
        fallback_calls: if record.used_tensor_core {
            entry.fallback_calls
        } else {
            entry.fallback_calls + 1
        },
        unsupported_shape_calls: if record.tensor_core_shape {
            entry.unsupported_shape_calls
        } else {
            entry.unsupported_shape_calls + 1
        },
        unsupported_device_calls: if record.tensor_core_device {
            entry.unsupported_device_calls
        } else {
            entry.unsupported_device_calls + 1
        },
        dtype_mismatch_calls: if dtype_match {
            entry.dtype_mismatch_calls
        } else {
            entry.dtype_mismatch_calls + 1
        },
        last_m: record.m,
        last_k: record.k,
        last_n: record.n,
        last_device: device_label(record.device),
        last_input_dtype: dtype_label(record.input_dtype),
        last_weight_dtype: dtype_label(record.weight_dtype),
        last_bias_dtype: dtype_label(record.bias_dtype),
        last_path: String::from_str(coverage_path(record)),
    }
}

impl AmpBf16CoverageStore {
    /// The entries are in module-name order with consistent counters.
    pub open spec fn well_formed(&self) -> bool {
        coverage_entries_valid(self@)
    }

    /// An empty store.
    pub fn new() -> (s: Self)
        ensures
            s@ == Seq::<AmpBf16LinearCoverage>::empty(),
            s.well_formed(),
    {
        AmpBf16CoverageStore { modules: Vec::new() }
    }

    /// Forgets every recorded call.
    pub fn clear(&mut self)
        ensures
            final(self)@ == Seq::<AmpBf16LinearCoverage>::empty(),
            final(self).well_formed(),
    {
        self.modules = Vec::new();
    }

    /// The recorded entries, in module-name order.
    pub fn entries(&self) -> (e: &[AmpBf16LinearCoverage])
        ensures
            e@ == self@,
    {
        self.modules.as_slice()
    }

    /// Counts one AMP BF16 linear call: the module's entry is advanced by
    /// one call, or created at its place in name order on the first call.
    pub fn record(&mut self, record: AmpBf16LinearRecord)
        requires
            old(self).well_formed(),
            forall|i: int|
                0 <= i < old(self)@.len() && (#[trigger] old(self)@[i]).module@ == record.module@ ==> old(
                    self,
                )@[i].calls < usize::MAX,
        ensures
            final(self).well_formed(),
            (exists|i: int| 0 <= i < old(self)@.len() && (#[trigger] old(self)@[i]).module@ == record.module@)
                ==> exists|i: int|
                0 <= i < old(self)@.len() && (#[trigger] old(self)@[i]).module@ == record.module@
                    && final(self)@ == old(self)@.update(i, final(self)@[i]) && entry_advanced(
                    old(self)@[i],
                    final(self)@[i],
                    record,
                ),
            !(exists|i: int| 0 <= i < old(self)@.len() && (#[trigger] old(self)@[i]).module@ == record.module@)
                ==> exists|p: int|
                0 <= p <= old(self)@.len() && final(self)@ == old(self)@.insert(p, final(self)@[p])
                    && entry_started(#[trigger] final(self)@[p], record),
    {
        let ghost before = self.modules@;
        let mut i: usize = 0;
        let mut found = false;
        let mut placed = false;
        while i < self.modules.len() && !placed
            invariant
                self.modules@ == before,
                coverage_entries_valid(before),
                i <= before.len(),
                forall|j: int| 0 <= j < i ==> lex_lt((#[trigger] before[j]).module@, record.module@),
                placed ==> i < before.len() && !lex_lt(before[i as int].module@, record.module@),
                found ==> placed && before[i as int].module@ == record.module@,
                placed && !found ==> lex_lt(record.module@, before[i as int].module@),
            decreases before.len() - i, (if placed { 0int } else { 1int }),
        {
            let order = lex_order(self.modules[i].module.as_str(), record.module);
            match order {
                Lex::Before => {
                    i = i + 1;
                },
                Lex::Same => {
                    found = true;
                    placed = true;
                },
                Lex::After => {
                    placed = true;
                },
            }
        }
        if found {
            proof {
                assert(before[i as int].module@ == record.module@);
                assert(old(self)@[i as int].module@ == record.module@);
            }
            let after = advance_entry(&self.modules[i], &record);
            self.modules.set(i, after);
            proof {
                let now = self.modules@;
                assert forall|a: int, b: int| 0 <= a < b < now.len() implies lex_lt(
                    #[trigger] now[a].module@,
                    #[trigger] now[b].module@,
                ) by {
                    assert(now[a].module@ == before[a].module@);
                    assert(now[b].module@ == before[b].module@);
                }
                assert(forall|a: int| 0 <= a < now.len() ==> counters_consistent(#[trigger] now[a]));
            }
        } else {
            proof {
                assert forall|j: int| 0 <= j < before.len() implies (#[trigger] before[j]).module@
                    != record.module@ by {
                    if j < i {
                        lemma_lex_order(before[j].module@, record.module@, record.module@);
                    } else {
                        if placed {
                            lemma_lex_order(record.module@, before[i as int].module@, before[j].module@);
                            if j > i {
                                assert(lex_lt(before[i as int].module@, before[j].module@));
                            }
                            lemma_lex_order(record.module@, before[j].module@, before[j].module@);
                        }
                    }
                }
            }
            let fresh = AmpBf16LinearCoverage {
                module: String::from_str(record.module),
                calls: 0,
                tensor_core_calls: 0,
                fallback_calls: 0,
                unsupported_shape_calls: 0,
                unsupported_device_calls: 0,
                dtype_mismatch_calls: 0,
                last_m: 0,
                last_k: 0,
                last_n: 0,
                last_device: String::new(),
                last_input_dtype: String::new(),
                last_weight_dtype: String::new(),
                last_bias_dtype: String::new(),
                last_path: String::new(),
            };
            let entry = advance_entry(&fresh, &record);
            self.modules.insert(i, entry);
            proof {
                let now = self.modules@;
                assert(now == before.insert(i as int, now[i as int]));
                assert forall|a: int, b: int| 0 <= a < b < now.len() implies lex_lt(
                    #[trigger] now[a].module@,
                    #[trigger] now[b].module@,
                ) by {
                    if b < i {
                    } else if b == i {
                        assert(now[a] == before[a]);
                    } else if a == i {
                        assert(now[b] == before[b - 1]);
                        if b - 1 > i {
                            assert(lex_lt(before[i as int].module@, before[b - 1].module@));
                            lemma_lex_order(record.module@, before[i as int].module@, before[b - 1].module@);
                        }
                    } else if a < i {
                        assert(now[a] == before[a]);
                        assert(now[b] == before[b - 1]);
                    } else {
                        assert(now[a] == before[a - 1]);
                        assert(now[b] == before[b - 1]);
                    }
                }
                assert forall|a: int| 0 <= a < now.len() implies counters_consistent(#[trigger] now[a]) by {
                    if a < i {
                        assert(now[a] == before[a]);
                    } else if a > i {
                        assert(now[a] == before[a - 1]);
                    }
                }
                assert(entry_started(now[i as int], record));
                assert(0 <= i <= old(self)@.len() && self@ == old(self)@.insert(i as int, self@[i as int])
                    && entry_started(self@[i as int], record));
            }
        }
    }
}

proof fn lemma_sum_counter_bounded(
    entries: Seq<AmpBf16LinearCoverage>,
    f: spec_fn(AmpBf16LinearCoverage) -> usize,
    g: spec_fn(AmpBf16LinearCoverage) -> usize,
)
    requires
        forall|i: int| 0 <= i < entries.len() ==> f(#[trigger] entries[i]) <= g(entries[i]),
    ensures
        sum_counter(entries, f) <= sum_counter(entries, g),
    decreases entries.len(),
{
    if entries.len() > 0 {
        let rest = entries.drop_last();
        assert forall|i: int| 0 <= i < rest.len() implies f(#[trigger] rest[i]) <= g(rest[i]) by {
            assert(rest[i] == entries[i]);
        }
        lemma_sum_counter_bounded(rest, f, g);
        assert(f(entries.last()) <= g(entries[entries.len() - 1]));
    }
}

proof fn lemma_sum_counter_prefix(entries: Seq<AmpBf16LinearCoverage>, f: spec_fn(AmpBf16LinearCoverage) -> usize, k: int)
    requires
        0 <= k < entries.len(),
    ensures
        sum_counter(entries.take(k + 1), f) == sum_counter(entries.take(k), f) + f(entries[k]),
        sum_counter(entries.take(k + 1), f) <= sum_counter(entries, f),
    decreases entries.len() - k,
{
    assert(entries.take(k + 1).drop_last() =~= entries.take(k));
    if k + 1 < entries.len() {
        lemma_sum_counter_prefix(entries, f, k + 1);
    } else {
        assert(entries.take(k + 1) =~= entries);
    }
}

/// Resets the coverage store: afterwards no module has a recorded call.
pub fn reset_amp_bf16_tensor_core_coverage(store: &mut AmpBf16CoverageStore)
    ensures
        final(store)@ == Seq::<AmpBf16LinearCoverage>::empty(),
        final(store).well_formed(),
{
    store.clear();
}

/// Snapshot of the coverage store: the entries in module-name order and
/// each counter summed over them.
pub fn amp_bf16_tensor_core_coverage(store: &AmpBf16CoverageStore) -> (cov: AmpBf16TensorCoreCoverage)
    requires
        store.well_formed(),
        sum_counter(store@, |c: AmpBf16LinearCoverage| calls_of(c)) <= usize::MAX,
    ensures
        cov.linear_modules@ == store@,
        cov.linear_totals.calls == sum_counter(store@, |c: AmpBf16LinearCoverage| calls_of(c)),
        cov.linear_totals.tensor_core_calls == sum_counter(store@, |c: AmpBf16LinearCoverage| tensor_core_calls_of(c)),
        cov.linear_totals.fallback_calls == sum_counter(store@, |c: AmpBf16LinearCoverage| fallback_calls_of(c)),
        cov.linear_totals.unsupported_shape_calls == sum_counter(
            store@,
            |c: AmpBf16LinearCoverage| unsupported_shape_calls_of(c),
        ),
        cov.linear_totals.unsupported_device_calls == sum_counter(
            store@,
            |c: AmpBf16LinearCoverage| unsupported_device_calls_of(c),
        ),
        cov.linear_totals.dtype_mismatch_calls == sum_counter(
            store@,
            |c: AmpBf16LinearCoverage| dtype_mismatch_calls_of(c),
        ),
{
    let ghost entries = store@;
    let ghost fc = |c: AmpBf16LinearCoverage| calls_of(c);
    let ghost ft = |c: AmpBf16LinearCoverage| tensor_core_calls_of(c);
    let ghost ff = |c: AmpBf16LinearCoverage| fallback_calls_of(c);
    let ghost fs = |c: AmpBf16LinearCoverage| unsupported_shape_calls_of(c);
    let ghost fd = |c: AmpBf16LinearCoverage| unsupported_device_calls_of(c);
    let ghost fm = |c: AmpBf16LinearCoverage| dtype_mismatch_calls_of(c);
    proof {
        lemma_sum_counter_bounded(entries, ft, fc);
        lemma_sum_counter_bounded(entries, ff, fc);
        lemma_sum_counter_bounded(entries, fs, fc);
        lemma_sum_counter_bounded(entries, fd, fc);
        lemma_sum_counter_bounded(entries, fm, fc);
    }
    let mut modules: Vec<AmpBf16LinearCoverage> = Vec::new();
    let mut totals = AmpBf16LinearCoverageTotals::default();
    let mut i: usize = 0;
    while i < store.modules.len()
        invariant
            entries == store.modules@,
            i <= entries.len(),
            modules@ == entries.take(i as int),
            fc == (|c: AmpBf16LinearCoverage| calls_of(c)),
            ft == (|c: AmpBf16LinearCoverage| tensor_core_calls_of(c)),
            ff == (|c: AmpBf16LinearCoverage| fallback_calls_of(c)),
            fs == (|c: AmpBf16LinearCoverage| unsupported_shape_calls_of(c)),
            fd == (|c: AmpBf16LinearCoverage| unsupported_device_calls_of(c)),
            fm == (|c: AmpBf16LinearCoverage| dtype_mismatch_calls_of(c)),
            sum_counter(entries, fc) <= usize::MAX,
            sum_counter(entries, ft) <= sum_counter(entries, fc),
            sum_counter(entries, ff) <= sum_counter(entries, fc),
            sum_counter(entries, fs) <= sum_counter(entries, fc),
            sum_counter(entries, fd) <= sum_counter(entries, fc),
            sum_counter(entries, fm) <= sum_counter(entries, fc),
            totals.calls == sum_counter(entries.take(i as int), fc),
            totals.tensor_core_calls == sum_counter(entries.take(i as int), ft),
            totals.fallback_calls == sum_counter(entries.take(i as int), ff),
            totals.unsupported_shape_calls == sum_counter(entries.take(i as int), fs),
            totals.unsupported_device_calls == sum_counter(entries.take(i as int), fd),
            totals.dtype_mismatch_calls == sum_counter(entries.take(i as int), fm),
        decreases entries.len() - i,
    {
        let entry = &store.modules[i];
        proof {
            lemma_sum_counter_prefix(entries, fc, i as int);
            lemma_sum_counter_prefix(entries, ft, i as int);
            lemma_sum_counter_prefix(entries, ff, i as int);
            lemma_sum_counter_prefix(entries, fs, i as int);
            lemma_sum_counter_prefix(entries, fd, i as int);
            lemma_sum_counter_prefix(entries, fm, i as int);
        }
        totals.calls = totals.calls + entry.calls;
        totals.tensor_core_calls = totals.tensor_core_calls + entry.tensor_core_calls;
        totals.fallback_calls = totals.fallback_calls + entry.fallback_calls;
        totals.unsupported_shape_calls = totals.unsupported_shape_calls + entry.unsupported_shape_calls;
        totals.unsupported_device_calls = totals.unsupported_device_calls + entry.unsupported_device_calls;
        totals.dtype_mismatch_calls = totals.dtype_mismatch_calls + entry.dtype_mismatch_calls;
        modules.push(copy_coverage(entry));
        assert(modules@ =~= entries.take(i + 1));
        i = i + 1;
    }
    assert(entries.take(entries.len() as int) =~= entries);
    AmpBf16TensorCoreCoverage { linear_totals: totals, linear_modules: modules }
}

// ---------------------------------------------------------------------------
// Module names and kernel-path decisions
// ---------------------------------------------------------------------------

/// Name of a child module: the child's own name at the root, otherwise
/// `prefix.child`.
pub open spec fn child_module_name_spec(prefix: Seq<char>, child: Seq<char>) -> Seq<char> {
    if prefix.len() == 0 {
        child
    } else {
        prefix + "."@ + child
    }
}

pub fn child_module_name(prefix: &str, child: &str) -> (name: String)
    ensures
        name@ == child_module_name_spec(prefix@, child@),
{
    if prefix.is_empty() {
        String::from_str(child)
    } else {
        String::from_str(prefix).concat(".").concat(child)
    }
}

/// Dimensions of a causal attention call on a `[batch, time, channels]` query.
#[derive(Clone, Copy, Debug, PartialEq, Eq, Structural)]
pub struct CausalAttentionDims {
    pub batch: usize,
    pub time: usize,
    pub channels: usize,
    pub n_heads: usize,
}

/// The attention dimensions of a rank-3 query whose channels split evenly
/// into `n_heads` heads; `None` otherwise.
pub fn attention_tensor_core_dims(query_shape: &[usize], n_heads: usize) -> (dims: Option<CausalAttentionDims>)
    ensures
        dims is Some <==> query_shape@.len() == 3 && n_heads > 0 && query_shape@[2] % n_heads == 0,
        dims matches Some(d) ==> d == (CausalAttentionDims {
            batch: query_shape@[0],
            time: query_shape@[1],
            channels: query_shape@[2],
            n_heads,
        }),
{
    if query_shape.len() != 3 || n_heads == 0 || query_shape[2] % n_heads != 0 {
        return None;
    }
    Some(CausalAttentionDims { batch: query_shape[0], time: query_shape[1], channels: query_shape[2], n_heads })
}

/// How an AMP BF16 linear call runs: on the BF16 tensor-core path (fused
/// with the bias when the exact-tile cp.async GEMM is on) or on the
/// fallback path, with the first reason it fell back.
#[derive(Clone, Debug)]
pub struct LinearAmpPlan {
    pub outer: usize,
    pub tensor_core_device: bool,
    pub tensor_core_shape: bool,
    pub use_tensor_core: bool,
    pub fused_bias: bool,
    pub kernel_path: &'static str,
    pub fallback_reason: Option<&'static str>,
    pub output_shape: Vec<usize>,
}

pub open spec fn kernel_path_spec(use_tensor_core: bool, fused: bool) -> Seq<char> {
    if use_tensor_core {
        if fused {
            "cuda_tensor_core_bf16_rhs_t_cp_async_bias_fused"@
        } else {
            "cuda_tensor_core_bf16_rhs_t"@
        }
    } else {
        "fallback_linear_forward"@
    }
}

/// The fallback reason, checked device, then shape, then dtype.
pub open spec fn fallback_reason_spec(
    use_tensor_core: bool,
    device_ok: bool,
    shape_ok: bool,
    dtypes_f32: bool,
) -> Option<Seq<char>> {
    if use_tensor_core {
        None
    } else if !device_ok {
        Some("unsupported_device"@)
    } else if !shape_ok {
        Some("unsupported_shape"@)
    } else if !dtypes_f32 {
        Some("dtype_mismatch"@)
    } else {
        Some("unknown"@)
    }
}

/// Decides how an AMP BF16 linear call of `in_features -> out_features`
/// runs on an input of `input_shape` (with `input_numel` elements) on
/// `device`. `tensor_core_shape`, `device_has_tensor_cores`,
/// `cp_async_enabled` and `exact_tile_shape` are the kernel library's
/// answers for this call. An input without a last dimension of
/// `in_features` is a shape error.
pub fn plan_linear_amp_bf16(
    input_shape: &[usize],
    input_numel: usize,
    in_features: usize,
    out_features: usize,
    device: Device,
    input_dtype: DType,
    weight_dtype: DType,
    bias_dtype: DType,
    tensor_core_shape: bool,
    device_has_tensor_cores: bool,
    cp_async_enabled: bool,
    exact_tile_shape: bool,
) -> (res: Result<LinearAmpPlan>)
    requires
        in_features > 0,
    ensures
        res is Ok <==> input_shape@.len() > 0 && input_shape@.last() == in_features,
        res matches Err(e) ==> e is Shape,
        res matches Err(e) ==> e.message_spec() == if input_shape@.len() == 0 {
            "Linear expected input with last dim"@ + " "@ + decimal(in_features as nat) + ", got scalar"@
        } else {
            "Linear expected input last dim"@ + " "@ + decimal(in_features as nat) + ", got "@ + dims_text(
                input_shape@,
            )
        },
        res matches Ok(plan) ==> {
            let device_ok = device is Cuda && device_has_tensor_cores;
            let dtypes_f32 = input_dtype == DType::F32 && weight_dtype == DType::F32 && bias_dtype == DType::F32;
            let use_tc = device_ok && dtypes_f32 && tensor_core_shape;
            &&& plan.outer == input_numel / in_features
            &&& plan.tensor_core_device == device_ok
            &&& plan.tensor_core_shape == tensor_core_shape
            &&& plan.use_tensor_core == use_tc
            &&& plan.fused_bias == (use_tc && cp_async_enabled && exact_tile_shape)
            &&& plan.kernel_path@ == kernel_path_spec(use_tc, plan.fused_bias)
            &&& (match plan.fallback_reason {
                Some(r) => fallback_reason_spec(use_tc, device_ok, tensor_core_shape, dtypes_f32) == Some(r@),
                None => fallback_reason_spec(use_tc, device_ok, tensor_core_shape, dtypes_f32) is None,
            })
            &&& plan.output_shape@ == input_shape@.drop_last().push(out_features)
        },
{
    if input_shape.len() == 0 {
        let mut message = String::from_str("Linear expected input with last dim");
        push_number(&mut message, " ", in_features as u64);
        message.append(", got scalar");
        return Err(TensorError::Shape(message));
    }
    let last = input_shape[input_shape.len() - 1];
    if last != in_features {
        let mut message = String::from_str("Linear expected input last dim");
        push_number(&mut message, " ", in_features as u64);
        message.append(", got ");
        push_dims(&mut message, input_shape);
        return Err(TensorError::Shape(message));
    }
    let outer = input_numel / in_features;
    let tensor_core_device = match device {
        Device::Cuda(_) => device_has_tensor_cores,
        Device::Cpu => false,
    };
    let dtypes_f32 = input_dtype == DType::F32 && weight_dtype == DType::F32 && bias_dtype == DType::F32;
    let use_tensor_core = tensor_core_device && dtypes_f32 && tensor_core_shape;
    let fused_bias = use_tensor_core && cp_async_enabled && exact_tile_shape;
    let kernel_path = if use_tensor_core {
        if fused_bias {
            "cuda_tensor_core_bf16_rhs_t_cp_async_bias_fused"
        } else {
            "cuda_tensor_core_bf16_rhs_t"
        }
    } else {
        "fallback_linear_forward"
    };
    let fallback_reason = if use_tensor_core {
        None
    } else if !tensor_core_device {
        Some("unsupported_device")
    } else if !tensor_core_shape {
        Some("unsupported_shape")
    } else if !dtypes_f32 {
        Some("dtype_mismatch")
    } else {
        Some("unknown")
    };
    let mut output_shape: Vec<usize> = Vec::new();
    let keep = input_shape.len() - 1;
    let mut i: usize = 0;
    while i < keep
        invariant
            keep + 1 == input_shape@.len(),
            i <= keep,
            output_shape@ == input_shape@.take(i as int),
        decreases input_shape@.len() - i,
    {
        output_shape.push(input_shape[i]);
        assert(output_shape@ =~= input_shape@.take(i + 1));
        i = i + 1;
    }
    output_shape.push(out_features);
    assert(output_shape@ =~= input_shape@.drop_last().push(out_features));
    Ok(
        LinearAmpPlan {
            outer,
            tensor_core_device,
            tensor_core_shape,
            use_tensor_core,
            fused_bias,
            kernel_path,
            fallback_reason,
            output_shape,
        },
    )
}

/// The coverage record of the call a plan describes.
pub fn linear_coverage_record<'a>(
    module: &'a str,
    plan: &LinearAmpPlan,
    in_features: usize,
    out_features: usize,
    device: Device,
    input_dtype: DType,
    weight_dtype: DType,
    bias_dtype: DType,
) -> (r: AmpBf16LinearRecord<'a>)
    ensures
        r.module == module,
        r.m == plan.outer && r.k == in_features && r.n == out_features,
        r.device == device,
        r.input_dtype == input_dtype && r.weight_dtype == weight_dtype && r.bias_dtype == bias_dtype,
        r.tensor_core_device == plan.tensor_core_device,
        r.tensor_core_shape == plan.tensor_core_shape,
        r.used_tensor_core == plan.use_tensor_core,
{
    AmpBf16LinearRecord {
        module,
        m: plan.outer,
        k: in_features,
        n: out_features,
        device,
        input_dtype,
        weight_dtype,
        bias_dtype,
        tensor_core_device: plan.tensor_core_device,
        tensor_core_shape: plan.tensor_core_shape,
        used_tensor_core: plan.use_tensor_core,
    }
}

} // verus!
