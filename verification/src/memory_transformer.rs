//! Sparse-memory configuration and bookkeeping for the memory-augmented
//! transformer: layer configuration and its validation, row-access counts,
//! and the projection of row masks onto product-key half tables.

use vstd::prelude::*;
use crate::error::{dims_text, invalid_operation, push_dims, push_i64, push_number, signed_decimal, Result, TensorError};
use crate::nn::{device_label, device_label_spec};
use crate::storage::Device;
use crate::text::decimal_u64;
use crate::text::decimal;

verus! {

/// Which parameter subsets an optimizer step may update.
#[derive(Clone, Copy, Debug, PartialEq, Eq, Structural)]
pub enum MemoryUpdatePolicy {
    Full,
    MemoryOnly,
    SparseRows,
    Frozen,
}

impl Default for MemoryUpdatePolicy {
    fn default() -> (p: Self)
        ensures
            p == MemoryUpdatePolicy::Full,
    {
        MemoryUpdatePolicy::Full
    }
}

/// Sparse-memory fine-tuning policy applied to dense and memory parameters.
#[derive(Clone, Copy, Debug, PartialEq, Eq, Structural)]
pub enum SmftMode {
    Disabled,
    FreezeDenseUpdateMemory,
    MaskedMemoryRows,
}

impl Default for SmftMode {
    fn default() -> (m: Self)
        ensures
            m == SmftMode::Disabled,
    {
        SmftMode::Disabled
    }
}

/// Memory candidate lookup implementation.
#[derive(Clone, Copy, Debug, PartialEq, Eq, Structural)]
pub enum MemoryLookupKind {
    Exact,
    ProductKey,
}

impl Default for MemoryLookupKind {
    fn default() -> (k: Self)
        ensures
            k == MemoryLookupKind::Exact,
    {
        MemoryLookupKind::Exact
    }
}

/// Configuration and optimizer policy for one memory feed-forward layer.
#[derive(Clone, Copy, Debug, PartialEq, Eq, Structural)]
pub struct MemoryLayerConfig {
    pub memory_slots: usize,
    pub memory_key_dim: usize,
    pub memory_value_dim: usize,
    pub memory_top_k: usize,
    pub memory_heads: usize,
    pub memory_lookup: MemoryLookupKind,
    pub shared_memory: bool,
    pub memory_plus: bool,
    pub memory_update_policy: MemoryUpdatePolicy,
    pub smft_mode: SmftMode,
}

/// Complete decoder and sparse-memory layout of the memory transformer.
#[derive(Clone, Debug, PartialEq, Eq)]
pub struct MemoryTransformerConfig {
    pub vocab_size: usize,
    pub block_size: usize,
    pub n_layers: usize,
    pub d_model: usize,
    pub n_heads: usize,
    pub ff_hidden: usize,
    pub memory_layer_indices: Vec<usize>,
    pub memory_slots: usize,
    pub memory_key_dim: usize,
    pub memory_value_dim: usize,
    pub memory_top_k: usize,
    pub memory_heads: usize,
    pub memory_lookup: MemoryLookupKind,
    pub shared_memory: bool,
    pub memory_plus: bool,
    pub memory_update_policy: MemoryUpdatePolicy,
    pub smft_mode: SmftMode,
}

/// `side * side <= n < (side + 1) * (side + 1)`.
pub open spec fn is_floor_sqrt(n: nat, side: nat) -> bool {
    side * side <= n < (side + 1) * (side + 1)
}

/// `root * root >= n` and no smaller root has that property.
pub open spec fn is_ceil_sqrt(n: nat, root: nat) -> bool {
    &&& root * root >= n
    &&& (root == 0 || (root - 1) * (root - 1) < n)
}

/// Integer square root rounded down.
pub fn floor_sqrt(n: usize) -> (side: usize)
    ensures
        is_floor_sqrt(n as nat, side as nat),
{
    // Binary search for the largest side with side * side <= n.
    let target = n as u64;
    let mut lo: u64 = 0;
    let mut hi: u64 = 0x1_0000_0000;
    assert(0x1_0000_0000nat * 0x1_0000_0000nat == 0x1_0000_0000_0000_0000nat);
    while hi - lo > 1
        invariant
            lo < hi,
            hi <= 0x1_0000_0000,
            target == n,
            lo * lo <= target,
            hi * hi > target,
        decreases hi - lo,
    {
        let mid = lo + (hi - lo) / 2;
        assert(mid * mid < 0x1_0000_0000nat * 0x1_0000_0000nat) by (nonlinear_arith)
            requires
                mid < 0x1_0000_0000nat,
        ;
        if (mid as u128) * (mid as u128) <= target as u128 {
            lo = mid;
        } else {
            hi = mid;
        }
    }
    assert(hi == lo + 1);
    assert(lo <= n) by (nonlinear_arith)
        requires
            lo * lo <= n,
    ;
    lo as usize
}

/// Side of the product-key grid: the integer square root of
/// `memory_slots`. Refuses zero slots.
pub fn product_key_side(memory_slots: usize) -> (res: Result<usize>)
    ensures
        res is Ok <==> memory_slots > 0,
        res matches Ok(side) ==> is_floor_sqrt(memory_slots as nat, side as nat),
        res matches Err(e) ==> e is InvalidOperation,
{
    let side = floor_sqrt(memory_slots);
    if side == 0 {
        assert(memory_slots == 0) by (nonlinear_arith)
            requires
                is_floor_sqrt(memory_slots as nat, 0),
        ;
        return Err(invalid_operation("product-key memory lookup requires non-zero memory_slots"));
    }
    assert(memory_slots > 0) by (nonlinear_arith)
        requires
            is_floor_sqrt(memory_slots as nat, side as nat),
            side > 0,
    ;
    Ok(side)
}

/// Integer square root rounded up.
pub fn ceil_sqrt(value: usize) -> (root: usize)
    ensures
        is_ceil_sqrt(value as nat, root as nat),
{
    if value <= 1 {
        assert(is_ceil_sqrt(value as nat, value as nat)) by (nonlinear_arith)
            requires
                value <= 1,
        ;
        return value;
    }
    let side = floor_sqrt(value);
    assert(side < value) by (nonlinear_arith)
        requires
            is_floor_sqrt(value as nat, side as nat),
            value > 1,
    ;
    if side * side == value {
        proof {
            assert((side - 1) * (side - 1) < value) by (nonlinear_arith)
                requires
                    side * side == value,
                    value > 1,
            ;
        }
        side
    } else {
        proof {
            assert((side + 1) * (side + 1) > value);
        }
        side + 1
    }
}

/// Number of candidates kept per half-key in product-key lookup.
pub fn product_key_beam(side: usize, top_k: usize) -> (beam: usize)
    ensures
        beam == (if side <= top_k { side } else { top_k }),
{
    let root = ceil_sqrt(top_k);
    proof {
        if top_k >= 1 {
            assert(root <= top_k) by (nonlinear_arith)
                requires
                    is_ceil_sqrt(top_k as nat, root as nat),
                    top_k >= 1,
            ;
        }
    }
    let wide = if top_k >= root { top_k } else { root };
    if side <= wide { side } else { wide }
}

/// `n` is the square of some natural number.
pub open spec fn is_perfect_square(n: nat) -> bool {
    exists|s: nat| #[trigger] (s * s) == n
}

proof fn lemma_floor_sqrt_square(n: nat, side: nat)
    requires
        is_floor_sqrt(n, side),
    ensures
        is_perfect_square(n) <==> side * side == n,
{
    if is_perfect_square(n) {
        let s = choose|s: nat| #[trigger] (s * s) == n;
        if s <= side {
            if s < side {
                assert(s * s < side * side) by (nonlinear_arith)
                    requires
                        s < side,
                ;
            }
        } else {
            assert(s * s >= (side + 1) * (side + 1)) by (nonlinear_arith)
                requires
                    s >= side + 1,
            ;
        }
    }
    if side * side == n {
        assert(is_perfect_square(n)) by {
            assert((side * side) == n);
        }
    }
}

impl MemoryTransformerConfig {
    /// The small fixture configuration: 32 layers of width 64 with shared
    /// exact-lookup memory (1024 slots, top-4) at layers 8, 16 and 24.
    pub fn tiny(vocab_size: usize) -> (c: Self)
        ensures
            c.vocab_size == vocab_size,
            c.block_size == 64,
            c.n_layers == 32,
            c.d_model == 64,
            c.n_heads == 4,
            c.ff_hidden == 256,
            c.memory_layer_indices@ == seq![8usize, 16, 24],
            c.memory_slots == 1024,
            c.memory_key_dim == 32,
            c.memory_value_dim == 64,
            c.memory_top_k == 4,
            c.memory_heads == 1,
            c.memory_lookup == MemoryLookupKind::Exact,
            c.shared_memory,
            c.memory_plus,
            c.memory_update_policy == MemoryUpdatePolicy::Full,
            c.smft_mode == SmftMode::Disabled,
    {
        let mut layers: Vec<usize> = Vec::new();
        layers.push(8);
        layers.push(16);
        layers.push(24);
        assert(layers@ =~= seq![8usize, 16, 24]);
        MemoryTransformerConfig {
            vocab_size,
            block_size: 64,
            n_layers: 32,
            d_model: 64,
            n_heads: 4,
            ff_hidden: 256,
            memory_layer_indices: layers,
            memory_slots: 1024,
            memory_key_dim: 32,
            memory_value_dim: 64,
            memory_top_k: 4,
            memory_heads: 1,
            memory_lookup: MemoryLookupKind::Exact,
            shared_memory: true,
            memory_plus: true,
            memory_update_policy: MemoryUpdatePolicy::Full,
            smft_mode: SmftMode::Disabled,
        }
    }

    /// The per-layer memory configuration shared by every memory layer.
    pub fn memory_layer_config(&self) -> (m: MemoryLayerConfig)
        ensures
            m == self.layer_config_spec(),
    {
        MemoryLayerConfig {
            memory_slots: self.memory_slots,
            memory_key_dim: self.memory_key_dim,
            memory_value_dim: self.memory_value_dim,
            memory_top_k: self.memory_top_k,
            memory_heads: self.memory_heads,
            memory_lookup: self.memory_lookup,
            shared_memory: self.shared_memory,
            memory_plus: self.memory_plus,
            memory_update_policy: self.memory_update_policy,
            smft_mode: self.smft_mode,
        }
    }

    pub open spec fn layer_config_spec(&self) -> MemoryLayerConfig {
        MemoryLayerConfig {
            memory_slots: self.memory_slots,
            memory_key_dim: self.memory_key_dim,
            memory_value_dim: self.memory_value_dim,
            memory_top_k: self.memory_top_k,
            memory_heads: self.memory_heads,
            memory_lookup: self.memory_lookup,
            shared_memory: self.shared_memory,
            memory_plus: self.memory_plus,
            memory_update_policy: self.memory_update_policy,
            smft_mode: self.smft_mode,
        }
    }

    pub open spec fn dense_dims_nonzero(&self) -> bool {
        self.vocab_size > 0 && self.block_size > 0 && self.n_layers > 0 && self.d_model > 0
            && self.ff_hidden > 0
    }

    pub open spec fn heads_divide_model(&self) -> bool {
        self.n_heads > 0 && self.d_model % self.n_heads == 0
    }

    pub open spec fn memory_dims_valid(&self) -> bool {
        &&& self.memory_slots > 0 && self.memory_key_dim > 0 && self.memory_value_dim > 0
            && self.memory_top_k > 0
        &&& self.memory_top_k <= self.memory_slots
        &&& self.memory_heads == 1
        &&& self.memory_lookup == MemoryLookupKind::ProductKey ==> self.memory_key_dim % 2 == 0
            && is_perfect_square(self.memory_slots as nat)
    }

    /// Memory layers are distinct layers of the decoder.
    pub open spec fn memory_layers_valid(&self) -> bool {
        &&& forall|i: int|
            0 <= i < self.memory_layer_indices@.len() ==> #[trigger] self.memory_layer_indices@[i]
                < self.n_layers
        &&& forall|i: int, j: int|
            0 <= i < j < self.memory_layer_indices@.len() ==> #[trigger] self.memory_layer_indices@[i]
                != #[trigger] self.memory_layer_indices@[j]
    }

    pub open spec fn is_valid(&self) -> bool {
        &&& self.dense_dims_nonzero()
        &&& self.heads_divide_model()
        &&& self.memory_dims_valid()
        &&& self.memory_layers_valid()
    }

    /// The message of the first check that the configuration fails, short
    /// of its memory layer list.
    pub open spec fn dims_refusal_message(&self) -> Seq<char> {
        if !self.dense_dims_nonzero() {
            "vocab_size, block_size, n_layers, d_model, and ff_hidden must be non-zero"@
        } else if !self.heads_divide_model() {
            "d_model"@ + " "@ + decimal(self.d_model as nat) + " must be divisible by n_heads "@ + decimal(
                self.n_heads as nat,
            )
        } else if !(self.memory_slots > 0 && self.memory_key_dim > 0 && self.memory_value_dim > 0
            && self.memory_top_k > 0) {
            "memory_slots, memory_key_dim, memory_value_dim, and memory_top_k must be non-zero"@
        } else if self.memory_top_k > self.memory_slots {
            "memory_top_k"@ + " "@ + decimal(self.memory_top_k as nat) + " cannot exceed memory_slots "@
                + decimal(self.memory_slots as nat)
        } else if self.memory_heads != 1 {
            "memory_heads="@ + decimal(self.memory_heads as nat)
                + " requested, but the first Heirloom memory layer supports one memory head"@
        } else if self.memory_lookup == MemoryLookupKind::ProductKey && self.memory_key_dim % 2 != 0 {
            "product-key memory lookup requires even memory_key_dim, got"@ + " "@ + decimal(
                self.memory_key_dim as nat,
            )
        } else {
            "product-key memory lookup requires square memory_slots, got"@ + " "@ + decimal(
                self.memory_slots as nat,
            )
        }
    }

    /// The refusal of memory layer index `i`, the first bad one.
    pub open spec fn layer_refusal_message(&self, i: int) -> Seq<char> {
        let index = self.memory_layer_indices@[i];
        if index >= self.n_layers {
            "memory layer index"@ + " "@ + decimal(index as nat) + " is outside n_layers "@ + decimal(
                self.n_layers as nat,
            )
        } else {
            "duplicate memory layer index"@ + " "@ + decimal(index as nat)
        }
    }

    /// Accepts exactly the valid configurations. A head count that does not
    /// divide the model width (with nonzero dense dimensions) is a shape
    /// error; every other refusal is an invalid-operation error. The message
    /// reports the values of the first failing check, or the first bad
    /// memory layer index.
    pub fn validate(&self) -> (res: Result<()>)
        ensures
            res is Ok <==> self.is_valid(),
            res matches Err(e) ==> (e is Shape <==> self.dense_dims_nonzero()
                && !self.heads_divide_model()),
            res matches Err(e) ==> (e is Shape || e is InvalidOperation),
            res matches Err(e) ==> if self.dense_dims_nonzero() && self.heads_divide_model()
                && self.memory_dims_valid() {
                exists|i: int|
                    #[trigger] first_bad_row(self.memory_layer_indices@, self.n_layers, i)
                        && e.message_spec() == self.layer_refusal_message(i)
            } else {
                e.message_spec() == self.dims_refusal_message()
            },
    {
        if self.vocab_size == 0 || self.block_size == 0 || self.n_layers == 0 || self.d_model == 0
            || self.ff_hidden == 0 {
            return Err(
                invalid_operation(
                    "vocab_size, block_size, n_layers, d_model, and ff_hidden must be non-zero",
                ),
            );
        }
        if self.n_heads == 0 || self.d_model % self.n_heads != 0 {
            let mut message = String::from_str("d_model");
            push_number(&mut message, " ", self.d_model as u64);
            push_number(&mut message, " must be divisible by n_heads ", self.n_heads as u64);
            return Err(TensorError::Shape(message));
        }
        if self.memory_slots == 0 || self.memory_key_dim == 0 || self.memory_value_dim == 0
            || self.memory_top_k == 0 {
            return Err(
                invalid_operation(
                    "memory_slots, memory_key_dim, memory_value_dim, and memory_top_k must be non-zero",
                ),
            );
        }
        if self.memory_top_k > self.memory_slots {
            let mut message = String::from_str("memory_top_k");
            push_number(&mut message, " ", self.memory_top_k as u64);
            push_number(&mut message, " cannot exceed memory_slots ", self.memory_slots as u64);
            return Err(TensorError::InvalidOperation(message));
        }
        if self.memory_heads != 1 {
            let mut message = String::new();
            push_number(&mut message, "memory_heads=", self.memory_heads as u64);
            message.append(" requested, but the first Heirloom memory layer supports one memory head");
            assert(message@ =~= self.dims_refusal_message());
            return Err(TensorError::InvalidOperation(message));
        }
        if self.memory_lookup == MemoryLookupKind::ProductKey {
            if self.memory_key_dim % 2 != 0 {
                let mut message = String::from_str("product-key memory lookup requires even memory_key_dim, got");
                push_number(&mut message, " ", self.memory_key_dim as u64);
                return Err(TensorError::InvalidOperation(message));
            }
            let side = match product_key_side(self.memory_slots) {
                Ok(side) => side,
                Err(e) => {
                    return Err(e);
                },
            };
            proof {
                lemma_floor_sqrt_square(self.memory_slots as nat, side as nat);
            }
            if side * side != self.memory_slots {
                let mut message = String::from_str("product-key memory lookup requires square memory_slots, got");
                push_number(&mut message, " ", self.memory_slots as u64);
                return Err(TensorError::InvalidOperation(message));
            }
        }
        let n = self.n_layers;
        let mut seen: Vec<bool> = Vec::new();
        let mut k: usize = 0;
        while k < n
            invariant
                k <= n,
                seen.len() == k,
                forall|j: int| 0 <= j < k ==> !seen@[j],
            decreases n - k,
        {
            seen.push(false);
            k = k + 1;
        }
        let indices = &self.memory_layer_indices;
        let mut i: usize = 0;
        while i < indices.len()
            invariant
                i <= indices.len(),
                n == self.n_layers,
                seen.len() == n,
                indices@ == self.memory_layer_indices@,
                self.dense_dims_nonzero(),
                self.heads_divide_model(),
                self.memory_dims_valid(),
                forall|a: int| 0 <= a < i ==> #[trigger] indices@[a] < n,
                forall|a: int, b: int|
                    0 <= a < b < i ==> #[trigger] indices@[a] != #[trigger] indices@[b],
                forall|v: int|
                    0 <= v < n ==> (#[trigger] seen@[v] <==> exists|a: int|
                        0 <= a < i && indices@[a] == v),
            decreases indices.len() - i,
        {
            let index = indices[i];
            proof {
                assert forall|j: int| 0 <= j < i implies !#[trigger] bad_row(indices@, n, j) by {
                    assert(indices@[j] < n);
                    if exists|a: int| 0 <= a < j && indices@[a] == indices@[j] {
                        let a = choose|a: int| 0 <= a < j && indices@[a] == indices@[j];
                        assert(indices@[a] != indices@[j]);
                    }
                }
            }
            if index >= n {
                let mut message = String::from_str("memory layer index");
                push_number(&mut message, " ", index as u64);
                push_number(&mut message, " is outside n_layers ", n as u64);
                assert(first_bad_row(indices@, n, i as int));
                return Err(TensorError::InvalidOperation(message));
            }
            if seen[index] {
                let ghost a = choose|a: int| 0 <= a < i && indices@[a] == index;
                assert(indices@[a] == indices@[i as int]);
                let mut message = String::from_str("duplicate memory layer index");
                push_number(&mut message, " ", index as u64);
                assert(first_bad_row(indices@, n, i as int));
                return Err(TensorError::InvalidOperation(message));
            }
            seen.set(index, true);
            i = i + 1;
        }
        Ok(())
    }
}

// ---------------------------------------------------------------------------
// Row-access counts
// ---------------------------------------------------------------------------

/// Sum of the counts.
pub open spec fn total_of(counts: Seq<u64>) -> nat
    decreases counts.len(),
{
    if counts.len() == 0 {
        0
    } else {
        total_of(counts.drop_last()) + (counts.last() as nat)
    }
}

/// Number of non-zero counts.
pub open spec fn nonzero_of(counts: Seq<u64>) -> nat
    decreases counts.len(),
{
    if counts.len() == 0 {
        0
    } else {
        nonzero_of(counts.drop_last()) + (if counts.last() > 0 { 1nat } else { 0nat })
    }
}

/// Number of occurrences of `row` in `rows`.
pub open spec fn occurrences(rows: Seq<i64>, row: int) -> nat
    decreases rows.len(),
{
    if rows.len() == 0 {
        0
    } else {
        occurrences(rows.drop_last(), row) + (if rows.last() == row { 1nat } else { 0nat })
    }
}

/// Dense row-access counts used to construct or audit sparse update masks.
#[derive(Clone, Debug, PartialEq, Eq)]
pub struct MemoryAccessCounts {
    pub memory_slots: usize,
    pub total_events: u64,
    pub unique_rows: usize,
    pub row_counts: Vec<u64>,
}

impl MemoryAccessCounts {
    /// One count per slot, and the totals agree with the counts.
    pub open spec fn is_consistent(&self) -> bool {
        &&& self.row_counts@.len() == self.memory_slots
        &&& self.total_events == total_of(self.row_counts@)
        &&& self.unique_rows == nonzero_of(self.row_counts@)
    }

    /// All-zero counts for `memory_slots` rows.
    pub fn empty(memory_slots: usize) -> (c: Self)
        ensures
            c.memory_slots == memory_slots,
            c.row_counts@ == Seq::new(memory_slots as nat, |i: int| 0u64),
            c.total_events == 0,
            c.unique_rows == 0,
            c.is_consistent(),
    {
        let mut row_counts: Vec<u64> = Vec::new();
        let mut i: usize = 0;
        while i < memory_slots
            invariant
                i <= memory_slots,
                row_counts@ == Seq::new(i as nat, |j: int| 0u64),
                total_of(row_counts@) == 0,
                nonzero_of(row_counts@) == 0,
            decreases memory_slots - i,
        {
            let ghost prev = row_counts@;
            row_counts.push(0);
            assert(row_counts@.drop_last() =~= prev);
            assert(row_counts@ =~= Seq::new((i + 1) as nat, |j: int| 0u64));
            i = i + 1;
        }
        MemoryAccessCounts { memory_slots, total_events: 0, unique_rows: 0, row_counts }
    }

    /// Counts of the given accessed rows. Refuses, as an invalid operation,
    /// any row that is negative or not below `memory_slots`.
    pub fn from_rows(memory_slots: usize, rows: &[i64]) -> (res: Result<Self>)
        ensures
            res is Ok <==> forall|i: int| 0 <= i < rows@.len() ==> 0 <= #[trigger] rows@[i] < memory_slots,
            res matches Ok(c) ==> c.memory_slots == memory_slots && c.is_consistent()
                && c.total_events == rows@.len() && (forall|r: int|
                0 <= r < memory_slots ==> #[trigger] c.row_counts@[r] == occurrences(rows@, r)),
            res matches Err(e) ==> e is InvalidOperation && exists|i: int|
                {
                    &&& 0 <= i < rows@.len()
                    &&& !(0 <= #[trigger] rows@[i] < memory_slots)
                    &&& forall|j: int| 0 <= j < i ==> 0 <= #[trigger] rows@[j] < memory_slots
                    &&& e.message_spec() == "memory access row "@ + signed_decimal(rows@[i] as int)
                        + " is out of range for memory_slots "@ + decimal(memory_slots as nat)
                },
    {
        let mut counts = Self::empty(memory_slots);
        let mut row_counts = counts.row_counts;
        let mut total: u64 = 0;
        let mut i: usize = 0;
        assert(rows@.take(0) =~= Seq::<i64>::empty());
        while i < rows.len()
            invariant
                i <= rows.len(),
                row_counts@.len() == memory_slots,
                total == i,
                forall|r: int|
                    0 <= r < memory_slots ==> #[trigger] row_counts@[r] == occurrences(
                        rows@.take(i as int),
                        r,
                    ),
                forall|j: int| 0 <= j < i ==> 0 <= #[trigger] rows@[j] < memory_slots,
            decreases rows.len() - i,
        {
            let row = rows[i];
            if row < 0 || row as u64 >= memory_slots as u64 {
                let mut message = String::new();
                push_i64(&mut message, "memory access row ", row);
                push_number(&mut message, " is out of range for memory_slots ", memory_slots as u64);
                assert(!(0 <= rows@[i as int] < memory_slots));
                return Err(TensorError::InvalidOperation(message));
            }
            proof {
                assert(rows@.take(i + 1).drop_last() =~= rows@.take(i as int));
                lemma_occurrences_bound(rows@.take(i as int), row as int);
            }
            let r = row as usize;
            let current = row_counts[r];
            assert(current <= i);
            assert(i < rows.len());
            let ghost before = row_counts@;
            row_counts.set(r, current + 1);
            proof {
                let next = rows@.take(i + 1);
                assert(next.drop_last() =~= rows@.take(i as int));
                assert(next.last() == row);
                assert forall|q: int| 0 <= q < memory_slots implies #[trigger] row_counts@[q]
                    == occurrences(next, q) by {
                    assert(occurrences(next, q) == occurrences(rows@.take(i as int), q) + (if row
                        == q { 1nat } else { 0nat }));
                    if q != r as int {
                        assert(row_counts@[q] == before[q]);
                    }
                }
            }
            total = total + 1;
            i = i + 1;
        }
        assert(rows@.take(rows.len() as int) =~= rows@);
        let unique = count_nonzero(&row_counts);
        proof {
            lemma_total_is_occurrences(rows@, row_counts@, memory_slots as int);
        }
        Ok(MemoryAccessCounts { memory_slots, total_events: total, unique_rows: unique, row_counts })
    }

    /// Counts taken as given; refused with a shape error unless there is one
    /// count per slot.
    pub fn from_row_counts(memory_slots: usize, row_counts: Vec<u64>) -> (res: Result<Self>)
        requires
            total_of(row_counts@) <= u64::MAX,
        ensures
            res is Ok <==> row_counts@.len() == memory_slots,
            res matches Ok(c) ==> c.memory_slots == memory_slots && c.row_counts@ == row_counts@
                && c.is_consistent(),
            res matches Err(e) ==> e is Shape,
    {
        let total = sum_counts(&row_counts);
        let unique = count_nonzero(&row_counts);
        let counts = MemoryAccessCounts {
            memory_slots,
            total_events: total,
            unique_rows: unique,
            row_counts,
        };
        match counts.validate() {
            Ok(()) => Ok(counts),
            Err(e) => Err(e),
        }
    }

    /// Accepts consistent counts. A count vector of the wrong length is a
    /// shape error; totals that disagree with the counts are invalid
    /// operations. Each message reports the two values that disagree.
    pub fn validate(&self) -> (res: Result<()>)
        requires
            total_of(self.row_counts@) <= u64::MAX,
        ensures
            res is Ok <==> self.is_consistent(),
            res matches Err(e) ==> (e is Shape <==> self.row_counts@.len() != self.memory_slots),
            res matches Err(e) ==> (e is Shape || e is InvalidOperation),
            res matches Err(e) ==> e.message_spec() == counts_mismatch_message(*self),
    {
        if self.row_counts.len() != self.memory_slots {
            let mut message = String::from_str("MemoryAccessCounts row_counts length");
            push_number(&mut message, " ", self.row_counts.len() as u64);
            push_number(&mut message, " does not match memory_slots ", self.memory_slots as u64);
            return Err(TensorError::Shape(message));
        }
        let total = sum_counts(&self.row_counts);
        if self.total_events != total {
            let mut message = String::from_str("MemoryAccessCounts total_events");
            push_number(&mut message, " ", self.total_events);
            push_number(&mut message, " does not match row_counts sum ", total);
            return Err(TensorError::InvalidOperation(message));
        }
        let unique = count_nonzero(&self.row_counts);
        if self.unique_rows != unique {
            let mut message = String::from_str("MemoryAccessCounts unique_rows");
            push_number(&mut message, " ", self.unique_rows as u64);
            push_number(&mut message, " does not match non-zero row count ", unique as u64);
            return Err(TensorError::InvalidOperation(message));
        }
        Ok(())
    }

    /// Adds `other`'s counts into `self` row by row and recomputes the
    /// totals. Both sides must be consistent and cover the same number of
    /// slots (otherwise nothing changes and the first failing check's error
    /// is returned). Rows are added in order; when a row's sum overflows
    /// `u64` the merge stops there with an invalid-operation error, leaving
    /// the rows before it added and the rest, and the totals, as they were.
    pub fn merge_in(&mut self, other: &MemoryAccessCounts) -> (res: Result<()>)
        requires
            total_of(old(self).row_counts@) <= u64::MAX,
            total_of(other.row_counts@) <= u64::MAX,
            old(self).row_counts@.len() == other.row_counts@.len() && rows_add_fit(
                old(self).row_counts@,
                other.row_counts@,
            ) ==> total_of(old(self).row_counts@) + total_of(other.row_counts@) <= u64::MAX,
        ensures
            res is Ok <==> old(self).is_consistent() && other.is_consistent()
                && old(self).memory_slots == other.memory_slots && rows_add_fit(
                old(self).row_counts@,
                other.row_counts@,
            ),
            res is Err && !(old(self).is_consistent() && other.is_consistent() && old(self).memory_slots
                == other.memory_slots) ==> *final(self) == *old(self),
            res is Err && old(self).is_consistent() && other.is_consistent() && old(self).memory_slots
                == other.memory_slots ==> exists|k: int|
                #[trigger] first_row_overflow(old(self).row_counts@, other.row_counts@, k)
                    && final(self).row_counts@ == merged_before(old(self).row_counts@, other.row_counts@, k)
                    && final(self).memory_slots == old(self).memory_slots && final(self).total_events
                    == old(self).total_events && final(self).unique_rows == old(self).unique_rows,
            res matches Err(e) ==> (e is Shape || e is InvalidOperation),
            res matches Err(e) ==> e.message_spec() == merge_refusal_message(*old(self), *other),
            res is Ok ==> final(self).memory_slots == old(self).memory_slots
                && final(self).is_consistent() && final(self).row_counts@.len()
                == old(self).row_counts@.len() && (forall|r: int|
                0 <= r < old(self).row_counts@.len() ==> #[trigger] final(self).row_counts@[r]
                == old(self).row_counts@[r] + other.row_counts@[r]),
    {
        proof {
            lemma_total_of_nonneg(other.row_counts@);
        }
        match self.validate() {
            Ok(()) => {},
            Err(e) => {
                return Err(e);
            },
        }
        match other.validate() {
            Ok(()) => {},
            Err(e) => {
                return Err(e);
            },
        }
        if self.memory_slots != other.memory_slots {
            let mut message = String::from_str("MemoryAccessCounts merge memory_slots mismatch:");
            push_number(&mut message, " ", self.memory_slots as u64);
            push_number(&mut message, " vs ", other.memory_slots as u64);
            return Err(TensorError::Shape(message));
        }
        let ghost before = self.row_counts@;
        let ghost start = *self;
        let n = self.row_counts.len();
        let mut i: usize = 0;
        assert(merged_before(before, other.row_counts@, 0) =~= before);
        while i < n
            invariant
                i <= n,
                n == before.len(),
                n == other.row_counts@.len(),
                start == *old(self),
                before == old(self).row_counts@,
                start.is_consistent(),
                other.is_consistent(),
                start.memory_slots == other.memory_slots,
                self.memory_slots == start.memory_slots,
                self.total_events == start.total_events,
                self.unique_rows == start.unique_rows,
                self.row_counts@ == merged_before(before, other.row_counts@, i as int),
                forall|r: int| 0 <= r < i ==> #[trigger] before[r] + other.row_counts@[r] <= u64::MAX,
            decreases n - i,
        {
            assert(self.row_counts@[i as int] == before[i as int]);
            match self.row_counts[i].checked_add(other.row_counts[i]) {
                Some(sum) => {
                    self.row_counts.set(i, sum);
                    assert(self.row_counts@ =~= merged_before(before, other.row_counts@, i + 1));
                },
                None => {
                    proof {
                        assert(!rows_add_fit(before, other.row_counts@));
                        assert(first_row_overflow(before, other.row_counts@, i as int));
                    }
                    return Err(invalid_operation("MemoryAccessCounts merge overflow"));
                },
            }
            i = i + 1;
        }
        let ghost merged = self.row_counts@;
        proof {
            assert(rows_add_fit(before, other.row_counts@));
            assert forall|r: int| 0 <= r < before.len() implies #[trigger] merged[r] == before[r]
                + other.row_counts@[r] by {}
            lemma_total_of_pointwise_sum(before, other.row_counts@, merged);
        }
        let total = sum_counts(&self.row_counts);
        let unique = count_nonzero(&self.row_counts);
        self.total_events = total;
        self.unique_rows = unique;
        Ok(())
    }
}

/// Row `k` is the first whose sum overflows `u64`.
pub open spec fn first_row_overflow(a: Seq<u64>, b: Seq<u64>, k: int) -> bool {
    &&& 0 <= k < a.len() && k < b.len()
    &&& a[k] + b[k] > u64::MAX
    &&& forall|r: int| 0 <= r < k ==> #[trigger] a[r] + b[r] <= u64::MAX
}

/// `a` with the rows before `k` increased by the same rows of `b`.
pub open spec fn merged_before(a: Seq<u64>, b: Seq<u64>, k: int) -> Seq<u64> {
    Seq::new(a.len(), |r: int| if r < k { (a[r] + b[r]) as u64 } else { a[r] })
}

/// Every row of `a` plus the same row of `b` fits in `u64`.
pub open spec fn rows_add_fit(a: Seq<u64>, b: Seq<u64>) -> bool {
    forall|r: int| 0 <= r < a.len() && r < b.len() ==> #[trigger] a[r] + b[r] <= u64::MAX
}

/// The message of the first check that consistent counts fail.
pub open spec fn counts_mismatch_message(c: MemoryAccessCounts) -> Seq<char> {
    if c.row_counts@.len() != c.memory_slots {
        "MemoryAccessCounts row_counts length"@ + " "@ + decimal(c.row_counts@.len()) + " does not match memory_slots "@
            + decimal(c.memory_slots as nat)
    } else if c.total_events != total_of(c.row_counts@) {
        "MemoryAccessCounts total_events"@ + " "@ + decimal(c.total_events as nat)
            + " does not match row_counts sum "@ + decimal(total_of(c.row_counts@))
    } else {
        "MemoryAccessCounts unique_rows"@ + " "@ + decimal(c.unique_rows as nat)
            + " does not match non-zero row count "@ + decimal(nonzero_of(c.row_counts@))
    }
}

/// The message with which `merge_in` refuses `other` into `counts`.
pub open spec fn merge_refusal_message(counts: MemoryAccessCounts, other: MemoryAccessCounts) -> Seq<
    char,
> {
    if !counts.is_consistent() {
        counts_mismatch_message(counts)
    } else if !other.is_consistent() {
        counts_mismatch_message(other)
    } else if counts.memory_slots != other.memory_slots {
        "MemoryAccessCounts merge memory_slots mismatch:"@ + " "@ + decimal(counts.memory_slots as nat)
            + " vs "@ + decimal(other.memory_slots as nat)
    } else {
        "MemoryAccessCounts merge overflow"@
    }
}

proof fn lemma_total_of_nonneg(counts: Seq<u64>)
    ensures
        total_of(counts) >= 0,
{
}

/// Counts whose totals add up within `u64` add up within it row by row.
proof fn lemma_rows_add_fit_from_totals(a: Seq<u64>, b: Seq<u64>)
    requires
        total_of(a) + total_of(b) <= u64::MAX,
    ensures
        rows_add_fit(a, b),
{
    assert forall|r: int| 0 <= r < a.len() && r < b.len() implies #[trigger] a[r] + b[r] <= u64::MAX by {
        lemma_count_at_most_total(a, r);
        lemma_count_at_most_total(b, r);
    }
}

proof fn lemma_count_at_most_total(counts: Seq<u64>, i: int)
    requires
        0 <= i < counts.len(),
    ensures
        counts[i] <= total_of(counts),
    decreases counts.len(),
{
    if i < counts.len() - 1 {
        lemma_count_at_most_total(counts.drop_last(), i);
    }
}

proof fn lemma_total_of_pointwise_sum(a: Seq<u64>, b: Seq<u64>, c: Seq<u64>)
    requires
        a.len() == b.len(),
        c.len() == a.len(),
        forall|r: int| 0 <= r < a.len() ==> #[trigger] c[r] == a[r] + b[r],
    ensures
        total_of(c) == total_of(a) + total_of(b),
    decreases a.len(),
{
    if a.len() > 0 {
        lemma_total_of_pointwise_sum(a.drop_last(), b.drop_last(), c.drop_last());
    }
}

proof fn lemma_occurrences_bound(rows: Seq<i64>, row: int)
    ensures
        occurrences(rows, row) <= rows.len(),
    decreases rows.len(),
{
    if rows.len() > 0 {
        lemma_occurrences_bound(rows.drop_last(), row);
    }
}

/// With every row in range, the occurrence counts add up to the number of rows.
proof fn lemma_total_is_occurrences(rows: Seq<i64>, counts: Seq<u64>, slots: int)
    requires
        counts.len() == slots,
        forall|r: int| 0 <= r < slots ==> #[trigger] counts[r] == occurrences(rows, r),
        forall|j: int| 0 <= j < rows.len() ==> 0 <= #[trigger] rows[j] < slots,
    ensures
        total_of(counts) == rows.len(),
    decreases rows.len(),
{
    if rows.len() == 0 {
        lemma_total_zero(counts);
    } else {
        let prev = rows.drop_last();
        let last = rows.last() as int;
        let prev_counts = counts.update(last, (counts[last] - 1) as u64);
        assert forall|r: int| 0 <= r < slots implies #[trigger] prev_counts[r] == occurrences(prev, r) by {
        }
        assert forall|j: int| 0 <= j < prev.len() implies 0 <= #[trigger] prev[j] < slots by {
            assert(prev[j] == rows[j]);
        }
        lemma_total_is_occurrences(prev, prev_counts, slots);
        lemma_total_of_update(prev_counts, last, counts[last]);
        assert(prev_counts.update(last, counts[last]) =~= counts);
    }
}

proof fn lemma_total_zero(counts: Seq<u64>)
    requires
        forall|r: int| 0 <= r < counts.len() ==> #[trigger] counts[r] == 0,
    ensures
        total_of(counts) == 0,
    decreases counts.len(),
{
    if counts.len() > 0 {
        lemma_total_zero(counts.drop_last());
    }
}

proof fn lemma_total_of_update(counts: Seq<u64>, i: int, v: u64)
    requires
        0 <= i < counts.len(),
    ensures
        total_of(counts.update(i, v)) == total_of(counts) - counts[i] + v,
    decreases counts.len(),
{
    let updated = counts.update(i, v);
    if i == counts.len() - 1 {
        assert(updated.drop_last() =~= counts.drop_last());
    } else {
        lemma_total_of_update(counts.drop_last(), i, v);
        assert(updated.drop_last() =~= counts.drop_last().update(i, v));
    }
}

/// Sum of the counts; the sum must fit in `u64`.
pub fn sum_counts(counts: &Vec<u64>) -> (total: u64)
    requires
        total_of(counts@) <= u64::MAX,
    ensures
        total == total_of(counts@),
{
    let mut total: u64 = 0;
    let mut i: usize = 0;
    assert(counts@.take(0) =~= Seq::<u64>::empty());
    while i < counts.len()
        invariant
            i <= counts.len(),
            total == total_of(counts@.take(i as int)),
            total_of(counts@) <= u64::MAX,
        decreases counts.len() - i,
    {
        proof {
            assert(counts@.take(i + 1).drop_last() =~= counts@.take(i as int));
            lemma_total_prefix(counts@, i + 1);
        }
        total = total + counts[i];
        i = i + 1;
    }
    assert(counts@.take(counts.len() as int) =~= counts@);
    total
}

proof fn lemma_total_prefix(counts: Seq<u64>, k: int)
    requires
        0 <= k <= counts.len(),
    ensures
        total_of(counts.take(k)) <= total_of(counts),
    decreases counts.len() - k,
{
    if k < counts.len() {
        lemma_total_prefix(counts, k + 1);
        assert(counts.take(k + 1).drop_last() =~= counts.take(k));
        assert(total_of(counts.take(k + 1)) == total_of(counts.take(k)) + (counts.take(k + 1).last() as nat));
    } else {
        assert(counts.take(k) =~= counts);
    }
}

/// Number of non-zero counts.
pub fn count_nonzero(counts: &Vec<u64>) -> (n: usize)
    ensures
        n == nonzero_of(counts@),
{
    let mut n: usize = 0;
    let mut i: usize = 0;
    assert(counts@.take(0) =~= Seq::<u64>::empty());
    while i < counts.len()
        invariant
            i <= counts.len(),
            n == nonzero_of(counts@.take(i as int)),
            n <= i,
        decreases counts.len() - i,
    {
        assert(counts@.take(i + 1).drop_last() =~= counts@.take(i as int));
        if counts[i] > 0 {
            n = n + 1;
        }
        i = i + 1;
    }
    assert(counts@.take(counts.len() as int) =~= counts@);
    n
}

// ---------------------------------------------------------------------------
// Product-key projection of row masks
// ---------------------------------------------------------------------------

/// How a value-row mask is projected onto product-key half tables.
#[derive(Clone, Copy, Debug, PartialEq, Eq, Structural)]
pub enum SmftProductKeyMaskPolicy {
    ConservativeAllSlots,
}

/// Trainable half-key rows implied by a trainable value-row mask: a left
/// (right) half row is trainable only if every slot it takes part in is.
#[derive(Clone, Debug, PartialEq, Eq)]
pub struct SmftProductKeyMaskProjection {
    pub policy: SmftProductKeyMaskPolicy,
    pub side: usize,
    pub value_trainable_rows: usize,
    pub left_trainable_rows: Vec<usize>,
    pub right_trainable_rows: Vec<usize>,
    pub half_key_rows_are_conservative: bool,
}

/// Rows lie below `limit` and none repeats.
pub open spec fn distinct_rows_below(rows: Seq<usize>, limit: nat) -> bool {
    &&& forall|i: int| 0 <= i < rows.len() ==> #[trigger] rows[i] < limit
    &&& forall|i: int, j: int| 0 <= i < j < rows.len() ==> #[trigger] rows[i] != #[trigger] rows[j]
}

/// The slot where half row `a` meets half row `q` of the other table:
/// left row `a` holds slots `a * side + q`, right row `a` holds `q * side + a`.
pub open spec fn slot_of(left: bool, a: nat, q: nat, side: nat) -> usize {
    (if left {
        a * side + q
    } else {
        q * side + a
    }) as usize
}

/// Every slot of half row `a` (of the left table when `left`) is trainable.
pub open spec fn half_row_full(rows: Seq<usize>, side: nat, left: bool, a: nat) -> bool {
    forall|q: nat| q < side ==> #[trigger] rows.contains(slot_of(left, a, q, side))
}

/// `out` lists, in increasing order, exactly the half rows `k < side` whose
/// slots are all trainable.
pub open spec fn lists_full_rows(out: Seq<usize>, rows: Seq<usize>, side: nat, left: bool) -> bool {
    &&& forall|i: int, j: int| 0 <= i < j < out.len() ==> #[trigger] out[i] < #[trigger] out[j]
    &&& forall|i: int|
        0 <= i < out.len() ==> #[trigger] out[i] < side && half_row_full(rows, side, left, out[i] as nat)
    &&& forall|k: nat| k < side && half_row_full(rows, side, left, k) ==> #[trigger] out.contains(k as usize)
}

fn slot_mask(memory_slots: usize, trainable_rows: &[usize]) -> (mask: Vec<bool>)
    requires
        forall|i: int| 0 <= i < trainable_rows@.len() ==> #[trigger] trainable_rows@[i] < memory_slots,
    ensures
        mask@.len() == memory_slots,
        forall|k: int| 0 <= k < memory_slots ==> (#[trigger] mask@[k] <==> trainable_rows@.contains(k as usize)),
{
    let mut mask: Vec<bool> = Vec::new();
    let mut k: usize = 0;
    while k < memory_slots
        invariant
            k <= memory_slots,
            mask@.len() == k,
            forall|j: int| 0 <= j < k ==> !mask@[j],
        decreases memory_slots - k,
    {
        mask.push(false);
        k = k + 1;
    }
    let mut i: usize = 0;
    while i < trainable_rows.len()
        invariant
            i <= trainable_rows.len(),
            mask@.len() == memory_slots,
            forall|j: int| 0 <= j < trainable_rows@.len() ==> #[trigger] trainable_rows@[j] < memory_slots,
            forall|v: int|
                0 <= v < memory_slots ==> (#[trigger] mask@[v] <==> exists|a: int|
                    0 <= a < i && trainable_rows@[a] == v),
        decreases trainable_rows.len() - i,
    {
        let row = trainable_rows[i];
        mask.set(row, true);
        i = i + 1;
    }
    assert forall|v: int| 0 <= v < memory_slots implies (#[trigger] mask@[v] <==> trainable_rows@.contains(
        v as usize,
    )) by {
        if trainable_rows@.contains(v as usize) {
            let a = choose|a: int| 0 <= a < trainable_rows@.len() && trainable_rows@[a] == v as usize;
            assert(trainable_rows@[a] == v);
        }
    }
    mask
}

/// The frozen-row count that goes with `trainable` distinct rows out of
/// `memory_slots`.
pub open spec fn expected_frozen_rows(memory_slots: usize, trainable: nat) -> nat {
    if memory_slots >= trainable {
        (memory_slots - trainable) as nat
    } else {
        0
    }
}

/// Row `i` is out of range or repeats an earlier row.
pub open spec fn bad_row(rows: Seq<usize>, slots: usize, i: int) -> bool {
    rows[i] >= slots || exists|a: int| 0 <= a < i && rows[a] == rows[i]
}

/// Row `i` is the first bad row.
pub open spec fn first_bad_row(rows: Seq<usize>, slots: usize, i: int) -> bool {
    0 <= i < rows.len() && bad_row(rows, slots, i) && forall|j: int| 0 <= j < i ==> !#[trigger] bad_row(rows, slots, j)
}

/// The refusal of bad row `i`.
pub open spec fn bad_row_message(rows: Seq<usize>, slots: usize, i: int) -> Seq<char> {
    if rows[i] >= slots {
        "SMFT trainable row"@ + " "@ + decimal(rows[i] as nat) + " is out of range for memory_slots "@
            + decimal(slots as nat)
    } else {
        "SMFT trainable row"@ + " "@ + decimal(rows[i] as nat) + " appears more than once"@
    }
}

/// The refusal of a wrong frozen-row count.
pub open spec fn frozen_rows_message(frozen: usize, slots: usize, trainable: nat) -> Seq<char> {
    "SMFT frozen_rows"@ + " "@ + decimal(frozen as nat) + " does not match memory_slots "@ + decimal(
        slots as nat,
    ) + " minus trainable rows "@ + decimal(trainable)
}

/// Checks a sparse-update row mask: every trainable row lies below
/// `memory_slots`, none appears twice, and `frozen_rows` counts the rest.
/// Every refusal is an invalid operation naming the first bad row, or
/// else the three counts that disagree.
pub fn validate_trainable_rows(memory_slots: usize, trainable_rows: &[usize], frozen_rows: usize) -> (res:
    Result<()>)
    ensures
        res is Ok <==> distinct_rows_below(trainable_rows@, memory_slots as nat) && frozen_rows
            == expected_frozen_rows(memory_slots, trainable_rows@.len()),
        res matches Err(e) ==> e is InvalidOperation,
        res matches Err(e) ==> (exists|i: int|
            #[trigger] first_bad_row(trainable_rows@, memory_slots, i) && e.message_spec()
                == bad_row_message(trainable_rows@, memory_slots, i)) || (distinct_rows_below(
            trainable_rows@,
            memory_slots as nat,
        ) && e.message_spec() == frozen_rows_message(frozen_rows, memory_slots, trainable_rows@.len())),
{
    let seen = {
        let mut seen: Vec<bool> = Vec::new();
        let mut k: usize = 0;
        while k < memory_slots
            invariant
                k <= memory_slots,
                seen@.len() == k,
                forall|j: int| 0 <= j < k ==> !seen@[j],
            decreases memory_slots - k,
        {
            seen.push(false);
            k = k + 1;
        }
        seen
    };
    let mut seen = seen;
    let mut i: usize = 0;
    while i < trainable_rows.len()
        invariant
            i <= trainable_rows.len(),
            seen@.len() == memory_slots,
            forall|a: int| 0 <= a < i ==> #[trigger] trainable_rows@[a] < memory_slots,
            forall|a: int, b: int|
                0 <= a < b < i ==> #[trigger] trainable_rows@[a] != #[trigger] trainable_rows@[b],
            forall|v: int|
                0 <= v < memory_slots ==> (#[trigger] seen@[v] <==> exists|a: int|
                    0 <= a < i && trainable_rows@[a] == v),
        decreases trainable_rows.len() - i,
    {
        let row = trainable_rows[i];
        proof {
            assert forall|j: int| 0 <= j < i implies !#[trigger] bad_row(trainable_rows@, memory_slots, j) by {
                assert(trainable_rows@[j] < memory_slots);
                if exists|a: int| 0 <= a < j && trainable_rows@[a] == trainable_rows@[j] {
                    let a = choose|a: int| 0 <= a < j && trainable_rows@[a] == trainable_rows@[j];
                    assert(trainable_rows@[a] != trainable_rows@[j]);
                }
            }
        }
        if row >= memory_slots {
            let mut message = String::from_str("SMFT trainable row");
            push_number(&mut message, " ", row as u64);
            push_number(&mut message, " is out of range for memory_slots ", memory_slots as u64);
            assert(first_bad_row(trainable_rows@, memory_slots, i as int));
            return Err(TensorError::InvalidOperation(message));
        }
        if seen[row] {
            let ghost a = choose|a: int| 0 <= a < i && trainable_rows@[a] == row;
            assert(trainable_rows@[a] == trainable_rows@[i as int]);
            let mut message = String::from_str("SMFT trainable row");
            push_number(&mut message, " ", row as u64);
            message.append(" appears more than once");
            assert(first_bad_row(trainable_rows@, memory_slots, i as int));
            return Err(TensorError::InvalidOperation(message));
        }
        seen.set(row, true);
        i = i + 1;
    }
    let expected_frozen = if memory_slots >= trainable_rows.len() {
        memory_slots - trainable_rows.len()
    } else {
        0
    };
    if frozen_rows != expected_frozen {
        let mut message = String::from_str("SMFT frozen_rows");
        push_number(&mut message, " ", frozen_rows as u64);
        push_number(&mut message, " does not match memory_slots ", memory_slots as u64);
        push_number(&mut message, " minus trainable rows ", trainable_rows.len() as u64);
        return Err(TensorError::InvalidOperation(message));
    }
    Ok(())
}

/// Checks a trainable-row list against `memory_slots` (rows in range and
/// distinct, `frozen_rows` the complement's size) and projects it onto the
/// square product-key grid. Every refusal is an invalid operation.
pub fn product_key_projection(memory_slots: usize, trainable_rows: &[usize], frozen_rows: usize) -> (res:
    Result<SmftProductKeyMaskProjection>)
    ensures
        res is Ok <==> distinct_rows_below(trainable_rows@, memory_slots as nat) && frozen_rows == (
        if memory_slots >= trainable_rows@.len() {
            memory_slots - trainable_rows@.len()
        } else {
            0
        }) && memory_slots > 0 && is_perfect_square(memory_slots as nat),
        res matches Err(e) ==> e is InvalidOperation,
        distinct_rows_below(trainable_rows@, memory_slots as nat) && frozen_rows == (if memory_slots
            >= trainable_rows@.len() {
            memory_slots - trainable_rows@.len()
        } else {
            0
        }) && memory_slots > 0 && !is_perfect_square(memory_slots as nat) ==> (res matches Err(e)
            && e.message_spec() == "product-key SMFT mask projection requires square memory_slots, got "@
            + decimal(memory_slots as nat)),
        res matches Ok(p) ==> {
            &&& p.policy == SmftProductKeyMaskPolicy::ConservativeAllSlots
            &&& p.side * p.side == memory_slots
            &&& p.value_trainable_rows == trainable_rows@.len()
            &&& p.half_key_rows_are_conservative
            &&& lists_full_rows(p.left_trainable_rows@, trainable_rows@, p.side as nat, true)
            &&& lists_full_rows(p.right_trainable_rows@, trainable_rows@, p.side as nat, false)
        },
{
    match validate_trainable_rows(memory_slots, trainable_rows, frozen_rows) {
        Ok(()) => {},
        Err(e) => {
            return Err(e);
        },
    }
    let side = match product_key_side(memory_slots) {
        Ok(side) => side,
        Err(e) => {
            return Err(e);
        },
    };
    proof {
        lemma_floor_sqrt_square(memory_slots as nat, side as nat);
    }
    if side * side != memory_slots {
        let mut message = String::new();
        push_number(&mut message, "product-key SMFT mask projection requires square memory_slots, got ", memory_slots as u64);
        return Err(TensorError::InvalidOperation(message));
    }
    let mask = slot_mask(memory_slots, trainable_rows);
    let left = full_half_rows(&mask, side, trainable_rows, true);
    let right = full_half_rows(&mask, side, trainable_rows, false);
    Ok(
        SmftProductKeyMaskProjection {
            policy: SmftProductKeyMaskPolicy::ConservativeAllSlots,
            side,
            value_trainable_rows: trainable_rows.len(),
            left_trainable_rows: left,
            right_trainable_rows: right,
            half_key_rows_are_conservative: true,
        },
    )
}

/// Half rows (left rows when `left`, right rows otherwise) whose slots are
/// all trainable, in increasing order.
fn full_half_rows(mask: &Vec<bool>, side: usize, rows: &[usize], left: bool) -> (out: Vec<usize>)
    requires
        side * side == mask@.len(),
        forall|k: int| 0 <= k < mask@.len() ==> (#[trigger] mask@[k] <==> rows@.contains(k as usize)),
    ensures
        lists_full_rows(out@, rows@, side as nat, left),
{
    let total = mask.len();
    let mut out: Vec<usize> = Vec::new();
    let mut a: usize = 0;
    while a < side
        invariant
            a <= side,
            side * side == mask@.len(),
            mask@.len() == total,
            forall|k: int| 0 <= k < mask@.len() ==> (#[trigger] mask@[k] <==> rows@.contains(k as usize)),
            forall|i: int, j: int| 0 <= i < j < out@.len() ==> #[trigger] out@[i] < #[trigger] out@[j],
            forall|i: int|
                0 <= i < out@.len() ==> #[trigger] out@[i] < a && half_row_full(
                    rows@,
                    side as nat,
                    left,
                    out@[i] as nat,
                ),
            forall|k: nat|
                k < a && half_row_full(rows@, side as nat, left, k) ==> #[trigger] out@.contains(
                    k as usize,
                ),
        decreases side - a,
    {
        let mut full = true;
        let mut b: usize = 0;
        while b < side
            invariant
                a < side,
                b <= side,
                side * side == mask@.len(),
                mask@.len() == total,
                forall|k: int| 0 <= k < mask@.len() ==> (#[trigger] mask@[k] <==> rows@.contains(k as usize)),
                full <==> forall|q: nat| q < b ==> #[trigger] rows@.contains(
                    slot_of(left, a as nat, q, side as nat),
                ),
            decreases side - b,
        {
            proof {
                lemma_grid_index(a as int, b as int, side as int);
                lemma_grid_index(b as int, a as int, side as int);
            }
            let k = if left {
                a * side + b
            } else {
                b * side + a
            };
            assert(k == slot_of(left, a as nat, b as nat, side as nat));
            if !mask[k] {
                full = false;
            }
            b = b + 1;
        }
        let ghost prev = out@;
        if full {
            out.push(a);
            proof {
                assert forall|k: nat|
                    k < a + 1 && half_row_full(rows@, side as nat, left, k) implies #[trigger] out@.contains(
                    k as usize,
                ) by {
                    if k < a {
                        assert(prev.contains(k as usize));
                        let idx = choose|idx: int| 0 <= idx < prev.len() && prev[idx] == k as usize;
                        assert(out@[idx] == k as usize);
                    } else {
                        assert(out@[out@.len() - 1] == a);
                    }
                }
            }
        }
        a = a + 1;
    }
    out
}

proof fn lemma_grid_index(row: int, col: int, side: int)
    requires
        0 <= row < side,
        0 <= col < side,
    ensures
        0 <= row * side + col < side * side,
{
    assert(0 <= row * side + col < side * side) by (nonlinear_arith)
        requires
            0 <= row < side,
            0 <= col < side,
    ;
}

impl SmftProductKeyMaskProjection {
    /// Membership mask of the trainable left half rows, `side` entries long.
    pub fn left_tensor(&self) -> (res: Result<Vec<bool>>)
        ensures
            res is Ok <==> forall|i: int|
                0 <= i < self.left_trainable_rows@.len() ==> #[trigger] self.left_trainable_rows@[i]
                    < self.side,
            res matches Ok(mask) ==> mask@.len() == self.side && forall|k: int|
                0 <= k < self.side ==> (#[trigger] mask@[k] <==> self.left_trainable_rows@.contains(
                    k as usize,
                )),
            res matches Err(e) ==> e is InvalidOperation,
    {
        row_mask(self.side, &self.left_trainable_rows)
    }

    /// Membership mask of the trainable right half rows, `side` entries long.
    pub fn right_tensor(&self) -> (res: Result<Vec<bool>>)
        ensures
            res is Ok <==> forall|i: int|
                0 <= i < self.right_trainable_rows@.len() ==> #[trigger] self.right_trainable_rows@[i]
                    < self.side,
            res matches Ok(mask) ==> mask@.len() == self.side && forall|k: int|
                0 <= k < self.side ==> (#[trigger] mask@[k] <==> self.right_trainable_rows@.contains(
                    k as usize,
                )),
            res matches Err(e) ==> e is InvalidOperation,
    {
        row_mask(self.side, &self.right_trainable_rows)
    }
}

/// Membership mask of `rows` over `0..len`; refuses rows not below `len`.
pub fn row_mask(len: usize, rows: &Vec<usize>) -> (res: Result<Vec<bool>>)
    ensures
        res is Ok <==> forall|i: int| 0 <= i < rows@.len() ==> #[trigger] rows@[i] < len,
        res matches Ok(mask) ==> mask@.len() == len && forall|k: int|
            0 <= k < len ==> (#[trigger] mask@[k] <==> rows@.contains(k as usize)),
        res matches Err(e) ==> e is InvalidOperation && exists|i: int|
            {
                &&& 0 <= i < rows@.len()
                &&& #[trigger] rows@[i] >= len
                &&& forall|j: int| 0 <= j < i ==> #[trigger] rows@[j] < len
                &&& e.message_spec() == "product-key SMFT projected row "@ + decimal(rows@[i] as nat)
                    + " is out of range for side "@ + decimal(len as nat)
            },
{
    let mut i: usize = 0;
    while i < rows.len()
        invariant
            i <= rows.len(),
            forall|j: int| 0 <= j < i ==> #[trigger] rows@[j] < len,
        decreases rows.len() - i,
    {
        if rows[i] >= len {
            let mut message = String::new();
            push_number(&mut message, "product-key SMFT projected row ", rows[i] as u64);
            push_number(&mut message, " is out of range for side ", len as u64);
            return Err(TensorError::InvalidOperation(message));
        }
        i = i + 1;
    }
    Ok(slot_mask(len, rows.as_slice()))
}

// ---------------------------------------------------------------------------
// Selection reports and access counts over captured layers
// ---------------------------------------------------------------------------

/// Per-layer summary of rows selected by the most recent forward pass.
#[derive(Clone, Debug, PartialEq, Eq)]
pub struct MemoryLayerSelectionReport {
    pub block_index: usize,
    pub selected_row_events: usize,
    pub unique_selected_rows: usize,
    pub selected_rows_device: String,
}

/// Aggregate memory-selection evidence.
#[derive(Clone, Debug, PartialEq, Eq)]
pub struct MemorySelectionReport {
    pub shared_memory: bool,
    pub memory_lookup: MemoryLookupKind,
    pub configured_memory_layers: usize,
    pub captured_memory_layers: usize,
    pub memory_top_k: usize,
    pub selected_row_events: usize,
    pub unique_selected_rows: usize,
    pub selected_rows_device: Option<String>,
    pub layers: Vec<MemoryLayerSelectionReport>,
}

/// The rows one memory layer selected in the most recent forward pass,
/// with the device that holds them.
#[derive(Clone, Debug)]
pub struct CapturedSelection {
    pub block_index: usize,
    pub rows: Vec<i64>,
    pub device: Device,
}

/// Number of distinct values in `s`.
pub open spec fn distinct_count(s: Seq<i64>) -> nat
    decreases s.len(),
{
    if s.len() == 0 {
        0
    } else {
        distinct_count(s.drop_last()) + (if s.drop_last().contains(s.last()) { 0nat } else { 1nat })
    }
}

/// Every captured row, layer after layer.
pub open spec fn all_captured_rows(captured: Seq<CapturedSelection>) -> Seq<i64>
    decreases captured.len(),
{
    if captured.len() == 0 {
        Seq::empty()
    } else {
        all_captured_rows(captured.drop_last()) + captured.last().rows@
    }
}

/// Number of distinct values among `values`.
pub fn unique_i64_count(values: &[i64]) -> (n: usize)
    ensures
        n == distinct_count(values@),
{
    let mut seen: Vec<i64> = Vec::new();
    let mut i: usize = 0;
    while i < values.len()
        invariant
            i <= values@.len(),
            forall|v: i64| seen@.contains(v) <==> values@.take(i as int).contains(v),
            seen@.len() == distinct_count(values@.take(i as int)),
            seen@.len() <= i,
        decreases values@.len() - i,
    {
        let x = values[i];
        let ghost prefix = values@.take(i as int);
        assert(values@.take(i + 1).drop_last() =~= prefix);
        assert(values@.take(i + 1).last() == x);
        let mut j: usize = 0;
        let mut present = false;
        while j < seen.len()
            invariant
                j <= seen@.len(),
                present <==> exists|k: int| 0 <= k < j && seen@[k] == x,
            decreases seen@.len() - j,
        {
            if seen[j] == x {
                present = true;
            }
            j = j + 1;
        }
        assert(present <==> seen@.contains(x));
        let ghost before = seen@;
        if !present {
            seen.push(x);
        }
        let ghost next = values@.take(i + 1);
        assert forall|v: i64| seen@.contains(v) <==> next.contains(v) by {
            if next.contains(v) {
                let k = choose|k: int| 0 <= k < next.len() && #[trigger] next[k] == v;
                if k < i {
                    assert(prefix[k] == v);
                    assert(prefix.contains(v));
                    assert(before.contains(v));
                    let m = choose|m: int| 0 <= m < before.len() && #[trigger] before[m] == v;
                    assert(seen@[m] == v);
                } else {
                    if !present {
                        assert(seen@[seen@.len() - 1] == x);
                    }
                }
            }
            if seen@.contains(v) {
                let m = choose|m: int| 0 <= m < seen@.len() && #[trigger] seen@[m] == v;
                if m < before.len() {
                    assert(before[m] == v);
                    assert(before.contains(v));
                    let k = choose|k: int| 0 <= k < prefix.len() && #[trigger] prefix[k] == v;
                    assert(next[k] == v);
                } else {
                    assert(v == x);
                    assert(next[i as int] == x);
                }
            }
        }
        i = i + 1;
    }
    assert(values@.take(values@.len() as int) =~= values@);
    seen.len()
}

/// Summary of the captured selections of one forward pass: per-layer event
/// and distinct-row counts in capture order, the same counts over all
/// layers, and the device of the first captured layer.
pub fn memory_selection_report(config: &MemoryTransformerConfig, captured: &[CapturedSelection]) -> (r:
    MemorySelectionReport)
    ensures
        r.shared_memory == config.shared_memory,
        r.memory_lookup == config.memory_lookup,
        r.configured_memory_layers == config.memory_layer_indices@.len(),
        r.captured_memory_layers == captured@.len(),
        r.memory_top_k == config.memory_top_k,
        r.selected_row_events == all_captured_rows(captured@).len(),
        r.unique_selected_rows == distinct_count(all_captured_rows(captured@)),
        captured@.len() == 0 ==> r.selected_rows_device is None,
        captured@.len() > 0 ==> (r.selected_rows_device matches Some(d) && d@ == device_label_spec(
            captured@[0].device,
        )),
        r.layers@.len() == captured@.len(),
        forall|i: int|
            0 <= i < captured@.len() ==> {
                let layer = #[trigger] r.layers@[i];
                &&& layer.block_index == captured@[i].block_index
                &&& layer.selected_row_events == captured@[i].rows@.len()
                &&& layer.unique_selected_rows == distinct_count(captured@[i].rows@)
                &&& layer.selected_rows_device@ == device_label_spec(captured@[i].device)
            },
{
    let mut layers: Vec<MemoryLayerSelectionReport> = Vec::new();
    let mut all_rows: Vec<i64> = Vec::new();
    let mut first_device: Option<String> = None;
    let mut i: usize = 0;
    while i < captured.len()
        invariant
            i <= captured@.len(),
            all_rows@ == all_captured_rows(captured@.take(i as int)),
            layers@.len() == i,
            i == 0 ==> first_device is None,
            i > 0 ==> (first_device matches Some(d) && d@ == device_label_spec(captured@[0].device)),
            forall|k: int|
                0 <= k < i ==> {
                    let layer = #[trigger] layers@[k];
                    &&& layer.block_index == captured@[k].block_index
                    &&& layer.selected_row_events == captured@[k].rows@.len()
                    &&& layer.unique_selected_rows == distinct_count(captured@[k].rows@)
                    &&& layer.selected_rows_device@ == device_label_spec(captured@[k].device)
                },
        decreases captured@.len() - i,
    {
        let layer = &captured[i];
        proof {
            assert(captured@.take(i + 1).drop_last() =~= captured@.take(i as int));
        }
        let device = device_label(layer.device);
        if i == 0 {
            first_device = Some(device_label(layer.device));
        }
        let unique = unique_i64_count(layer.rows.as_slice());
        let mut j: usize = 0;
        let ghost start = all_rows@;
        while j < layer.rows.len()
            invariant
                j <= layer.rows@.len(),
                all_rows@ == start + layer.rows@.take(j as int),
            decreases layer.rows@.len() - j,
        {
            all_rows.push(layer.rows[j]);
            assert(layer.rows@.take(j + 1) =~= layer.rows@.take(j as int).push(layer.rows@[j as int]));
            j = j + 1;
        }
        assert(layer.rows@.take(layer.rows@.len() as int) =~= layer.rows@);
        layers.push(
            MemoryLayerSelectionReport {
                block_index: layer.block_index,
                selected_row_events: layer.rows.len(),
                unique_selected_rows: unique,
                selected_rows_device: device,
            },
        );
        i = i + 1;
    }
    assert(captured@.take(captured@.len() as int) =~= captured@);
    let events = all_rows.len();
    let unique = unique_i64_count(all_rows.as_slice());
    MemorySelectionReport {
        shared_memory: config.shared_memory,
        memory_lookup: config.memory_lookup,
        configured_memory_layers: config.memory_layer_indices.len(),
        captured_memory_layers: layers.len(),
        memory_top_k: config.memory_top_k,
        selected_row_events: events,
        unique_selected_rows: unique,
        selected_rows_device: first_device,
        layers,
    }
}

proof fn lemma_all_captured_rows_prefix(captured: Seq<CapturedSelection>, k: int)
    requires
        0 <= k <= captured.len(),
    ensures
        all_captured_rows(captured.take(k)).len() <= all_captured_rows(captured).len(),
    decreases captured.len() - k,
{
    if k < captured.len() {
        lemma_all_captured_rows_prefix(captured, k + 1);
        assert(captured.take(k + 1).drop_last() =~= captured.take(k));
    } else {
        assert(captured.take(k) =~= captured);
    }
}

proof fn lemma_occurrences_concat(a: Seq<i64>, b: Seq<i64>, row: int)
    ensures
        occurrences(a + b, row) == occurrences(a, row) + occurrences(b, row),
    decreases b.len(),
{
    if b.len() > 0 {
        assert((a + b).drop_last() =~= a + b.drop_last());
        lemma_occurrences_concat(a, b.drop_last(), row);
    } else {
        assert(a + b =~= a);
    }
}

/// Row-access counts over every captured layer: each slot counts how often
/// any layer selected it. A row outside `0..memory_slots` is refused as an
/// invalid operation.
pub fn memory_access_counts(memory_slots: usize, captured: &[CapturedSelection]) -> (res: Result<
    MemoryAccessCounts,
>)
    requires
        all_captured_rows(captured@).len() <= u64::MAX,
    ensures
        res is Ok <==> forall|i: int|
            0 <= i < all_captured_rows(captured@).len() ==> 0 <= #[trigger] all_captured_rows(captured@)[i]
                < memory_slots,
        res matches Err(e) ==> e is InvalidOperation,
        res matches Ok(c) ==> c.memory_slots == memory_slots && c.is_consistent() && forall|r: int|
            0 <= r < memory_slots ==> #[trigger] c.row_counts@[r] == occurrences(
                all_captured_rows(captured@),
                r,
            ),
{
    let mut counts = MemoryAccessCounts::empty(memory_slots);
    let mut i: usize = 0;
    proof {
        assert forall|r: int| 0 <= r < memory_slots implies #[trigger] counts.row_counts@[r] == occurrences(
            all_captured_rows(captured@.take(0)),
            r,
        ) by {
            assert(all_captured_rows(captured@.take(0)) =~= Seq::<i64>::empty());
        }
    }
    while i < captured.len()
        invariant
            i <= captured@.len(),
            all_captured_rows(captured@).len() <= u64::MAX,
            counts.memory_slots == memory_slots,
            counts.is_consistent(),
            counts.total_events == all_captured_rows(captured@.take(i as int)).len(),
            forall|k: int|
                0 <= k < all_captured_rows(captured@.take(i as int)).len() ==> 0
                    <= #[trigger] all_captured_rows(captured@.take(i as int))[k] < memory_slots,
            forall|r: int|
                0 <= r < memory_slots ==> #[trigger] counts.row_counts@[r] == occurrences(
                    all_captured_rows(captured@.take(i as int)),
                    r,
                ),
        decreases captured@.len() - i,
    {
        let ghost prev = all_captured_rows(captured@.take(i as int));
        proof {
            assert(captured@.take(i + 1).drop_last() =~= captured@.take(i as int));
            assert(captured@.take(i + 1).last() == captured@[i as int]);
            lemma_all_captured_rows_prefix(captured@, i + 1);
        }
        let layer_counts = match MemoryAccessCounts::from_rows(memory_slots, captured[i].rows.as_slice()) {
            Ok(c) => c,
            Err(e) => {
                proof {
                    let bad = choose|k: int|
                        0 <= k < captured@[i as int].rows@.len() && !(0 <= #[trigger] captured@[i as int].rows@[k]
                            < memory_slots);
                    let all = all_captured_rows(captured@);
                    let next = all_captured_rows(captured@.take(i + 1));
                    assert(next[prev.len() + bad] == captured@[i as int].rows@[bad]);
                    lemma_captured_rows_prefix_agrees(captured@, i + 1, prev.len() + bad);
                }
                return Err(e);
            },
        };
        proof {
            lemma_total_of_nonneg(counts.row_counts@);
            lemma_rows_add_fit_from_totals(counts.row_counts@, layer_counts.row_counts@);
        }
        let ghost old_counts = counts.row_counts@;
        match counts.merge_in(&layer_counts) {
            Ok(()) => {},
            Err(e) => {
                return Err(e);
            },
        }
        proof {
            let next = all_captured_rows(captured@.take(i + 1));
            assert(next == prev + captured@[i as int].rows@);
            lemma_total_of_pointwise_sum(old_counts, layer_counts.row_counts@, counts.row_counts@);
            assert forall|r: int| 0 <= r < memory_slots implies #[trigger] counts.row_counts@[r] == occurrences(
                next,
                r,
            ) by {
                lemma_occurrences_concat(prev, captured@[i as int].rows@, r);
            }
            assert forall|k: int| 0 <= k < next.len() implies 0 <= #[trigger] next[k] < memory_slots by {
                if k >= prev.len() {
                    assert(next[k] == captured@[i as int].rows@[k - prev.len()]);
                } else {
                    assert(next[k] == prev[k]);
                }
            }
        }
        i = i + 1;
    }
    assert(captured@.take(captured@.len() as int) =~= captured@);
    Ok(counts)
}

proof fn lemma_captured_rows_prefix_agrees(captured: Seq<CapturedSelection>, k: int, idx: int)
    requires
        0 <= k <= captured.len(),
        0 <= idx < all_captured_rows(captured.take(k)).len(),
    ensures
        idx < all_captured_rows(captured).len(),
        all_captured_rows(captured)[idx] == all_captured_rows(captured.take(k))[idx],
    decreases captured.len() - k,
{
    if k < captured.len() {
        assert(captured.take(k + 1).drop_last() =~= captured.take(k));
        let a = all_captured_rows(captured.take(k));
        let b = all_captured_rows(captured.take(k + 1));
        assert(b == a + captured.take(k + 1).last().rows@);
        assert(b[idx] == a[idx]);
        lemma_captured_rows_prefix_agrees(captured, k + 1, idx);
    } else {
        assert(captured.take(k) =~= captured);
    }
}

// ---------------------------------------------------------------------------
// Memory-table parameters by name
// ---------------------------------------------------------------------------

/// Name of a memory-table parameter of decoder block `block`.
pub open spec fn block_table_name(block: nat, table: Seq<char>) -> Seq<char> {
    "block."@ + decimal(block) + ".feed_forward.memory.memory."@ + table
}

/// Table parameters of one memory layer: the two half-key tables and the
/// values for product-key lookup, the keys and the values otherwise.
pub open spec fn layer_table_names(block: nat, lookup: MemoryLookupKind) -> Seq<Seq<char>> {
    if lookup is ProductKey {
        seq![
            block_table_name(block, "product_key_left"@),
            block_table_name(block, "product_key_right"@),
            block_table_name(block, "value"@),
        ]
    } else {
        seq![block_table_name(block, "key"@), block_table_name(block, "value"@)]
    }
}

pub open spec fn layers_table_names(blocks: Seq<usize>, lookup: MemoryLookupKind) -> Seq<Seq<char>>
    decreases blocks.len(),
{
    if blocks.len() == 0 {
        Seq::empty()
    } else {
        layers_table_names(blocks.drop_last(), lookup) + layer_table_names(blocks.last() as nat, lookup)
    }
}

/// Names of the memory-table parameters, in optimizer order: none without
/// memory layers, the shared tables once when memory is shared, and
/// otherwise each memory layer's tables in layer order.
pub open spec fn memory_table_names(config: MemoryTransformerConfig) -> Seq<Seq<char>> {
    if config.memory_layer_indices@.len() == 0 {
        Seq::empty()
    } else if config.shared_memory {
        if config.memory_lookup is ProductKey {
            seq![
                "shared_memory.product_key_left"@,
                "shared_memory.product_key_right"@,
                "shared_memory.value"@,
            ]
        } else {
            seq!["shared_memory.key"@, "shared_memory.value"@]
        }
    } else {
        layers_table_names(config.memory_layer_indices@, config.memory_lookup)
    }
}

pub open spec fn string_views(v: Seq<String>) -> Seq<Seq<char>> {
    v.map_values(|s: String| s@)
}

fn push_name(names: &mut Vec<String>, name: String)
    ensures
        string_views(final(names)@) == string_views(old(names)@).push(name@),
{
    names.push(name);
    assert(string_views(names@) =~= string_views(old(names)@).push(name@));
}

pub(crate) fn block_table_parameter_name(block: usize, table: &str) -> (s: String)
    ensures
        s@ == block_table_name(block as nat, table@),
{
    let digits = decimal_u64(block as u64);
    let head = String::from_str("block.").concat(digits.as_str());
    let mid = head.concat(".feed_forward.memory.memory.");
    mid.concat(table)
}

/// The memory-table parameter names of `config`, in optimizer order.
pub fn memory_table_parameter_names(config: &MemoryTransformerConfig) -> (names: Vec<String>)
    ensures
        string_views(names@) == memory_table_names(*config),
{
    let mut names: Vec<String> = Vec::new();
    assert(string_views(names@) =~= Seq::<Seq<char>>::empty());
    if config.memory_layer_indices.len() == 0 {
        return names;
    }
    let product_key = match config.memory_lookup {
        MemoryLookupKind::ProductKey => true,
        MemoryLookupKind::Exact => false,
    };
    if config.shared_memory {
        if product_key {
            push_name(&mut names, String::from_str("shared_memory.product_key_left"));
            push_name(&mut names, String::from_str("shared_memory.product_key_right"));
        } else {
            push_name(&mut names, String::from_str("shared_memory.key"));
        }
        push_name(&mut names, String::from_str("shared_memory.value"));
        return names;
    }
    let mut i: usize = 0;
    while i < config.memory_layer_indices.len()
        invariant
            i <= config.memory_layer_indices@.len(),
            product_key == (config.memory_lookup is ProductKey),
            string_views(names@) == layers_table_names(
                config.memory_layer_indices@.take(i as int),
                config.memory_lookup,
            ),
        decreases config.memory_layer_indices@.len() - i,
    {
        let block = config.memory_layer_indices[i];
        let ghost before = string_views(names@);
        if product_key {
            push_name(&mut names, block_table_parameter_name(block, "product_key_left"));
            push_name(&mut names, block_table_parameter_name(block, "product_key_right"));
        } else {
            push_name(&mut names, block_table_parameter_name(block, "key"));
        }
        push_name(&mut names, block_table_parameter_name(block, "value"));
        proof {
            let blocks = config.memory_layer_indices@.take(i + 1);
            assert(blocks.drop_last() =~= config.memory_layer_indices@.take(i as int));
            assert(blocks.last() == block);
            assert(string_views(names@) =~= before + layer_table_names(block as nat, config.memory_lookup));
        }
        i = i + 1;
    }
    assert(config.memory_layer_indices@.take(config.memory_layer_indices@.len() as int)
        =~= config.memory_layer_indices@);
    names
}

/// `index` is the first position of `name` in `named`.
pub open spec fn first_position(named: Seq<Seq<char>>, name: Seq<char>, index: int) -> bool {
    &&& 0 <= index < named.len()
    &&& named[index] == name
    &&& forall|j: int| 0 <= j < index ==> named[j] != name
}

/// Position of the parameter called `name`; an invalid operation when no
/// parameter has that name.
pub fn parameter_index_by_name(named: &[String], name: &str) -> (res: Result<usize>)
    ensures
        res is Ok <==> exists|j: int| 0 <= j < named@.len() && (#[trigger] named@[j])@ == name@,
        res matches Ok(i) ==> first_position(string_views(named@), name@, i as int),
        res matches Err(e) ==> e is InvalidOperation && e.message_spec()
            == "memory sparse AdamW could not find parameter named "@ + name@,
{
    let mut i: usize = 0;
    while i < named.len()
        invariant
            i <= named@.len(),
            forall|j: int| 0 <= j < i ==> (#[trigger] named@[j])@ != name@,
        decreases named@.len() - i,
    {
        if crate::text::str_eq(named[i].as_str(), name) {
            return Ok(i);
        }
        i = i + 1;
    }
    let mut message = String::from_str("memory sparse AdamW could not find parameter named ");
    message.append(name);
    Err(TensorError::InvalidOperation(message))
}

/// Positions, among the model's parameter names `named`, of the memory-table
/// parameters of `config`, in optimizer order. An invalid operation when one
/// of them is missing.
pub fn memory_table_parameter_indices(config: &MemoryTransformerConfig, named: &[String]) -> (res: Result<
    Vec<usize>,
>)
    ensures
        res is Ok <==> forall|k: int|
            0 <= k < memory_table_names(*config).len() ==> string_views(named@).contains(
                #[trigger] memory_table_names(*config)[k],
            ),
        res matches Ok(indices) ==> indices@.len() == memory_table_names(*config).len() && forall|k: int|
            0 <= k < indices@.len() ==> first_position(
                string_views(named@),
                memory_table_names(*config)[k],
                #[trigger] indices@[k] as int,
            ),
        res matches Err(e) ==> e is InvalidOperation,
{
    let wanted = memory_table_parameter_names(config);
    let ghost wanted_views = memory_table_names(*config);
    let mut indices: Vec<usize> = Vec::new();
    let mut k: usize = 0;
    while k < wanted.len()
        invariant
            k <= wanted@.len(),
            string_views(wanted@) == wanted_views,
            wanted_views == memory_table_names(*config),
            indices@.len() == k,
            forall|m: int| 0 <= m < k ==> string_views(named@).contains(#[trigger] wanted_views[m]),
            forall|m: int|
                0 <= m < k ==> first_position(string_views(named@), wanted_views[m], #[trigger] indices@[m] as int),
        decreases wanted@.len() - k,
    {
        assert(wanted_views[k as int] == wanted@[k as int]@);
        match parameter_index_by_name(named, wanted[k].as_str()) {
            Ok(i) => {
                assert(string_views(named@)[i as int] == named@[i as int]@);
                indices.push(i);
            },
            Err(e) => {
                proof {
                    if string_views(named@).contains(wanted_views[k as int]) {
                        let j = choose|j: int|
                            0 <= j < string_views(named@).len() && #[trigger] string_views(named@)[j]
                                == wanted_views[k as int];
                        assert(named@[j]@ == wanted@[k as int]@);
                    }
                }
                return Err(e);
            },
        }
        k = k + 1;
    }
    Ok(indices)
}

// ---------------------------------------------------------------------------
// Most-accessed rows
// ---------------------------------------------------------------------------

/// One row's access count.
#[derive(Clone, Copy, Debug, PartialEq, Eq, Structural)]
pub struct RowCount {
    pub row: usize,
    pub count: u64,
}

/// `a` ranks before `b`: more accesses first, the lower row first on ties.
pub open spec fn ranks_before(a: RowCount, b: RowCount) -> bool {
    a.count > b.count || (a.count == b.count && a.row < b.row)
}

pub open spec fn row_entry(counts: Seq<u64>, r: int) -> RowCount {
    RowCount { row: r as usize, count: counts[r] }
}

/// `top` lists accessed rows (non-zero counts, taken from `counts`) in
/// ranking order.
pub open spec fn ranked_rows(top: Seq<RowCount>, counts: Seq<u64>) -> bool {
    &&& forall|i: int|
        0 <= i < top.len() ==> (#[trigger] top[i]).row < counts.len() && top[i].count == counts[top[i].row as int]
            && top[i].count > 0
    &&& forall|i: int, j: int| 0 <= i < j < top.len() ==> ranks_before(#[trigger] top[i], #[trigger] top[j])
}

pub open spec fn lists_row(top: Seq<RowCount>, r: int) -> bool {
    exists|i: int| 0 <= i < top.len() && (#[trigger] top[i]).row == r
}

/// `top` is the head of the ranking of all accessed rows: it is ranked, and
/// every accessed row it leaves out ranks after all of its entries.
pub open spec fn ranking_head(top: Seq<RowCount>, counts: Seq<u64>) -> bool {
    &&& ranked_rows(top, counts)
    &&& forall|r: int|
        0 <= r < counts.len() && counts[r] > 0 && !lists_row(top, r) ==> forall|i: int|
            0 <= i < top.len() ==> ranks_before(#[trigger] top[i], row_entry(counts, r))
}

impl MemoryAccessCounts {
    /// The `limit` most accessed rows with their counts, most accessed first
    /// and lower rows first among ties; rows never accessed are left out.
    pub fn top_row_counts(&self, limit: usize) -> (top: Vec<RowCount>)
        ensures
            top@.len() <= limit,
            ranking_head(top@, self.row_counts@),
            top@.len() < limit ==> forall|r: int|
                0 <= r < self.row_counts@.len() && self.row_counts@[r] > 0 ==> lists_row(top@, r),
    {
        let counts = &self.row_counts;
        let mut top: Vec<RowCount> = Vec::new();
        let mut done = false;
        while top.len() < limit && !done
            invariant
                top@.len() <= limit,
                ranked_rows(top@, counts@),
                forall|r: int|
                    0 <= r < counts@.len() && counts@[r] > 0 ==> (lists_row(top@, r) <==> (top@.len() > 0 && (
                    row_entry(counts@, r) == top@.last() || ranks_before(
                        row_entry(counts@, r),
                        top@.last(),
                    )))),
                done ==> forall|r: int| 0 <= r < counts@.len() && counts@[r] > 0 ==> lists_row(top@, r),
            decreases limit - top@.len(), (if done { 0int } else { 1int }),
        {
            let has_last = top.len() > 0;
            let last = if has_last {
                top[top.len() - 1]
            } else {
                RowCount { row: 0, count: 0 }
            };
            let mut best: Option<RowCount> = None;
            let mut r: usize = 0;
            while r < counts.len()
                invariant
                    r <= counts@.len(),
                    has_last == (top@.len() > 0),
                    has_last ==> last == top@.last(),
                    best matches Some(b) ==> (b.row < r && b == row_entry(counts@, b.row as int) && b.count > 0
                        && (has_last ==> ranks_before(last, b))),
                    forall|q: int|
                        0 <= q < r && counts@[q] > 0 && (!has_last || ranks_before(last, row_entry(counts@, q)))
                            ==> (best matches Some(b) && (b == row_entry(counts@, q) || ranks_before(
                            b,
                            row_entry(counts@, q),
                        ))),
                decreases counts@.len() - r,
            {
                let c = counts[r];
                let entry = RowCount { row: r, count: c };
                let candidate = c > 0 && (!has_last || last.count > c || (last.count == c && last.row < r));
                if candidate {
                    let better = match best {
                        None => true,
                        Some(b) => c > b.count || (c == b.count && r < b.row),
                    };
                    if better {
                        best = Some(entry);
                    }
                }
                r = r + 1;
            }
            match best {
                None => {
                    proof {
                        assert forall|q: int| 0 <= q < counts@.len() && counts@[q] > 0 implies lists_row(top@, q) by {
                            if has_last {
                                if !lists_row(top@, q) {
                                    assert(!(row_entry(counts@, q) == top@.last()));
                                    assert(!ranks_before(row_entry(counts@, q), top@.last()));
                                    assert(ranks_before(last, row_entry(counts@, q)));
                                }
                            }
                        }
                    }
                    done = true;
                },
                Some(b) => {
                    let ghost before = top@;
                    top.push(b);
                    proof {
                        assert(top@.last() == b);
                        assert forall|i: int, j: int| 0 <= i < j < top@.len() implies ranks_before(
                            #[trigger] top@[i],
                            #[trigger] top@[j],
                        ) by {
                            if j == top@.len() - 1 && i < j {
                                assert(top@[i] == before[i]);
                                if i < before.len() - 1 {
                                    assert(ranks_before(before[i], before.last()));
                                }
                            }
                        }
                        assert forall|r2: int| 0 <= r2 < counts@.len() && counts@[r2] > 0 implies (lists_row(top@, r2)
                            <==> (top@.len() > 0 && (row_entry(counts@, r2) == top@.last() || ranks_before(
                            row_entry(counts@, r2),
                            top@.last(),
                        )))) by {
                            if lists_row(top@, r2) {
                                let i = choose|i: int| 0 <= i < top@.len() && (#[trigger] top@[i]).row == r2;
                                if i < before.len() {
                                    assert(before[i].row == r2);
                                    assert(lists_row(before, r2));
                                    assert(top@[i] == row_entry(counts@, r2));
                                    if i < before.len() - 1 {
                                        assert(ranks_before(before[i], before.last()));
                                    }
                                } else {
                                    assert(top@[i] == b);
                                }
                            } else {
                                assert(!lists_row(before, r2)) by {
                                    if lists_row(before, r2) {
                                        let i = choose|i: int| 0 <= i < before.len() && (#[trigger] before[i]).row == r2;
                                        assert(top@[i] == before[i]);
                                    }
                                }
                                assert(r2 != b.row) by {
                                    if r2 == b.row {
                                        assert(top@[top@.len() - 1].row == r2);
                                    }
                                }
                            }
                        }
                    }
                },
            }
        }
        proof {
            assert forall|r: int|
                0 <= r < counts@.len() && counts@[r] > 0 && !lists_row(top@, r) implies forall|i: int|
                0 <= i < top@.len() ==> ranks_before(#[trigger] top@[i], row_entry(counts@, r)) by {
                assert forall|i: int| 0 <= i < top@.len() implies ranks_before(
                    #[trigger] top@[i],
                    row_entry(counts@, r),
                ) by {
                    if i < top@.len() - 1 {
                        assert(ranks_before(top@[i], top@.last()));
                    }
                }
            }
        }
        top
    }
}

// ---------------------------------------------------------------------------
// Inputs and kernel selection
// ---------------------------------------------------------------------------

/// Token input must be a `[batch, time]` array with `time` at most
/// `block_size`; either failure is a shape error.
pub fn validate_token_input_shape(shape: &[usize], block_size: usize) -> (res: Result<()>)
    ensures
        res is Ok <==> shape@.len() == 2 && shape@[1] <= block_size,
        res matches Err(e) ==> e is Shape,
        shape@.len() != 2 ==> (res matches Err(e) && e.message_spec()
            == "MemoryTransformerLm expects token input [batch, time], got "@ + dims_text(shape@)),
        shape@.len() == 2 && shape@[1] > block_size ==> (res matches Err(e) && e.message_spec() == "input time "@
            + decimal(shape@[1] as nat) + " exceeds block_size "@ + decimal(block_size as nat)),
{
    if shape.len() != 2 {
        let mut message = String::from_str("MemoryTransformerLm expects token input [batch, time], got ");
        push_dims(&mut message, shape);
        return Err(TensorError::Shape(message));
    }
    if shape[1] > block_size {
        let mut message = String::new();
        push_number(&mut message, "input time ", shape[1] as u64);
        push_number(&mut message, " exceeds block_size ", block_size as u64);
        return Err(TensorError::Shape(message));
    }
    Ok(())
}

/// Name of the memory lookup kernel for a lookup kind on a device.
pub open spec fn lookup_kernel_path_spec(device: Device, lookup: MemoryLookupKind) -> Seq<char> {
    match (device, lookup) {
        (Device::Cpu, MemoryLookupKind::Exact) => "cpu_exact_topk_memory_lookup"@,
        (Device::Cpu, MemoryLookupKind::ProductKey) => "cpu_product_key_candidate_topk_memory_lookup"@,
        (Device::Cuda(_), MemoryLookupKind::Exact) => "cuda_exact_topk_memory_lookup"@,
        (Device::Cuda(_), MemoryLookupKind::ProductKey) => "cuda_product_key_candidate_topk_memory_lookup"@,
    }
}

pub fn lookup_kernel_path(device: Device, lookup: MemoryLookupKind) -> (s: &'static str)
    ensures
        s@ == lookup_kernel_path_spec(device, lookup),
{
    match (device, lookup) {
        (Device::Cpu, MemoryLookupKind::Exact) => "cpu_exact_topk_memory_lookup",
        (Device::Cpu, MemoryLookupKind::ProductKey) => "cpu_product_key_candidate_topk_memory_lookup",
        (Device::Cuda(_), MemoryLookupKind::Exact) => "cuda_exact_topk_memory_lookup",
        (Device::Cuda(_), MemoryLookupKind::ProductKey) => "cuda_product_key_candidate_topk_memory_lookup",
    }
}

} // verus!
