use vstd::prelude::*;

use crate::error::{dims_text, push_dims, push_number, Result, TensorError};
use crate::shape::{
    broadcast_flat_index, broadcast_shapes, broadcast_source_index, broadcast_spec, checked_numel,
    contiguous_strides_spec, dot, for_each_index, has_zero_dim, index_in_bounds,
    lemma_broadcast_commutative, lemma_broadcast_source_in_bounds, lemma_dot_injective,
    lemma_in_bounds_dot_below_product, prefix_products_fit, product, shapes_broadcastable, first_incompatible,
    broadcast_refusal_message, overflow_message,
};
use crate::text::decimal;
use crate::error::shape_error;
use crate::storage::{DType, Device, device_debug, dtype_debug, push_device_debug, push_dtype_debug};

verus! {

/// Operators with a registered schema.
#[derive(Clone, Copy, Debug, PartialEq, Eq, Hash, Structural)]
pub enum Operator {
    Add,
    Sub,
    Mul,
    Div,
    Matmul,
    Relu,
    Gelu,
    SoftmaxDim,
    CrossEntropyForLogits,
    Sum,
    Mean,
    SumDim,
    MeanDim,
    LayerNormLastDim,
    Embedding,
    MaskedFill,
    ArgmaxLastDim,
    CausalSelfAttention,
}

#[derive(Clone, Copy, Debug, PartialEq, Eq, Hash, Structural)]
pub enum OperatorKind {
    Binary,
    Unary,
    MatrixMultiply,
    Loss,
    ReductionAll,
    ReductionDim,
    Normalization,
    Indexing,
    Masking,
    Selection,
    Attention,
}

/// How an operator's output dtype follows from its inputs.
#[derive(Clone, Copy, Debug, PartialEq, Eq, Hash, Structural)]
pub enum DTypeRule {
    ArithmeticPromotion,
    FloatingPromotion,
    PreserveFloating,
    SumReduction,
    MeanReduction,
    EmbeddingLookup,
    MaskPreserve,
    ArgmaxIndex,
    SameFloatingInputs,
}

#[derive(Clone, Copy, Debug, PartialEq, Eq, Hash, Structural)]
pub enum AliasPolicy {
    FreshOutput,
}

#[derive(Clone, Copy, Debug, PartialEq, Eq, Hash, Structural)]
pub enum AutogradPolicy {
    FloatingInputs,
    NonDifferentiable,
}

/// The registered schema of one operator.
#[derive(Clone, Copy, Debug, PartialEq, Eq, Hash)]
pub struct OperatorInfo {
    pub operator: Operator,
    pub name: &'static str,
    pub kind: OperatorKind,
    pub dtype_rule: DTypeRule,
    pub alias_policy: AliasPolicy,
    pub autograd_policy: AutogradPolicy,
}

impl OperatorInfo {
    /// Whether the operator records an autograd node for an output of
    /// `output_dtype` when some input requires a gradient.
    pub open spec fn records_autograd(&self, output_dtype: DType, input_requires_grad: bool) -> bool {
        match self.autograd_policy {
            AutogradPolicy::FloatingInputs => input_requires_grad && output_dtype.is_floating_spec(),
            AutogradPolicy::NonDifferentiable => false,
        }
    }

    pub fn returns_fresh_output(&self) -> (b: bool)
        ensures
            b == (self.alias_policy == AliasPolicy::FreshOutput),
    {
        match self.alias_policy {
            AliasPolicy::FreshOutput => true,
        }
    }

    pub fn should_record_autograd(&self, output_dtype: DType, input_requires_grad: bool) -> (b: bool)
        ensures
            b == self.records_autograd(output_dtype, input_requires_grad),
    {
        match self.autograd_policy {
            AutogradPolicy::FloatingInputs => input_requires_grad && output_dtype.is_floating(),
            AutogradPolicy::NonDifferentiable => false,
        }
    }
}

/// Every operator, in catalog order.
pub open spec fn all_operators() -> Seq<Operator> {
    seq![
        Operator::Add,
        Operator::Sub,
        Operator::Mul,
        Operator::Div,
        Operator::Matmul,
        Operator::Relu,
        Operator::Gelu,
        Operator::SoftmaxDim,
        Operator::CrossEntropyForLogits,
        Operator::Sum,
        Operator::Mean,
        Operator::SumDim,
        Operator::MeanDim,
        Operator::LayerNormLastDim,
        Operator::Embedding,
        Operator::MaskedFill,
        Operator::ArgmaxLastDim,
        Operator::CausalSelfAttention,
    ]
}

/// Position of an operator in the catalog.
pub open spec fn catalog_index(op: Operator) -> int {
    match op {
        Operator::Add => 0,
        Operator::Sub => 1,
        Operator::Mul => 2,
        Operator::Div => 3,
        Operator::Matmul => 4,
        Operator::Relu => 5,
        Operator::Gelu => 6,
        Operator::SoftmaxDim => 7,
        Operator::CrossEntropyForLogits => 8,
        Operator::Sum => 9,
        Operator::Mean => 10,
        Operator::SumDim => 11,
        Operator::MeanDim => 12,
        Operator::LayerNormLastDim => 13,
        Operator::Embedding => 14,
        Operator::MaskedFill => 15,
        Operator::ArgmaxLastDim => 16,
        Operator::CausalSelfAttention => 17,
    }
}

pub open spec fn name_of(op: Operator) -> &'static str {
    match op {
        Operator::Add => "aten.add",
        Operator::Sub => "aten.sub",
        Operator::Mul => "aten.mul",
        Operator::Div => "aten.div",
        Operator::Matmul => "aten.matmul",
        Operator::Relu => "aten.relu",
        Operator::Gelu => "aten.gelu",
        Operator::SoftmaxDim => "aten.softmax.dim",
        Operator::CrossEntropyForLogits => "heirloom.cross_entropy_for_logits",
        Operator::Sum => "aten.sum",
        Operator::Mean => "aten.mean",
        Operator::SumDim => "aten.sum.dim",
        Operator::MeanDim => "aten.mean.dim",
        Operator::LayerNormLastDim => "aten.layer_norm.last_dim",
        Operator::Embedding => "aten.embedding",
        Operator::MaskedFill => "aten.masked_fill",
        Operator::ArgmaxLastDim => "aten.argmax.last_dim",
        Operator::CausalSelfAttention => "heirloom.causal_self_attention",
    }
}

pub open spec fn kind_of(op: Operator) -> OperatorKind {
    match op {
        Operator::Add | Operator::Sub | Operator::Mul | Operator::Div => OperatorKind::Binary,
        Operator::Matmul => OperatorKind::MatrixMultiply,
        Operator::Relu | Operator::Gelu | Operator::SoftmaxDim => OperatorKind::Unary,
        Operator::CrossEntropyForLogits => OperatorKind::Loss,
        Operator::Sum | Operator::Mean => OperatorKind::ReductionAll,
        Operator::SumDim | Operator::MeanDim => OperatorKind::ReductionDim,
        Operator::LayerNormLastDim => OperatorKind::Normalization,
        Operator::Embedding => OperatorKind::Indexing,
        Operator::MaskedFill => OperatorKind::Masking,
        Operator::ArgmaxLastDim => OperatorKind::Selection,
        Operator::CausalSelfAttention => OperatorKind::Attention,
    }
}

pub open spec fn dtype_rule_of(op: Operator) -> DTypeRule {
    match op {
        Operator::Add | Operator::Sub | Operator::Mul | Operator::Div => DTypeRule::ArithmeticPromotion,
        Operator::Matmul => DTypeRule::FloatingPromotion,
        Operator::Relu
        | Operator::Gelu
        | Operator::SoftmaxDim
        | Operator::CrossEntropyForLogits => DTypeRule::PreserveFloating,
        Operator::Sum | Operator::SumDim => DTypeRule::SumReduction,
        Operator::Mean | Operator::MeanDim => DTypeRule::MeanReduction,
        Operator::LayerNormLastDim | Operator::CausalSelfAttention => DTypeRule::SameFloatingInputs,
        Operator::Embedding => DTypeRule::EmbeddingLookup,
        Operator::MaskedFill => DTypeRule::MaskPreserve,
        Operator::ArgmaxLastDim => DTypeRule::ArgmaxIndex,
    }
}

pub open spec fn autograd_policy_of(op: Operator) -> AutogradPolicy {
    if op is ArgmaxLastDim {
        AutogradPolicy::NonDifferentiable
    } else {
        AutogradPolicy::FloatingInputs
    }
}

/// The schema registered for `op`.
pub open spec fn schema_spec(op: Operator) -> OperatorInfo {
    OperatorInfo {
        operator: op,
        name: name_of(op),
        kind: kind_of(op),
        dtype_rule: dtype_rule_of(op),
        alias_policy: AliasPolicy::FreshOutput,
        autograd_policy: autograd_policy_of(op),
    }
}

fn operator_name(op: Operator) -> (name: &'static str)
    ensures
        name == name_of(op),
{
    match op {
        Operator::Add => "aten.add",
        Operator::Sub => "aten.sub",
        Operator::Mul => "aten.mul",
        Operator::Div => "aten.div",
        Operator::Matmul => "aten.matmul",
        Operator::Relu => "aten.relu",
        Operator::Gelu => "aten.gelu",
        Operator::SoftmaxDim => "aten.softmax.dim",
        Operator::CrossEntropyForLogits => "heirloom.cross_entropy_for_logits",
        Operator::Sum => "aten.sum",
        Operator::Mean => "aten.mean",
        Operator::SumDim => "aten.sum.dim",
        Operator::MeanDim => "aten.mean.dim",
        Operator::LayerNormLastDim => "aten.layer_norm.last_dim",
        Operator::Embedding => "aten.embedding",
        Operator::MaskedFill => "aten.masked_fill",
        Operator::ArgmaxLastDim => "aten.argmax.last_dim",
        Operator::CausalSelfAttention => "heirloom.causal_self_attention",
    }
}

fn operator_kind(op: Operator) -> (kind: OperatorKind)
    ensures
        kind == kind_of(op),
{
    match op {
        Operator::Add | Operator::Sub | Operator::Mul | Operator::Div => OperatorKind::Binary,
        Operator::Matmul => OperatorKind::MatrixMultiply,
        Operator::Relu | Operator::Gelu | Operator::SoftmaxDim => OperatorKind::Unary,
        Operator::CrossEntropyForLogits => OperatorKind::Loss,
        Operator::Sum | Operator::Mean => OperatorKind::ReductionAll,
        Operator::SumDim | Operator::MeanDim => OperatorKind::ReductionDim,
        Operator::LayerNormLastDim => OperatorKind::Normalization,
        Operator::Embedding => OperatorKind::Indexing,
        Operator::MaskedFill => OperatorKind::Masking,
        Operator::ArgmaxLastDim => OperatorKind::Selection,
        Operator::CausalSelfAttention => OperatorKind::Attention,
    }
}

fn operator_dtype_rule(op: Operator) -> (rule: DTypeRule)
    ensures
        rule == dtype_rule_of(op),
{
    match op {
        Operator::Add | Operator::Sub | Operator::Mul | Operator::Div => DTypeRule::ArithmeticPromotion,
        Operator::Matmul => DTypeRule::FloatingPromotion,
        Operator::Relu
        | Operator::Gelu
        | Operator::SoftmaxDim
        | Operator::CrossEntropyForLogits => DTypeRule::PreserveFloating,
        Operator::Sum | Operator::SumDim => DTypeRule::SumReduction,
        Operator::Mean | Operator::MeanDim => DTypeRule::MeanReduction,
        Operator::LayerNormLastDim | Operator::CausalSelfAttention => DTypeRule::SameFloatingInputs,
        Operator::Embedding => DTypeRule::EmbeddingLookup,
        Operator::MaskedFill => DTypeRule::MaskPreserve,
        Operator::ArgmaxLastDim => DTypeRule::ArgmaxIndex,
    }
}

/// The schema registered for `operator`.
pub fn schema(operator: Operator) -> (info: OperatorInfo)
    ensures
        info == schema_spec(operator),
{
    let autograd_policy = match operator {
        Operator::ArgmaxLastDim => AutogradPolicy::NonDifferentiable,
        _ => AutogradPolicy::FloatingInputs,
    };
    OperatorInfo {
        operator,
        name: operator_name(operator),
        kind: operator_kind(operator),
        dtype_rule: operator_dtype_rule(operator),
        alias_policy: AliasPolicy::FreshOutput,
        autograd_policy,
    }
}

/// Every registered schema, one per operator, in catalog order.
pub fn operator_catalog() -> (catalog: Vec<OperatorInfo>)
    ensures
        catalog@.len() == all_operators().len(),
        forall|i: int| 0 <= i < catalog@.len() ==> #[trigger] catalog@[i] == schema_spec(all_operators()[i]),
{
    let mut catalog: Vec<OperatorInfo> = Vec::new();
    catalog.push(schema(Operator::Add));
    catalog.push(schema(Operator::Sub));
    catalog.push(schema(Operator::Mul));
    catalog.push(schema(Operator::Div));
    catalog.push(schema(Operator::Matmul));
    catalog.push(schema(Operator::Relu));
    catalog.push(schema(Operator::Gelu));
    catalog.push(schema(Operator::SoftmaxDim));
    catalog.push(schema(Operator::CrossEntropyForLogits));
    catalog.push(schema(Operator::Sum));
    catalog.push(schema(Operator::Mean));
    catalog.push(schema(Operator::SumDim));
    catalog.push(schema(Operator::MeanDim));
    catalog.push(schema(Operator::LayerNormLastDim));
    catalog.push(schema(Operator::Embedding));
    catalog.push(schema(Operator::MaskedFill));
    catalog.push(schema(Operator::ArgmaxLastDim));
    catalog.push(schema(Operator::CausalSelfAttention));
    assert(catalog@ =~= all_operators().map_values(|op: Operator| schema_spec(op)));
    catalog
}

/// The catalog lists every operator exactly once: each operator sits at its
/// own catalog index, and distinct positions hold distinct operators.
pub proof fn lemma_catalog_lists_each_operator_once(op: Operator, i: int, j: int)
    requires
        0 <= i < j < all_operators().len(),
    ensures
        0 <= catalog_index(op) < all_operators().len(),
        all_operators()[catalog_index(op)] == op,
        all_operators()[i] != all_operators()[j],
{
    assert(catalog_index(all_operators()[i]) == i);
    assert(catalog_index(all_operators()[j]) == j);
}

/// No two catalog entries share a name.
pub proof fn lemma_catalog_names_distinct(i: int, j: int)
    requires
        0 <= i < j < all_operators().len(),
    ensures
        name_of(all_operators()[i])@ != name_of(all_operators()[j])@,
{
    reveal_strlit("aten.add");
    assert(name_of(Operator::Add)@.len() == 8);
    assert(name_of(Operator::Add)@[5] == 'a');
    assert(name_of(Operator::Add)@[7] == 'd');
    reveal_strlit("aten.sub");
    assert(name_of(Operator::Sub)@.len() == 8);
    assert(name_of(Operator::Sub)@[5] == 's');
    assert(name_of(Operator::Sub)@[7] == 'b');
    reveal_strlit("aten.mul");
    assert(name_of(Operator::Mul)@.len() == 8);
    assert(name_of(Operator::Mul)@[5] == 'm');
    assert(name_of(Operator::Mul)@[7] == 'l');
    reveal_strlit("aten.div");
    assert(name_of(Operator::Div)@.len() == 8);
    assert(name_of(Operator::Div)@[5] == 'd');
    assert(name_of(Operator::Div)@[7] == 'v');
    reveal_strlit("aten.matmul");
    assert(name_of(Operator::Matmul)@.len() == 11);
    assert(name_of(Operator::Matmul)@[5] == 'm');
    reveal_strlit("aten.relu");
    assert(name_of(Operator::Relu)@.len() == 9);
    assert(name_of(Operator::Relu)@[5] == 'r');
    reveal_strlit("aten.gelu");
    assert(name_of(Operator::Gelu)@.len() == 9);
    assert(name_of(Operator::Gelu)@[5] == 'g');
    reveal_strlit("aten.softmax.dim");
    assert(name_of(Operator::SoftmaxDim)@.len() == 16);
    assert(name_of(Operator::SoftmaxDim)@[5] == 's');
    reveal_strlit("heirloom.cross_entropy_for_logits");
    assert(name_of(Operator::CrossEntropyForLogits)@.len() == 33);
    assert(name_of(Operator::CrossEntropyForLogits)@[5] == 'o');
    reveal_strlit("aten.sum");
    assert(name_of(Operator::Sum)@.len() == 8);
    assert(name_of(Operator::Sum)@[5] == 's');
    assert(name_of(Operator::Sum)@[7] == 'm');
    reveal_strlit("aten.mean");
    assert(name_of(Operator::Mean)@.len() == 9);
    assert(name_of(Operator::Mean)@[5] == 'm');
    reveal_strlit("aten.sum.dim");
    assert(name_of(Operator::SumDim)@.len() == 12);
    assert(name_of(Operator::SumDim)@[5] == 's');
    reveal_strlit("aten.mean.dim");
    assert(name_of(Operator::MeanDim)@.len() == 13);
    assert(name_of(Operator::MeanDim)@[5] == 'm');
    reveal_strlit("aten.layer_norm.last_dim");
    assert(name_of(Operator::LayerNormLastDim)@.len() == 24);
    assert(name_of(Operator::LayerNormLastDim)@[5] == 'l');
    reveal_strlit("aten.embedding");
    assert(name_of(Operator::Embedding)@.len() == 14);
    assert(name_of(Operator::Embedding)@[5] == 'e');
    reveal_strlit("aten.masked_fill");
    assert(name_of(Operator::MaskedFill)@.len() == 16);
    assert(name_of(Operator::MaskedFill)@[5] == 'm');
    reveal_strlit("aten.argmax.last_dim");
    assert(name_of(Operator::ArgmaxLastDim)@.len() == 20);
    assert(name_of(Operator::ArgmaxLastDim)@[5] == 'a');
    reveal_strlit("heirloom.causal_self_attention");
    assert(name_of(Operator::CausalSelfAttention)@.len() == 30);
    assert(name_of(Operator::CausalSelfAttention)@[5] == 'o');
}

/// Elementwise binary arithmetic.
#[derive(Clone, Copy, Debug, PartialEq, Eq, Hash, Structural)]
pub enum BinaryOp {
    Add,
    Sub,
    Mul,
    Div,
}

impl BinaryOp {
    pub open spec fn operator_spec(self) -> Operator {
        match self {
            BinaryOp::Add => Operator::Add,
            BinaryOp::Sub => Operator::Sub,
            BinaryOp::Mul => Operator::Mul,
            BinaryOp::Div => Operator::Div,
        }
    }

    #[verifier::when_used_as_spec(operator_spec)]
    pub fn operator(self) -> (op: Operator)
        ensures
            op == self.operator_spec(),
    {
        match self {
            BinaryOp::Add => Operator::Add,
            BinaryOp::Sub => Operator::Sub,
            BinaryOp::Mul => Operator::Mul,
            BinaryOp::Div => Operator::Div,
        }
    }
}

/// What dispatch needs to know of a tensor: its dtype and its device.
#[derive(Clone, Copy, Debug, PartialEq, Eq, Hash, Structural)]
pub struct TensorMeta {
    pub dtype: DType,
    pub device: Device,
}

impl TensorMeta {
    pub fn new(dtype: DType, device: Device) -> (meta: Self)
        ensures
            meta.dtype == dtype,
            meta.device == device,
    {
        TensorMeta { dtype, device }
    }
}

/// The CPU kernel a resolved operation runs.
#[derive(Clone, Copy, Debug, PartialEq, Eq, Hash, Structural)]
pub enum CpuKernel {
    Binary,
    Matmul,
    Relu,
    Sum,
    Mean,
}

#[derive(Clone, Copy, Debug)]
pub struct ResolvedBinaryOp {
    pub schema: OperatorInfo,
    pub output_dtype: DType,
    pub kernel: CpuKernel,
}

#[derive(Clone, Copy, Debug)]
pub struct ResolvedMatmulOp {
    pub schema: OperatorInfo,
    pub output_dtype: DType,
    pub kernel: CpuKernel,
}

#[derive(Clone, Copy, Debug)]
pub struct ResolvedUnaryOp {
    pub schema: OperatorInfo,
    pub output_dtype: DType,
    pub kernel: Option<CpuKernel>,
}

#[derive(Clone, Copy, Debug)]
pub struct ResolvedReductionOp {
    pub schema: OperatorInfo,
    pub output_dtype: DType,
    pub kernel: Option<CpuKernel>,
}

#[derive(Clone, Copy, Debug)]
pub struct ResolvedTypedOp {
    pub schema: OperatorInfo,
    pub output_dtype: DType,
}

/// Bool tensors support `+` and `*` but not `-` or `/`.
pub open spec fn arithmetic_ok(dtype: DType, op: BinaryOp) -> bool {
    !(dtype is Bool && (op is Sub || op is Div))
}

/// The widest floating dtype among the two (`F64` over `F32` over `BFloat16`).
pub open spec fn promote_floating_spec(left: DType, right: DType) -> DType {
    if left is F64 || right is F64 {
        DType::F64
    } else if left is F32 || right is F32 {
        DType::F32
    } else {
        DType::BFloat16
    }
}

/// Output dtype of binary arithmetic: floating promotion when either side
/// is floating; otherwise `I64`, except that division gives `F64`.
pub open spec fn promote_binary_spec(left: DType, right: DType, op: BinaryOp) -> DType {
    if left.is_floating_spec() || right.is_floating_spec() {
        promote_floating_spec(left, right)
    } else if op is Div {
        DType::F64
    } else {
        DType::I64
    }
}

/// Sums keep floating dtypes and accumulate integers and bools in `I64`.
pub open spec fn sum_output_spec(dtype: DType) -> DType {
    if dtype.is_floating_spec() {
        dtype
    } else {
        DType::I64
    }
}

/// Means keep floating dtypes and average integers and bools in `F64`.
pub open spec fn mean_output_spec(dtype: DType) -> DType {
    if dtype.is_floating_spec() {
        dtype
    } else {
        DType::F64
    }
}

pub open spec fn unary_kernel_spec(op: Operator) -> Option<CpuKernel> {
    if op is Relu {
        Some(CpuKernel::Relu)
    } else {
        None
    }
}

pub open spec fn reduction_kernel_spec(op: Operator) -> Option<CpuKernel> {
    if op is Sum {
        Some(CpuKernel::Sum)
    } else if op is Mean {
        Some(CpuKernel::Mean)
    } else {
        None
    }
}

/// `expected matching devices, got <a> and <b>`.
pub open spec fn device_mismatch_message(a: Device, b: Device) -> Seq<char> {
    "expected matching devices, got "@ + device_debug(a) + " and "@ + device_debug(b)
}

/// The refusal of an operator whose input is not on the CPU.
pub open spec fn cpu_kernel_message(op_name: Seq<char>, device: Device) -> Seq<char> {
    op_name + " has no registered CUDA kernel yet for device "@ + device_debug(device)
        + "; copy explicitly to CPU or implement the CUDA kernel path"@
}

/// The refusal of a non-floating input where a floating one is needed.
pub open spec fn floating_message(op_name: Seq<char>, dtype: DType) -> Seq<char> {
    op_name + " requires floating tensors, got "@ + dtype_debug(dtype)
}

/// The refusal of an input (`role`) whose dtype is not the one required.
pub open spec fn exact_dtype_message(op_name: Seq<char>, role: Seq<char>, expected: DType, actual: DType) -> Seq<
    char,
> {
    op_name + " "@ + role + " expected dtype "@ + dtype_debug(expected) + ", got "@ + dtype_debug(actual)
}

/// The refusal of two inputs whose dtypes differ.
pub open spec fn dtype_mismatch_message(op_name: Seq<char>, a: DType, b: DType) -> Seq<char> {
    op_name + " expected matching dtypes, got "@ + dtype_debug(a) + " and "@ + dtype_debug(b)
}

/// A binary operation as its `Debug` form writes it.
pub open spec fn binary_op_debug(op: BinaryOp) -> Seq<char> {
    match op {
        BinaryOp::Add => "Add"@,
        BinaryOp::Sub => "Sub"@,
        BinaryOp::Mul => "Mul"@,
        BinaryOp::Div => "Div"@,
    }
}

/// A dtype rule as its `Debug` form writes it.
pub open spec fn dtype_rule_debug(rule: DTypeRule) -> Seq<char> {
    match rule {
        DTypeRule::ArithmeticPromotion => "ArithmeticPromotion"@,
        DTypeRule::FloatingPromotion => "FloatingPromotion"@,
        DTypeRule::PreserveFloating => "PreserveFloating"@,
        DTypeRule::SumReduction => "SumReduction"@,
        DTypeRule::MeanReduction => "MeanReduction"@,
        DTypeRule::EmbeddingLookup => "EmbeddingLookup"@,
        DTypeRule::MaskPreserve => "MaskPreserve"@,
        DTypeRule::ArgmaxIndex => "ArgmaxIndex"@,
        DTypeRule::SameFloatingInputs => "SameFloatingInputs"@,
    }
}

/// The refusal of `-` or `/` on bool tensors.
pub open spec fn bool_arithmetic_message(op: BinaryOp) -> Seq<char> {
    name_of(op.operator())@ + " does not support "@ + binary_op_debug(op) + " for bool tensors"@
}

fn binary_op_name(op: BinaryOp) -> (s: &'static str)
    ensures
        s@ == binary_op_debug(op),
{
    match op {
        BinaryOp::Add => "Add",
        BinaryOp::Sub => "Sub",
        BinaryOp::Mul => "Mul",
        BinaryOp::Div => "Div",
    }
}

fn dtype_rule_name(rule: DTypeRule) -> (s: &'static str)
    ensures
        s@ == dtype_rule_debug(rule),
{
    match rule {
        DTypeRule::ArithmeticPromotion => "ArithmeticPromotion",
        DTypeRule::FloatingPromotion => "FloatingPromotion",
        DTypeRule::PreserveFloating => "PreserveFloating",
        DTypeRule::SumReduction => "SumReduction",
        DTypeRule::MeanReduction => "MeanReduction",
        DTypeRule::EmbeddingLookup => "EmbeddingLookup",
        DTypeRule::MaskPreserve => "MaskPreserve",
        DTypeRule::ArgmaxIndex => "ArgmaxIndex",
        DTypeRule::SameFloatingInputs => "SameFloatingInputs",
    }
}

fn ensure_same_device(left: TensorMeta, right: TensorMeta) -> (res: Result<()>)
    ensures
        res is Ok <==> left.device == right.device,
        res matches Err(e) ==> e is Device && e.message_spec() == device_mismatch_message(left.device, right.device),
{
    if left.device != right.device {
        let mut message = String::from_str("expected matching devices, got ");
        push_device_debug(&mut message, left.device);
        message.append(" and ");
        push_device_debug(&mut message, right.device);
        return Err(TensorError::Device(message));
    }
    Ok(())
}

fn ensure_cpu_kernel_device(device: Device, op_name: &str) -> (res: Result<()>)
    ensures
        res is Ok <==> device is Cpu,
        res matches Err(e) ==> e is Device && e.message_spec() == cpu_kernel_message(op_name@, device),
{
    match device {
        Device::Cpu => Ok(()),
        Device::Cuda(_) => {
            let mut message = String::from_str(op_name);
            message.append(" has no registered CUDA kernel yet for device ");
            push_device_debug(&mut message, device);
            message.append("; copy explicitly to CPU or implement the CUDA kernel path");
            Err(TensorError::Device(message))
        },
    }
}

fn ensure_floating_dtype(dtype: DType, op_name: &str) -> (res: Result<()>)
    ensures
        res is Ok <==> dtype.is_floating_spec(),
        res matches Err(e) ==> e is DType && e.message_spec() == floating_message(op_name@, dtype),
{
    if !dtype.is_floating() {
        let mut message = String::from_str(op_name);
        message.append(" requires floating tensors, got ");
        push_dtype_debug(&mut message, dtype);
        return Err(TensorError::DType(message));
    }
    Ok(())
}

fn ensure_exact_dtype(actual: DType, expected: DType, op_name: &str, role: &str) -> (res: Result<()>)
    ensures
        res is Ok <==> actual == expected,
        res matches Err(e) ==> e is DType && e.message_spec() == exact_dtype_message(
            op_name@,
            role@,
            expected,
            actual,
        ),
{
    if actual != expected {
        let mut message = String::from_str(op_name);
        message.append(" ");
        message.append(role);
        message.append(" expected dtype ");
        push_dtype_debug(&mut message, expected);
        message.append(", got ");
        push_dtype_debug(&mut message, actual);
        return Err(TensorError::DType(message));
    }
    Ok(())
}

fn ensure_same_dtype(left: DType, right: DType, op_name: &str) -> (res: Result<()>)
    ensures
        res is Ok <==> left == right,
        res matches Err(e) ==> e is DType && e.message_spec() == dtype_mismatch_message(op_name@, left, right),
{
    if left != right {
        let mut message = String::from_str(op_name);
        message.append(" expected matching dtypes, got ");
        push_dtype_debug(&mut message, left);
        message.append(" and ");
        push_dtype_debug(&mut message, right);
        return Err(TensorError::DType(message));
    }
    Ok(())
}

fn ensure_arithmetic_dtype(dtype: DType, op: BinaryOp) -> (res: Result<()>)
    ensures
        res is Ok <==> arithmetic_ok(dtype, op),
        res matches Err(e) ==> e is DType && e.message_spec() == bool_arithmetic_message(op),
{
    match (dtype, op) {
        (DType::Bool, BinaryOp::Sub) | (DType::Bool, BinaryOp::Div) => {
            let mut message = String::from_str(operator_name(op.operator()));
            message.append(" does not support ");
            message.append(binary_op_name(op));
            message.append(" for bool tensors");
            Err(TensorError::DType(message))
        },
        _ => Ok(()),
    }
}

fn promote_floating_dtype(left: DType, right: DType) -> (d: DType)
    ensures
        d == promote_floating_spec(left, right),
{
    match (left, right) {
        (DType::F64, _) | (_, DType::F64) => DType::F64,
        (DType::F32, _) | (_, DType::F32) => DType::F32,
        _ => DType::BFloat16,
    }
}

fn promote_binary_dtype(left: DType, right: DType, op: BinaryOp) -> (d: DType)
    ensures
        d == promote_binary_spec(left, right, op),
{
    if left.is_floating() || right.is_floating() {
        return promote_floating_dtype(left, right);
    }
    match op {
        BinaryOp::Div => DType::F64,
        _ => DType::I64,
    }
}

fn sum_output_dtype(dtype: DType) -> (d: DType)
    ensures
        d == sum_output_spec(dtype),
{
    match dtype {
        DType::F32 => DType::F32,
        DType::BFloat16 => DType::BFloat16,
        DType::F64 => DType::F64,
        DType::I64 | DType::Bool => DType::I64,
    }
}

fn mean_output_dtype(dtype: DType) -> (d: DType)
    ensures
        d == mean_output_spec(dtype),
{
    match dtype {
        DType::F32 => DType::F32,
        DType::BFloat16 => DType::BFloat16,
        DType::F64 => DType::F64,
        DType::I64 | DType::Bool => DType::F64,
    }
}

/// The refusal `resolve_binary` reports: device agreement, then the CPU
/// kernel, then the bool edges of `-` and `/`.
pub open spec fn binary_refusal(op: BinaryOp, left: TensorMeta, right: TensorMeta) -> Seq<char> {
    if left.device != right.device {
        device_mismatch_message(left.device, right.device)
    } else if !(left.device is Cpu) {
        cpu_kernel_message(name_of(op.operator())@, left.device)
    } else {
        bool_arithmetic_message(op)
    }
}

/// Resolves elementwise arithmetic: both inputs on one CPU device, bool
/// inputs only for `+` and `*`. Device checks come before dtype checks.
pub fn resolve_binary(op: BinaryOp, left: TensorMeta, right: TensorMeta) -> (res: Result<ResolvedBinaryOp>)
    ensures
        res is Ok <==> left.device == right.device && left.device is Cpu && arithmetic_ok(left.dtype, op)
            && arithmetic_ok(right.dtype, op),
        res matches Err(e) ==> (e is Device <==> !(left.device == right.device && left.device is Cpu)),
        res matches Err(e) ==> e is Device || e is DType,
        res matches Err(e) ==> e.message_spec() == binary_refusal(op, left, right),
        res matches Ok(r) ==> r.schema == schema_spec(op.operator()) && r.output_dtype == promote_binary_spec(
            left.dtype,
            right.dtype,
            op,
        ) && r.kernel == CpuKernel::Binary,
{
    let info = schema(op.operator());
    ensure_same_device(left, right)?;
    ensure_cpu_kernel_device(left.device, info.name)?;
    ensure_arithmetic_dtype(left.dtype, op)?;
    ensure_arithmetic_dtype(right.dtype, op)?;
    Ok(
        ResolvedBinaryOp {
            schema: info,
            output_dtype: promote_binary_dtype(left.dtype, right.dtype, op),
            kernel: CpuKernel::Binary,
        },
    )
}

/// The refusal `resolve_matmul` reports.
pub open spec fn matmul_resolve_refusal(left: TensorMeta, right: TensorMeta) -> Seq<char> {
    if left.device != right.device {
        device_mismatch_message(left.device, right.device)
    } else if !(left.device is Cpu) {
        cpu_kernel_message("aten.matmul"@, left.device)
    } else if !left.dtype.is_floating_spec() {
        floating_message("matmul"@, left.dtype)
    } else {
        floating_message("matmul"@, right.dtype)
    }
}

/// Resolves a matrix product: both inputs floating and on one CPU device.
pub fn resolve_matmul(left: TensorMeta, right: TensorMeta) -> (res: Result<ResolvedMatmulOp>)
    ensures
        res is Ok <==> left.device == right.device && left.device is Cpu && left.dtype.is_floating_spec()
            && right.dtype.is_floating_spec(),
        res matches Err(e) ==> (e is Device <==> !(left.device == right.device && left.device is Cpu)),
        res matches Err(e) ==> e is Device || e is DType,
        res matches Err(e) ==> e.message_spec() == matmul_resolve_refusal(left, right),
        res matches Ok(r) ==> r.schema == schema_spec(Operator::Matmul) && r.output_dtype
            == promote_floating_spec(left.dtype, right.dtype) && r.kernel == CpuKernel::Matmul,
{
    ensure_same_device(left, right)?;
    ensure_cpu_kernel_device(left.device, "aten.matmul")?;
    ensure_floating_dtype(left.dtype, "matmul")?;
    ensure_floating_dtype(right.dtype, "matmul")?;
    Ok(
        ResolvedMatmulOp {
            schema: schema(Operator::Matmul),
            output_dtype: promote_floating_dtype(left.dtype, right.dtype),
            kernel: CpuKernel::Matmul,
        },
    )
}

/// The refusal `resolve_unary` reports.
pub open spec fn unary_refusal(operator: Operator, input: TensorMeta) -> Seq<char> {
    if !(input.device is Cpu) {
        cpu_kernel_message(name_of(operator)@, input.device)
    } else if dtype_rule_of(operator) is PreserveFloating {
        floating_message(name_of(operator)@, input.dtype)
    } else {
        name_of(operator)@ + " cannot be resolved as a unary op with dtype rule "@ + dtype_rule_debug(
            dtype_rule_of(operator),
        )
    }
}

/// Resolves a unary operator: only operators whose dtype rule preserves a
/// floating input resolve here, on CPU, and the output keeps the input dtype.
pub fn resolve_unary(operator: Operator, input: TensorMeta) -> (res: Result<ResolvedUnaryOp>)
    ensures
        res is Ok <==> input.device is Cpu && dtype_rule_of(operator) is PreserveFloating
            && input.dtype.is_floating_spec(),
        res matches Err(e) ==> (e is Device <==> !(input.device is Cpu)),
        res matches Err(e) ==> e is Device || e is DType,
        res matches Err(e) ==> e.message_spec() == unary_refusal(operator, input),
        res matches Ok(r) ==> r.schema == schema_spec(operator) && r.output_dtype == input.dtype && r.kernel
            == unary_kernel_spec(operator),
{
    let info = schema(operator);
    ensure_cpu_kernel_device(input.device, info.name)?;
    match info.dtype_rule {
        DTypeRule::PreserveFloating => {
            ensure_floating_dtype(input.dtype, info.name)?;
            let kernel = match operator {
                Operator::Relu => Some(CpuKernel::Relu),
                _ => None,
            };
            Ok(ResolvedUnaryOp { schema: info, output_dtype: input.dtype, kernel })
        },
        other => {
            let mut message = String::from_str(info.name);
            message.append(" cannot be resolved as a unary op with dtype rule ");
            message.append(dtype_rule_name(other));
            Err(TensorError::DType(message))
        },
    }
}

/// The refusal `resolve_reduction` reports.
pub open spec fn reduction_refusal(operator: Operator, input: TensorMeta) -> Seq<char> {
    if !(input.device is Cpu) {
        cpu_kernel_message(name_of(operator)@, input.device)
    } else {
        name_of(operator)@ + " cannot be resolved as a reduction with dtype rule "@ + dtype_rule_debug(
            dtype_rule_of(operator),
        )
    }
}

/// Resolves a reduction on CPU; its dtype rule picks the output dtype.
pub fn resolve_reduction(operator: Operator, input: TensorMeta) -> (res: Result<ResolvedReductionOp>)
    ensures
        res is Ok <==> input.device is Cpu && (dtype_rule_of(operator) is SumReduction || dtype_rule_of(
            operator,
        ) is MeanReduction),
        res matches Err(e) ==> (e is Device <==> !(input.device is Cpu)),
        res matches Err(e) ==> e is Device || e is DType,
        res matches Err(e) ==> e.message_spec() == reduction_refusal(operator, input),
        res matches Ok(r) ==> r.schema == schema_spec(operator) && r.kernel == reduction_kernel_spec(operator)
            && r.output_dtype == (if dtype_rule_of(operator) is SumReduction {
            sum_output_spec(input.dtype)
        } else {
            mean_output_spec(input.dtype)
        }),
{
    let info = schema(operator);
    ensure_cpu_kernel_device(input.device, info.name)?;
    let output_dtype = match info.dtype_rule {
        DTypeRule::SumReduction => sum_output_dtype(input.dtype),
        DTypeRule::MeanReduction => mean_output_dtype(input.dtype),
        other => {
            let mut message = String::from_str(info.name);
            message.append(" cannot be resolved as a reduction with dtype rule ");
            message.append(dtype_rule_name(other));
            return Err(TensorError::DType(message));
        },
    };
    let kernel = match operator {
        Operator::Sum => Some(CpuKernel::Sum),
        Operator::Mean => Some(CpuKernel::Mean),
        _ => None,
    };
    Ok(ResolvedReductionOp { schema: info, output_dtype, kernel })
}

/// Every input agrees with the first on device and dtype.
pub open spec fn agrees_with(first: TensorMeta, other: TensorMeta) -> bool {
    other.device == first.device && other.dtype == first.dtype
}

/// The refusal of three inputs that must share one floating dtype and one
/// device: the first input's dtype, then the second input against it, then
/// the third, a device mismatch before a dtype mismatch.
pub open spec fn three_refusal(op_name: Seq<char>, a: TensorMeta, b: TensorMeta, c: TensorMeta) -> Seq<char> {
    if !a.dtype.is_floating_spec() {
        floating_message(op_name, a.dtype)
    } else if b.device != a.device {
        device_mismatch_message(a.device, b.device)
    } else if b.dtype != a.dtype {
        dtype_mismatch_message(op_name, a.dtype, b.dtype)
    } else if c.device != a.device {
        device_mismatch_message(a.device, c.device)
    } else {
        dtype_mismatch_message(op_name, a.dtype, c.dtype)
    }
}

fn ensure_three_same_floating(op_name: &str, a: TensorMeta, b: TensorMeta, c: TensorMeta) -> (res: Result<()>)
    ensures
        res is Ok <==> a.dtype.is_floating_spec() && agrees_with(a, b) && agrees_with(a, c),
        res matches Err(e) ==> (e is Device <==> a.dtype.is_floating_spec() && (b.device != a.device || (
        b.dtype == a.dtype && c.device != a.device))),
        res matches Err(e) ==> e is Device || e is DType,
        res matches Err(e) ==> e.message_spec() == three_refusal(op_name@, a, b, c),
{
    ensure_floating_dtype(a.dtype, op_name)?;
    ensure_same_device(a, b)?;
    ensure_same_dtype(a.dtype, b.dtype, op_name)?;
    ensure_same_device(a, c)?;
    ensure_same_dtype(a.dtype, c.dtype, op_name)?;
    Ok(())
}

/// Shared contract of the three-input resolvers: same floating dtype and
/// device for all three, and a CPU kernel.
pub open spec fn three_input_error_is_device(a: TensorMeta, b: TensorMeta, c: TensorMeta) -> bool {
    if a.dtype.is_floating_spec() && agrees_with(a, b) && agrees_with(a, c) {
        !(a.device is Cpu)
    } else {
        a.dtype.is_floating_spec() && (b.device != a.device || (b.dtype == a.dtype && c.device != a.device))
    }
}

/// The refusal of a three-input resolver for operator `op`.
pub open spec fn three_input_refusal(op: Operator, a: TensorMeta, b: TensorMeta, c: TensorMeta) -> Seq<char> {
    if a.dtype.is_floating_spec() && agrees_with(a, b) && agrees_with(a, c) {
        cpu_kernel_message(name_of(op)@, a.device)
    } else {
        three_refusal(name_of(op)@, a, b, c)
    }
}

/// Resolves a last-dimension layer norm: input, weight and bias share one
/// floating dtype and one CPU device; the output keeps the input dtype.
pub fn resolve_layer_norm_last_dim(input: TensorMeta, weight: TensorMeta, bias: TensorMeta) -> (res: Result<
    ResolvedTypedOp,
>)
    ensures
        res is Ok <==> input.dtype.is_floating_spec() && agrees_with(input, weight) && agrees_with(input, bias)
            && input.device is Cpu,
        res matches Err(e) ==> (e is Device <==> three_input_error_is_device(input, weight, bias)),
        res matches Err(e) ==> e is Device || e is DType,
        res matches Err(e) ==> e.message_spec() == three_input_refusal(
            Operator::LayerNormLastDim,
            input,
            weight,
            bias,
        ),
        res matches Ok(r) ==> r.schema == schema_spec(Operator::LayerNormLastDim) && r.output_dtype
            == input.dtype,
{
    let info = schema(Operator::LayerNormLastDim);
    ensure_three_same_floating(info.name, input, weight, bias)?;
    ensure_cpu_kernel_device(input.device, info.name)?;
    Ok(ResolvedTypedOp { schema: info, output_dtype: input.dtype })
}

/// Resolves causal self-attention: query, key and value share one floating
/// dtype and one CPU device; the output keeps the query dtype.
pub fn resolve_causal_self_attention(query: TensorMeta, key: TensorMeta, value: TensorMeta) -> (res: Result<
    ResolvedTypedOp,
>)
    ensures
        res is Ok <==> query.dtype.is_floating_spec() && agrees_with(query, key) && agrees_with(query, value)
            && query.device is Cpu,
        res matches Err(e) ==> (e is Device <==> three_input_error_is_device(query, key, value)),
        res matches Err(e) ==> e is Device || e is DType,
        res matches Err(e) ==> e.message_spec() == three_input_refusal(
            Operator::CausalSelfAttention,
            query,
            key,
            value,
        ),
        res matches Ok(r) ==> r.schema == schema_spec(Operator::CausalSelfAttention) && r.output_dtype
            == query.dtype,
{
    let info = schema(Operator::CausalSelfAttention);
    ensure_three_same_floating(info.name, query, key, value)?;
    ensure_cpu_kernel_device(query.device, info.name)?;
    Ok(ResolvedTypedOp { schema: info, output_dtype: query.dtype })
}

/// The refusal `resolve_embedding` reports.
pub open spec fn embedding_refusal(indices: TensorMeta, weight: TensorMeta) -> Seq<char> {
    if indices.device != weight.device {
        device_mismatch_message(indices.device, weight.device)
    } else if !(weight.device is Cpu) {
        cpu_kernel_message(name_of(Operator::Embedding)@, weight.device)
    } else if indices.dtype != DType::I64 {
        exact_dtype_message(name_of(Operator::Embedding)@, "indices"@, DType::I64, indices.dtype)
    } else {
        floating_message("embedding weight"@, weight.dtype)
    }
}

/// Resolves an embedding lookup: `I64` indices and a floating weight on one
/// CPU device; the output has the weight's dtype.
pub fn resolve_embedding(indices: TensorMeta, weight: TensorMeta) -> (res: Result<ResolvedTypedOp>)
    ensures
        res is Ok <==> indices.device == weight.device && weight.device is Cpu && indices.dtype == DType::I64
            && weight.dtype.is_floating_spec(),
        res matches Err(e) ==> (e is Device <==> !(indices.device == weight.device && weight.device is Cpu)),
        res matches Err(e) ==> e is Device || e is DType,
        res matches Err(e) ==> e.message_spec() == embedding_refusal(indices, weight),
        res matches Ok(r) ==> r.schema == schema_spec(Operator::Embedding) && r.output_dtype == weight.dtype,
{
    let info = schema(Operator::Embedding);
    ensure_same_device(indices, weight)?;
    ensure_cpu_kernel_device(weight.device, info.name)?;
    ensure_exact_dtype(indices.dtype, DType::I64, info.name, "indices")?;
    ensure_floating_dtype(weight.dtype, "embedding weight")?;
    Ok(ResolvedTypedOp { schema: info, output_dtype: weight.dtype })
}

/// The refusal `resolve_masked_fill` reports.
pub open spec fn masked_fill_refusal(input: TensorMeta, mask: TensorMeta) -> Seq<char> {
    if input.device != mask.device {
        device_mismatch_message(input.device, mask.device)
    } else if !(input.device is Cpu) {
        cpu_kernel_message(name_of(Operator::MaskedFill)@, input.device)
    } else {
        exact_dtype_message(name_of(Operator::MaskedFill)@, "mask"@, DType::Bool, mask.dtype)
    }
}

/// Resolves a masked fill: a `Bool` mask on the input's CPU device; the
/// output keeps the input dtype.
pub fn resolve_masked_fill(input: TensorMeta, mask: TensorMeta) -> (res: Result<ResolvedTypedOp>)
    ensures
        res is Ok <==> input.device == mask.device && input.device is Cpu && mask.dtype == DType::Bool,
        res matches Err(e) ==> (e is Device <==> !(input.device == mask.device && input.device is Cpu)),
        res matches Err(e) ==> e is Device || e is DType,
        res matches Err(e) ==> e.message_spec() == masked_fill_refusal(input, mask),
        res matches Ok(r) ==> r.schema == schema_spec(Operator::MaskedFill) && r.output_dtype == input.dtype,
{
    let info = schema(Operator::MaskedFill);
    ensure_same_device(input, mask)?;
    ensure_cpu_kernel_device(input.device, info.name)?;
    ensure_exact_dtype(mask.dtype, DType::Bool, info.name, "mask")?;
    Ok(ResolvedTypedOp { schema: info, output_dtype: input.dtype })
}

/// Resolves an argmax over the last dimension: every dtype is orderable,
/// the input must be on CPU, and the output holds `I64` indices.
pub fn resolve_argmax_last_dim(input: TensorMeta) -> (res: Result<ResolvedTypedOp>)
    ensures
        res is Ok <==> input.device is Cpu,
        res matches Err(e) ==> e is Device && e.message_spec() == cpu_kernel_message(
            name_of(Operator::ArgmaxLastDim)@,
            input.device,
        ),
        res matches Ok(r) ==> r.schema == schema_spec(Operator::ArgmaxLastDim) && r.output_dtype == DType::I64,
{
    let info = schema(Operator::ArgmaxLastDim);
    ensure_cpu_kernel_device(input.device, info.name)?;
    Ok(ResolvedTypedOp { schema: info, output_dtype: DType::I64 })
}

/// Binary promotion does not depend on the order of the operands, and
/// resolution succeeds for one order exactly when it does for the other.
pub proof fn lemma_binary_promotion_symmetric(op: BinaryOp, left: TensorMeta, right: TensorMeta)
    ensures
        promote_binary_spec(left.dtype, right.dtype, op) == promote_binary_spec(right.dtype, left.dtype, op),
        (left.device == right.device && left.device is Cpu && arithmetic_ok(left.dtype, op) && arithmetic_ok(
            right.dtype,
            op,
        )) == (right.device == left.device && right.device is Cpu && arithmetic_ok(right.dtype, op)
            && arithmetic_ok(left.dtype, op)),
{
}

/// Division, means and every `FloatingInputs` output of a floating operation
/// are floating; floating inputs keep their dtype through sums and means.
pub proof fn lemma_division_and_mean_are_floating(left: DType, right: DType, dtype: DType)
    ensures
        promote_binary_spec(left, right, BinaryOp::Div).is_floating_spec(),
        mean_output_spec(dtype).is_floating_spec(),
        dtype.is_floating_spec() ==> sum_output_spec(dtype) == dtype && mean_output_spec(dtype) == dtype,
        (left.is_floating_spec() || right.is_floating_spec()) ==> promote_binary_spec(
            left,
            right,
            BinaryOp::Add,
        ).is_floating_spec(),
{
}

/// Bits in one value of a floating dtype.
pub open spec fn float_bits(d: DType) -> nat {
    match d {
        DType::BFloat16 => 16,
        DType::F32 => 32,
        DType::F64 => 64,
        _ => 0,
    }
}

/// Floating promotion keeps the wider operand: for floating `left` and
/// `right` the result is one of them and is at least as wide as both (so
/// `F32` with `BFloat16` gives `F32`). Binary arithmetic with a floating
/// operand and matrix products promote this way.
pub proof fn lemma_floating_promotion_widest(op: BinaryOp, left: DType, right: DType)
    requires
        left.is_floating_spec(),
        right.is_floating_spec(),
    ensures
        promote_floating_spec(left, right) == left || promote_floating_spec(left, right) == right,
        float_bits(promote_floating_spec(left, right)) >= float_bits(left),
        float_bits(promote_floating_spec(left, right)) >= float_bits(right),
        promote_binary_spec(left, right, op) == promote_floating_spec(left, right),
{
}

/// The operator whose result a CPU kernel computes (`None` for the shared
/// elementwise kernel, which computes whichever binary operation it is
/// given).
pub open spec fn kernel_operator(k: CpuKernel) -> Option<Operator> {
    match k {
        CpuKernel::Binary => None,
        CpuKernel::Matmul => Some(Operator::Matmul),
        CpuKernel::Relu => Some(Operator::Relu),
        CpuKernel::Sum => Some(Operator::Sum),
        CpuKernel::Mean => Some(Operator::Mean),
    }
}

/// A resolved kernel computes the operator it was resolved for: every
/// whole-tensor reduction has a CPU kernel and that kernel computes that
/// reduction (the mean kernel for `Mean`, the sum kernel for `Sum`), and a
/// unary kernel, when there is one, computes its operator.
pub proof fn lemma_kernels_compute_their_operator(op: Operator)
    ensures
        kind_of(op) is ReductionAll ==> (reduction_kernel_spec(op) matches Some(k) && kernel_operator(k) == Some(
            op,
        )),
        reduction_kernel_spec(op) matches Some(k) ==> kernel_operator(k) == Some(op),
        unary_kernel_spec(op) matches Some(k) ==> kernel_operator(k) == Some(op),
{
}

/// An operator never records autograd for a non-floating output, and the
/// non-differentiable argmax never records it at all.
pub proof fn lemma_autograd_only_for_floating_outputs(op: Operator, output_dtype: DType, requires_grad: bool)
    ensures
        schema_spec(op).records_autograd(output_dtype, requires_grad) ==> output_dtype.is_floating_spec()
            && requires_grad,
        !schema_spec(Operator::ArgmaxLastDim).records_autograd(output_dtype, requires_grad),
{
}

// ---------------------------------------------------------------------------
// Batched matrix-product planning
// ---------------------------------------------------------------------------

/// Where one batch of a batched matrix product reads its operands in the
/// flattened inputs.
#[derive(Clone, Copy, Debug, PartialEq, Eq, Structural)]
pub struct MatmulBatchRange {
    pub left_start: usize,
    pub left_end: usize,
    pub right_start: usize,
    pub right_end: usize,
}

/// Shapes and operand ranges of a batched matrix product
/// `[..., m, k] x [..., k, n] -> [..., m, n]`; batch `b` of the output is
/// the product of the two ranges in `batches[b]`.
#[derive(Clone, Debug)]
pub struct MatmulPlan {
    pub batch_shape: Vec<usize>,
    pub m: usize,
    pub k: usize,
    pub n: usize,
    pub output_len: usize,
    pub batch_indices: Vec<Vec<usize>>,
    pub batches: Vec<MatmulBatchRange>,
    pub output_shape: Vec<usize>,
}

/// All but the last two dimensions.
pub open spec fn batch_dims(shape: Seq<usize>) -> Seq<usize> {
    shape.take(shape.len() - 2)
}

pub open spec fn matmul_batch_shape(left: Seq<usize>, right: Seq<usize>) -> Seq<usize> {
    broadcast_spec(batch_dims(left), batch_dims(right))
}

/// Shape checks that do not depend on the batch: both operands have rank at
/// least 2, their batch dimensions broadcast, the inner dimensions agree and
/// no matrix or output size overflows.
pub open spec fn matmul_shapes_ok(left: Seq<usize>, right: Seq<usize>) -> bool {
    &&& left.len() >= 2 && right.len() >= 2
    &&& shapes_broadcastable(batch_dims(left), batch_dims(right))
    &&& prefix_products_fit(matmul_batch_shape(left, right))
    &&& left[left.len() - 1] == right[right.len() - 2]
    &&& left[left.len() - 2] * left[left.len() - 1] <= usize::MAX
    &&& right[right.len() - 2] * right[right.len() - 1] <= usize::MAX
    &&& left[left.len() - 2] * right[right.len() - 1] <= usize::MAX
    &&& product(matmul_batch_shape(left, right)) * (left[left.len() - 2] * right[right.len() - 1])
        <= usize::MAX
}

/// Flat position, in an operand's batch dimensions, of the matrix that
/// output batch `index` reads.
pub open spec fn source_batch(index: Seq<usize>, batch: Seq<usize>, part: Seq<usize>) -> nat {
    dot(broadcast_source_index(index, batch, part), contiguous_strides_spec(part))
}

/// The operand ranges of output batch `index`.
pub open spec fn batch_range(
    index: Seq<usize>,
    left: Seq<usize>,
    right: Seq<usize>,
    range: MatmulBatchRange,
) -> bool {
    let batch = matmul_batch_shape(left, right);
    let lm = left[left.len() - 2] * left[left.len() - 1];
    let rm = right[right.len() - 2] * right[right.len() - 1];
    &&& range.left_start == source_batch(index, batch, batch_dims(left)) * lm
    &&& range.left_end == range.left_start + lm
    &&& range.right_start == source_batch(index, batch, batch_dims(right)) * rm
    &&& range.right_end == range.right_start + rm
}

/// Output batch `index` reads inside both operands without overflow.
pub open spec fn batch_fits(
    index: Seq<usize>,
    left: Seq<usize>,
    right: Seq<usize>,
    left_len: nat,
    right_len: nat,
) -> bool {
    let batch = matmul_batch_shape(left, right);
    let lm = left[left.len() - 2] * left[left.len() - 1];
    let rm = right[right.len() - 2] * right[right.len() - 1];
    let ls = source_batch(index, batch, batch_dims(left)) * lm;
    let rs = source_batch(index, batch, batch_dims(right)) * rm;
    &&& ls + lm <= usize::MAX && rs + rm <= usize::MAX
    &&& ls + lm <= left_len
    &&& rs + rm <= right_len
}

fn leading_dims(shape: &[usize]) -> (out: Vec<usize>)
    requires
        shape@.len() >= 2,
    ensures
        out@ == batch_dims(shape@),
{
    let mut out: Vec<usize> = Vec::new();
    let mut i: usize = 0;
    while i < shape.len() - 2
        invariant
            i <= shape@.len() - 2,
            out@ == shape@.take(i as int),
        decreases shape@.len() - 2 - i,
    {
        out.push(shape[i]);
        assert(out@ =~= shape@.take(i + 1));
        i = i + 1;
    }
    out
}

/// The refusal of a product that overflows `usize`.
pub open spec fn product_overflow_message(text: Seq<char>, a: usize, b: usize) -> Seq<char> {
    text + decimal(a as nat) + " * "@ + decimal(b as nat)
}

fn product_overflow(text: &str, a: usize, b: usize) -> (e: TensorError)
    ensures
        e is Shape,
        e.message_spec() == product_overflow_message(text@, a, b),
{
    let mut message = String::new();
    push_number(&mut message, text, a as u64);
    push_number(&mut message, " * ", b as u64);
    assert(message@ =~= product_overflow_message(text@, a, b));
    TensorError::Shape(message)
}

/// The message of the first shape check a matrix product fails.
pub open spec fn matmul_refusal(l: Seq<usize>, r: Seq<usize>, msg: Seq<char>) -> bool {
    if l.len() < 2 || r.len() < 2 {
        msg == "matmul requires tensors with rank >= 2, got "@ + dims_text(l) + " and "@ + dims_text(r)
    } else if !shapes_broadcastable(batch_dims(l), batch_dims(r)) {
        exists|d: int|
            #[trigger] first_incompatible(batch_dims(l), batch_dims(r), d) && msg == broadcast_refusal_message(
                batch_dims(l),
                batch_dims(r),
                d,
            )
    } else if !prefix_products_fit(matmul_batch_shape(l, r)) {
        msg == overflow_message(matmul_batch_shape(l, r))
    } else if l[l.len() - 1] != r[r.len() - 2] {
        msg == "matmul inner dimensions must match, got "@ + dims_text(l) + " and "@ + dims_text(r)
    } else if l[l.len() - 2] * l[l.len() - 1] > usize::MAX {
        msg == product_overflow_message("matmul left matrix size overflows: "@, l[l.len() - 2], l[l.len() - 1])
    } else if r[r.len() - 2] * r[r.len() - 1] > usize::MAX {
        msg == product_overflow_message("matmul right matrix size overflows: "@, r[r.len() - 2], r[r.len() - 1])
    } else if l[l.len() - 2] * r[r.len() - 1] > usize::MAX {
        msg == product_overflow_message("matmul output matrix size overflows: "@, l[l.len() - 2], r[r.len() - 1])
    } else {
        msg == product_overflow_message(
            "matmul batched output size overflows: "@,
            product(matmul_batch_shape(l, r)) as usize,
            (l[l.len() - 2] * r[r.len() - 1]) as usize,
        )
    }
}

/// Plans a batched matrix product of operands with the given shapes and
/// data lengths: the batch dimensions broadcast, and each output batch
/// reads one `m x k` and one `k x n` matrix. Every refusal is a shape
/// error.
pub fn plan_matmul(left_shape: &[usize], right_shape: &[usize], left_len: usize, right_len: usize) -> (res:
    Result<MatmulPlan>)
    requires
        prefix_products_fit(left_shape@),
        prefix_products_fit(right_shape@),
    ensures
        res is Ok <==> matmul_shapes_ok(left_shape@, right_shape@) && forall|index: Seq<usize>|
            index_in_bounds(index, matmul_batch_shape(left_shape@, right_shape@)) ==> batch_fits(
                index,
                left_shape@,
                right_shape@,
                left_len as nat,
                right_len as nat,
            ),
        res matches Err(e) ==> e is Shape,
        !matmul_shapes_ok(left_shape@, right_shape@) ==> (res matches Err(e) && matmul_refusal(
            left_shape@,
            right_shape@,
            e.message_spec(),
        )),
        matmul_shapes_ok(left_shape@, right_shape@) && res is Err ==> (res matches Err(e) && exists|
            index: Seq<usize>,
        |
            #[trigger] first_unfit_batch(index, left_shape@, right_shape@, left_len as nat, right_len as nat)
                && e.message_spec() == batch_refusal_message(
                index,
                left_shape@,
                right_shape@,
                left_len as nat,
                right_len as nat,
            )),
        res matches Ok(plan) ==> plan.batch_shape@ == matmul_batch_shape(left_shape@, right_shape@),
        res matches Ok(plan) ==> plan.m == left_shape@[left_shape@.len() - 2] && plan.k
            == left_shape@[left_shape@.len() - 1] && plan.n == right_shape@[right_shape@.len() - 1],
        res matches Ok(plan) ==> plan.output_len == product(matmul_batch_shape(left_shape@, right_shape@))
            * (plan.m * plan.n),
        res matches Ok(plan) ==> plan.output_shape@ == matmul_batch_shape(left_shape@, right_shape@) + seq![
            plan.m,
            plan.n,
        ],
        res matches Ok(plan) ==> plan.batches@.len() == (if has_zero_dim(
            matmul_batch_shape(left_shape@, right_shape@),
        ) {
            0
        } else {
            product(matmul_batch_shape(left_shape@, right_shape@))
        }),
        res matches Ok(plan) ==> plan.batch_indices@.len() == plan.batches@.len(),
        res matches Ok(plan) ==> forall|b: int|
            0 <= b < plan.batches@.len() ==> index_in_bounds(
                #[trigger] plan.batch_indices@[b]@,
                matmul_batch_shape(left_shape@, right_shape@),
            ) && dot(
                plan.batch_indices@[b]@,
                contiguous_strides_spec(matmul_batch_shape(left_shape@, right_shape@)),
            ) == b && batch_range(plan.batch_indices@[b]@, left_shape@, right_shape@, plan.batches@[b]),
{
    let ghost l = left_shape@;
    let ghost r = right_shape@;
    if left_shape.len() < 2 || right_shape.len() < 2 {
        let mut message = String::from_str("matmul requires tensors with rank >= 2, got ");
        push_dims(&mut message, left_shape);
        message.append(" and ");
        push_dims(&mut message, right_shape);
        return Err(TensorError::Shape(message));
    }
    let left_batch = leading_dims(left_shape);
    let right_batch = leading_dims(right_shape);
    let batch_shape = match broadcast_shapes(left_batch.as_slice(), right_batch.as_slice()) {
        Ok(b) => b,
        Err(e) => {
            return Err(e);
        },
    };
    let ghost batch = batch_shape@;
    let m = left_shape[left_shape.len() - 2];
    let k = left_shape[left_shape.len() - 1];
    let k_right = right_shape[right_shape.len() - 2];
    let n = right_shape[right_shape.len() - 1];
    if k != k_right {
        let mut message = String::from_str("matmul inner dimensions must match, got ");
        push_dims(&mut message, left_shape);
        message.append(" and ");
        push_dims(&mut message, right_shape);
        return Err(TensorError::Shape(message));
    }
    let batch_count = match checked_numel(batch_shape.as_slice()) {
        Ok(c) => c,
        Err(e) => {
            return Err(e);
        },
    };
    let left_matrix_len = match m.checked_mul(k) {
        Some(v) => v,
        None => {
            return Err(product_overflow("matmul left matrix size overflows: ", m, k));
        },
    };
    let right_matrix_len = match k.checked_mul(n) {
        Some(v) => v,
        None => {
            return Err(product_overflow("matmul right matrix size overflows: ", k, n));
        },
    };
    let output_matrix_len = match m.checked_mul(n) {
        Some(v) => v,
        None => {
            return Err(product_overflow("matmul output matrix size overflows: ", m, n));
        },
    };
    let output_len = match batch_count.checked_mul(output_matrix_len) {
        Some(v) => v,
        None => {
            return Err(product_overflow("matmul batched output size overflows: ", batch_count, output_matrix_len));
        },
    };
    proof {
        assert(batch.take(batch.len() as int) =~= batch);
        assert(product(batch) <= usize::MAX);
        assert(l.take(l.len() - 2) == left_batch@);
        assert(product(left_batch@) <= usize::MAX);
        assert(product(right_batch@) <= usize::MAX);
        lemma_broadcast_commutative(left_batch@, right_batch@);
    }
    let indices = for_each_index(batch_shape.as_slice());
    let mut batches: Vec<MatmulBatchRange> = Vec::new();
    let mut i: usize = 0;
    while i < indices.len()
        invariant
            i <= indices@.len(),
            l == left_shape@,
            r == right_shape@,
            batch == batch_shape@,
            batch == matmul_batch_shape(l, r),
            left_batch@ == batch_dims(l),
            right_batch@ == batch_dims(r),
            l.len() >= 2 && r.len() >= 2,
            matmul_shapes_ok(l, r),
            shapes_broadcastable(left_batch@, right_batch@),
            shapes_broadcastable(right_batch@, left_batch@),
            broadcast_spec(right_batch@, left_batch@) == batch,
            product(left_batch@) <= usize::MAX,
            product(right_batch@) <= usize::MAX,
            product(batch) <= usize::MAX,
            left_matrix_len == l[l.len() - 2] * l[l.len() - 1],
            right_matrix_len == r[r.len() - 2] * r[r.len() - 1],
            forall|j: int|
                0 <= j < indices@.len() ==> index_in_bounds(#[trigger] indices@[j]@, batch) && dot(
                    indices@[j]@,
                    contiguous_strides_spec(batch),
                ) == j,
            batches@.len() == i,
            forall|j: int| 0 <= j < i ==> #[trigger] batch_ok_at(indices@, batches@, j, l, r, left_len as nat, right_len as nat),
        decreases indices@.len() - i,
    {
        let range = match batch_operand_range(
            &indices[i],
            &batch_shape,
            &left_batch,
            &right_batch,
            left_matrix_len,
            right_matrix_len,
            left_len,
            right_len,
            Ghost(l),
            Ghost(r),
        ) {
            Ok(range) => range,
            Err(e) => {
                proof {
                    let idx = indices@[i as int]@;
                    let strides = contiguous_strides_spec(batch);
                    lemma_batch_fails(idx, l, r, left_len as nat, right_len as nat);
                    assert forall|other: Seq<usize>|
                        index_in_bounds(other, batch) && dot(other, strides) < dot(
                            idx,
                            strides,
                        ) implies #[trigger] batch_fits(other, l, r, left_len as nat, right_len as nat) by {
                        let j = dot(other, strides) as int;
                        assert(index_in_bounds(indices@[j]@, batch) && dot(indices@[j]@, strides) == j);
                        lemma_dot_injective(other, indices@[j]@, batch);
                        assert(batch_ok_at(indices@, batches@, j, l, r, left_len as nat, right_len as nat));
                    }
                    assert(first_unfit_batch(idx, l, r, left_len as nat, right_len as nat));
                }
                return Err(e);
            },
        };
        let ghost before = batches@;
        batches.push(range);
        proof {
            assert(batches@[i as int] == range);
            assert(batch_range(indices@[i as int]@, l, r, range));
            assert(batch_fits(indices@[i as int]@, l, r, left_len as nat, right_len as nat));
            assert forall|j: int| 0 <= j < i + 1 implies #[trigger] batch_ok_at(indices@, batches@, j, l, r, left_len as nat, right_len as nat) by {
                if j < i {
                    assert(batches@[j] == before[j]);
                    assert(batch_ok_at(indices@, before, j, l, r, left_len as nat, right_len as nat));
                }
            }
        }
        i = i + 1;
    }
    proof {
        assert forall|index: Seq<usize>| index_in_bounds(index, batch) implies batch_fits(
            index,
            l,
            r,
            left_len as nat,
            right_len as nat,
        ) by {
            lemma_in_bounds_dot_below_product(index, batch);
            let d = dot(index, contiguous_strides_spec(batch)) as int;
            lemma_in_bounds_no_zero_dim_pub(index, batch);
            assert(indices@.len() == product(batch));
            assert(index_in_bounds(indices@[d]@, batch));
            assert(batch_ok_at(indices@, batches@, d, l, r, left_len as nat, right_len as nat));
            lemma_dot_injective(indices@[d]@, index, batch);
        }
    }
    let mut output_shape = batch_shape.clone();
    assert(output_shape@ == batch);
    output_shape.push(m);
    output_shape.push(n);
    assert(output_shape@ =~= batch + seq![m, n]);
    let ghost batches_view = batches@;
    let ghost indices_view = indices@;
    let plan = MatmulPlan { batch_shape, m, k, n, output_len, batch_indices: indices, batches, output_shape };
    assert forall|b: int| 0 <= b < plan.batches@.len() implies index_in_bounds(
        #[trigger] plan.batch_indices@[b]@,
        matmul_batch_shape(left_shape@, right_shape@),
    ) && dot(
        plan.batch_indices@[b]@,
        contiguous_strides_spec(matmul_batch_shape(left_shape@, right_shape@)),
    ) == b && batch_range(plan.batch_indices@[b]@, left_shape@, right_shape@, plan.batches@[b]) by {
        assert(plan.batches@[b] == batches_view[b]);
        assert(plan.batch_indices@[b] == indices_view[b]);
        assert(batch_ok_at(indices_view, batches_view, b, l, r, left_len as nat, right_len as nat));
    }
    Ok(plan)
}

/// The refusal of output batch `index`: an operand offset or range that
/// overflows `usize`, then one that leaves its operand's data.
pub open spec fn batch_refusal_message(
    index: Seq<usize>,
    left: Seq<usize>,
    right: Seq<usize>,
    left_len: nat,
    right_len: nat,
) -> Seq<char> {
    let batch = matmul_batch_shape(left, right);
    let lm = left[left.len() - 2] * left[left.len() - 1];
    let rm = right[right.len() - 2] * right[right.len() - 1];
    let ls = source_batch(index, batch, batch_dims(left)) * lm;
    let rs = source_batch(index, batch, batch_dims(right)) * rm;
    if ls > usize::MAX {
        "matmul left batch offset overflows usize"@
    } else if rs > usize::MAX {
        "matmul right batch offset overflows usize"@
    } else if ls + lm > usize::MAX {
        "matmul left batch range overflows usize"@
    } else if rs + rm > usize::MAX {
        "matmul right batch range overflows usize"@
    } else if ls + lm > left_len {
        "matmul left batch range "@ + decimal(ls as nat) + ".."@ + decimal((ls + lm) as nat)
            + " exceeds data length "@ + decimal(left_len)
    } else {
        "matmul right batch range "@ + decimal(rs as nat) + ".."@ + decimal((rs + rm) as nat)
            + " exceeds data length "@ + decimal(right_len)
    }
}

/// `index` is the first output batch, in row-major order, that does not fit.
pub open spec fn first_unfit_batch(
    index: Seq<usize>,
    left: Seq<usize>,
    right: Seq<usize>,
    left_len: nat,
    right_len: nat,
) -> bool {
    let batch = matmul_batch_shape(left, right);
    &&& index_in_bounds(index, batch)
    &&& !batch_fits(index, left, right, left_len, right_len)
    &&& forall|other: Seq<usize>|
        index_in_bounds(other, batch) && dot(other, contiguous_strides_spec(batch)) < dot(
            index,
            contiguous_strides_spec(batch),
        ) ==> #[trigger] batch_fits(other, left, right, left_len, right_len)
}

/// The operand ranges of output batch `index`, refused (a shape error) when
/// they overflow or leave the operands' data.
fn batch_operand_range(
    index: &Vec<usize>,
    batch_shape: &Vec<usize>,
    left_batch: &Vec<usize>,
    right_batch: &Vec<usize>,
    left_matrix_len: usize,
    right_matrix_len: usize,
    left_len: usize,
    right_len: usize,
    Ghost(l): Ghost<Seq<usize>>,
    Ghost(r): Ghost<Seq<usize>>,
) -> (res: Result<MatmulBatchRange>)
    requires
        l.len() >= 2 && r.len() >= 2,
        batch_shape@ == matmul_batch_shape(l, r),
        left_batch@ == batch_dims(l),
        right_batch@ == batch_dims(r),
        shapes_broadcastable(left_batch@, right_batch@),
        shapes_broadcastable(right_batch@, left_batch@),
        broadcast_spec(right_batch@, left_batch@) == batch_shape@,
        product(left_batch@) <= usize::MAX,
        product(right_batch@) <= usize::MAX,
        left_matrix_len == l[l.len() - 2] * l[l.len() - 1],
        right_matrix_len == r[r.len() - 2] * r[r.len() - 1],
        index_in_bounds(index@, batch_shape@),
    ensures
        res is Ok <==> batch_fits(index@, l, r, left_len as nat, right_len as nat),
        res matches Ok(range) ==> batch_range(index@, l, r, range),
        res matches Err(e) ==> e is Shape && e.message_spec() == batch_refusal_message(
            index@,
            l,
            r,
            left_len as nat,
            right_len as nat,
        ),
{
    let ghost batch = batch_shape@;
    let ghost idx = index@;
    proof {
        lemma_broadcast_source_in_bounds(idx, left_batch@, right_batch@);
        lemma_broadcast_source_in_bounds(idx, right_batch@, left_batch@);
        lemma_in_bounds_dot_below_product(broadcast_source_index(idx, batch, left_batch@), left_batch@);
        lemma_in_bounds_dot_below_product(broadcast_source_index(idx, batch, right_batch@), right_batch@);
    }
    let lb = broadcast_flat_index(index.as_slice(), batch_shape.as_slice(), left_batch.as_slice());
    let rb = broadcast_flat_index(index.as_slice(), batch_shape.as_slice(), right_batch.as_slice());
    assert(lb == source_batch(idx, batch, batch_dims(l)));
    assert(rb == source_batch(idx, batch, batch_dims(r)));
    let left_start = match lb.checked_mul(left_matrix_len) {
        Some(v) => v,
        None => {
            return Err(shape_error("matmul left batch offset overflows usize"));
        },
    };
    let right_start = match rb.checked_mul(right_matrix_len) {
        Some(v) => v,
        None => {
            return Err(shape_error("matmul right batch offset overflows usize"));
        },
    };
    let left_end = match left_start.checked_add(left_matrix_len) {
        Some(v) => v,
        None => {
            return Err(shape_error("matmul left batch range overflows usize"));
        },
    };
    let right_end = match right_start.checked_add(right_matrix_len) {
        Some(v) => v,
        None => {
            return Err(shape_error("matmul right batch range overflows usize"));
        },
    };
    if left_end > left_len {
        let mut message = String::new();
        push_number(&mut message, "matmul left batch range ", left_start as u64);
        push_number(&mut message, "..", left_end as u64);
        push_number(&mut message, " exceeds data length ", left_len as u64);
        return Err(TensorError::Shape(message));
    }
    if right_end > right_len {
        let mut message = String::new();
        push_number(&mut message, "matmul right batch range ", right_start as u64);
        push_number(&mut message, "..", right_end as u64);
        push_number(&mut message, " exceeds data length ", right_len as u64);
        return Err(TensorError::Shape(message));
    }
    Ok(MatmulBatchRange { left_start, left_end, right_start, right_end })
}

/// Output batch `j` fits and `ranges[j]` holds its operand ranges.
pub open spec fn batch_ok_at(
    indices: Seq<Vec<usize>>,
    ranges: Seq<MatmulBatchRange>,
    j: int,
    l: Seq<usize>,
    r: Seq<usize>,
    left_len: nat,
    right_len: nat,
) -> bool {
    batch_fits(indices[j]@, l, r, left_len, right_len) && batch_range(indices[j]@, l, r, ranges[j])
}

proof fn lemma_batch_fails(index: Seq<usize>, l: Seq<usize>, r: Seq<usize>, left_len: nat, right_len: nat)
    requires
        index_in_bounds(index, matmul_batch_shape(l, r)),
        !batch_fits(index, l, r, left_len, right_len),
    ensures
        !(forall|idx: Seq<usize>|
            index_in_bounds(idx, matmul_batch_shape(l, r)) ==> batch_fits(idx, l, r, left_len, right_len)),
{
}

proof fn lemma_in_bounds_no_zero_dim_pub(index: Seq<usize>, shape: Seq<usize>)
    requires
        index_in_bounds(index, shape),
    ensures
        !has_zero_dim(shape),
{
    if has_zero_dim(shape) {
        let e = choose|e: int| 0 <= e < shape.len() && #[trigger] shape[e] == 0;
        assert(index[e] < shape[e]);
    }
}

// ---------------------------------------------------------------------------
// Broadcast elementwise planning
// ---------------------------------------------------------------------------

/// Output shape of a broadcast elementwise operation and, for each output
/// position in row-major order, its index and the flat positions it reads
/// in the left and right inputs.
#[derive(Clone, Debug)]
pub struct BroadcastPlan {
    pub shape: Vec<usize>,
    pub indices: Vec<Vec<usize>>,
    pub sources: Vec<(usize, usize)>,
}

/// Plans a broadcast elementwise operation on inputs of the given shapes.
/// Refused, as a shape error, when the shapes do not broadcast or the
/// output's element count overflows.
pub fn plan_broadcast(left_shape: &[usize], right_shape: &[usize]) -> (res: Result<BroadcastPlan>)
    requires
        prefix_products_fit(left_shape@),
        prefix_products_fit(right_shape@),
    ensures
        res is Ok <==> shapes_broadcastable(left_shape@, right_shape@) && prefix_products_fit(
            broadcast_spec(left_shape@, right_shape@),
        ),
        res matches Err(e) ==> e is Shape,
        res matches Ok(plan) ==> plan.shape@ == broadcast_spec(left_shape@, right_shape@),
        res matches Ok(plan) ==> plan.indices@.len() == plan.sources@.len() && plan.sources@.len() == (
        if has_zero_dim(plan.shape@) {
            0
        } else {
            product(plan.shape@)
        }),
        res matches Ok(plan) ==> forall|i: int|
            0 <= i < plan.sources@.len() ==> index_in_bounds(#[trigger] plan.indices@[i]@, plan.shape@) && dot(
                plan.indices@[i]@,
                contiguous_strides_spec(plan.shape@),
            ) == i && plan.sources@[i].0 == source_batch(plan.indices@[i]@, plan.shape@, left_shape@)
                && plan.sources@[i].1 == source_batch(plan.indices@[i]@, plan.shape@, right_shape@),
{
    let shape = match broadcast_shapes(left_shape, right_shape) {
        Ok(s) => s,
        Err(e) => {
            return Err(e);
        },
    };
    let ghost out = shape@;
    proof {
        assert(out.take(out.len() as int) =~= out);
        assert(left_shape@.take(left_shape@.len() as int) =~= left_shape@);
        assert(right_shape@.take(right_shape@.len() as int) =~= right_shape@);
        lemma_broadcast_commutative(left_shape@, right_shape@);
    }
    let indices = for_each_index(shape.as_slice());
    let mut sources: Vec<(usize, usize)> = Vec::new();
    let mut i: usize = 0;
    while i < indices.len()
        invariant
            i <= indices@.len(),
            out == shape@,
            out == broadcast_spec(left_shape@, right_shape@),
            out == broadcast_spec(right_shape@, left_shape@),
            shapes_broadcastable(left_shape@, right_shape@),
            shapes_broadcastable(right_shape@, left_shape@),
            product(left_shape@) <= usize::MAX,
            product(right_shape@) <= usize::MAX,
            forall|j: int|
                0 <= j < indices@.len() ==> index_in_bounds(#[trigger] indices@[j]@, out) && dot(
                    indices@[j]@,
                    contiguous_strides_spec(out),
                ) == j,
            sources@.len() == i,
            forall|j: int|
                0 <= j < i ==> (#[trigger] sources@[j]).0 == source_batch(indices@[j]@, out, left_shape@)
                    && sources@[j].1 == source_batch(indices@[j]@, out, right_shape@),
        decreases indices@.len() - i,
    {
        let index = &indices[i];
        proof {
            let idx = indices@[i as int]@;
            lemma_broadcast_source_in_bounds(idx, left_shape@, right_shape@);
            lemma_broadcast_source_in_bounds(idx, right_shape@, left_shape@);
            lemma_in_bounds_dot_below_product(broadcast_source_index(idx, out, left_shape@), left_shape@);
            lemma_in_bounds_dot_below_product(broadcast_source_index(idx, out, right_shape@), right_shape@);
        }
        let left = broadcast_flat_index(index.as_slice(), shape.as_slice(), left_shape);
        let right = broadcast_flat_index(index.as_slice(), shape.as_slice(), right_shape);
        sources.push((left, right));
        i = i + 1;
    }
    let ghost indices_view = indices@;
    let ghost sources_view = sources@;
    let plan = BroadcastPlan { shape, indices, sources };
    assert forall|i: int| 0 <= i < plan.sources@.len() implies index_in_bounds(
        #[trigger] plan.indices@[i]@,
        plan.shape@,
    ) && dot(plan.indices@[i]@, contiguous_strides_spec(plan.shape@)) == i && plan.sources@[i].0
        == source_batch(plan.indices@[i]@, plan.shape@, left_shape@) && plan.sources@[i].1 == source_batch(
        plan.indices@[i]@,
        plan.shape@,
        right_shape@,
    ) by {
        assert(plan.indices@[i] == indices_view[i]);
        assert(plan.sources@[i] == sources_view[i]);
    }
    Ok(plan)
}

} // verus!
