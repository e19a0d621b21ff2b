use heirloom::dispatch::{
    operator_catalog, resolve_argmax_last_dim, resolve_binary, resolve_causal_self_attention,
    resolve_embedding, resolve_layer_norm_last_dim, resolve_masked_fill, resolve_matmul,
    resolve_reduction, resolve_unary, BinaryOp, Operator, TensorMeta,
};
use heirloom::{DType, Device};
use std::collections::HashSet;

#[test]
fn operator_catalog_has_unique_names_and_operators() {
    let mut names = HashSet::new();
    let mut operators = HashSet::new();
    for schema in operator_catalog() {
        assert!(names.insert(schema.name), "duplicate name {}", schema.name);
        assert!(
            operators.insert(schema.operator),
            "duplicate operator {:?}",
            schema.operator
        );
    }
    assert_eq!(operator_catalog().len(), 18);
}

#[test]
fn binary_resolution_promotes_and_rejects_bool_edges() {
    let cpu_f32 = TensorMeta::new(DType::F32, Device::Cpu);
    let cpu_f64 = TensorMeta::new(DType::F64, Device::Cpu);
    let cpu_i64 = TensorMeta::new(DType::I64, Device::Cpu);
    let cpu_bool = TensorMeta::new(DType::Bool, Device::Cpu);

    assert_eq!(
        resolve_binary(BinaryOp::Add, cpu_f32, cpu_f64)
            .unwrap()
            .output_dtype,
        DType::F64
    );
    assert_eq!(
        resolve_binary(BinaryOp::Mul, cpu_i64, cpu_i64)
            .unwrap()
            .output_dtype,
        DType::I64
    );
    assert_eq!(
        resolve_binary(BinaryOp::Div, cpu_i64, cpu_i64)
            .unwrap()
            .output_dtype,
        DType::F64
    );
    assert!(resolve_binary(BinaryOp::Div, cpu_bool, cpu_bool).is_err());
}

#[test]
fn floating_only_resolution_rejects_integer_matmul_and_relu() {
    let cpu_i64 = TensorMeta::new(DType::I64, Device::Cpu);
    assert!(resolve_matmul(cpu_i64, cpu_i64).is_err());
    assert!(resolve_unary(Operator::Relu, cpu_i64).is_err());
    assert!(resolve_unary(Operator::Gelu, cpu_i64).is_err());
}

#[test]
fn reduction_resolution_matches_prototype_dtype_rules() {
    let cpu_bool = TensorMeta::new(DType::Bool, Device::Cpu);
    assert_eq!(
        resolve_reduction(Operator::Sum, cpu_bool)
            .unwrap()
            .output_dtype,
        DType::I64
    );
    assert_eq!(
        resolve_reduction(Operator::Mean, cpu_bool)
            .unwrap()
            .output_dtype,
        DType::F64
    );
}

#[test]
fn layer_norm_resolution_requires_same_floating_dtype() {
    let cpu_f32 = TensorMeta::new(DType::F32, Device::Cpu);
    let cpu_f64 = TensorMeta::new(DType::F64, Device::Cpu);
    let cpu_i64 = TensorMeta::new(DType::I64, Device::Cpu);

    let resolved = resolve_layer_norm_last_dim(cpu_f32, cpu_f32, cpu_f32).unwrap();
    assert_eq!(resolved.schema.operator, Operator::LayerNormLastDim);
    assert_eq!(resolved.output_dtype, DType::F32);
    assert!(resolve_layer_norm_last_dim(cpu_f32, cpu_f64, cpu_f32).is_err());
    assert!(resolve_layer_norm_last_dim(cpu_i64, cpu_i64, cpu_i64).is_err());
}

#[test]
fn embedding_resolution_separates_index_and_weight_dtype() {
    let cpu_f32 = TensorMeta::new(DType::F32, Device::Cpu);
    let cpu_i64 = TensorMeta::new(DType::I64, Device::Cpu);

    let resolved = resolve_embedding(cpu_i64, cpu_f32).unwrap();
    assert_eq!(resolved.schema.operator, Operator::Embedding);
    assert_eq!(resolved.output_dtype, DType::F32);
    assert!(resolve_embedding(cpu_f32, cpu_f32).is_err());
    assert!(resolve_embedding(cpu_i64, cpu_i64).is_err());
}

#[test]
fn masked_fill_resolution_preserves_input_dtype_and_requires_bool_mask() {
    let cpu_f32 = TensorMeta::new(DType::F32, Device::Cpu);
    let cpu_i64 = TensorMeta::new(DType::I64, Device::Cpu);
    let cpu_bool = TensorMeta::new(DType::Bool, Device::Cpu);

    let resolved = resolve_masked_fill(cpu_i64, cpu_bool).unwrap();
    assert_eq!(resolved.schema.operator, Operator::MaskedFill);
    assert_eq!(resolved.output_dtype, DType::I64);
    assert!(resolve_masked_fill(cpu_f32, cpu_i64).is_err());
}

#[test]
fn argmax_resolution_returns_indices_and_disables_autograd() {
    let cpu_f32 = TensorMeta::new(DType::F32, Device::Cpu);

    let resolved = resolve_argmax_last_dim(cpu_f32).unwrap();
    assert_eq!(resolved.schema.operator, Operator::ArgmaxLastDim);
    assert_eq!(resolved.output_dtype, DType::I64);
    assert!(!resolved.schema.should_record_autograd(DType::I64, true));
}

#[test]
fn causal_attention_resolution_requires_same_floating_dtype() {
    let cpu_f32 = TensorMeta::new(DType::F32, Device::Cpu);
    let cpu_f64 = TensorMeta::new(DType::F64, Device::Cpu);
    let cpu_i64 = TensorMeta::new(DType::I64, Device::Cpu);

    let resolved = resolve_causal_self_attention(cpu_f32, cpu_f32, cpu_f32).unwrap();
    assert_eq!(resolved.schema.operator, Operator::CausalSelfAttention);
    assert_eq!(resolved.output_dtype, DType::F32);
    assert!(resolve_causal_self_attention(cpu_f32, cpu_f64, cpu_f32).is_err());
    assert!(resolve_causal_self_attention(cpu_i64, cpu_i64, cpu_i64).is_err());
}

#[test]
fn resolution_refusals_name_devices_dtypes_and_rules() {
    let cpu = |dtype| TensorMeta::new(dtype, Device::Cpu);
    let cuda = |dtype, id| TensorMeta::new(dtype, Device::Cuda(id));
    let message = |r: Result<String, heirloom::TensorError>| r.unwrap_err().message().to_string();
    let binary = |op, l, r| resolve_binary(op, l, r).map(|_| String::new());
    let typed = |r: heirloom::Result<heirloom::dispatch::ResolvedTypedOp>| r.map(|_| String::new());

    assert_eq!(format!("{:?}", Device::Cuda(1)), "Cuda(1)");
    assert_eq!(format!("{:?}", DType::BFloat16), "BFloat16");
    assert_eq!(
        message(binary(BinaryOp::Div, cpu(DType::Bool), cpu(DType::Bool))),
        "aten.div does not support Div for bool tensors"
    );
    assert_eq!(
        message(binary(BinaryOp::Add, cpu(DType::F32), cuda(DType::F32, 1))),
        "expected matching devices, got Cpu and Cuda(1)"
    );
    assert_eq!(
        message(binary(BinaryOp::Add, cuda(DType::F32, 0), cuda(DType::F32, 0))),
        "aten.add has no registered CUDA kernel yet for device Cuda(0); copy explicitly to CPU or implement the CUDA kernel path"
    );
    assert_eq!(
        message(resolve_matmul(cpu(DType::F32), cpu(DType::I64)).map(|_| String::new())),
        "matmul requires floating tensors, got I64"
    );
    assert_eq!(
        message(resolve_unary(Operator::Sum, cpu(DType::F32)).map(|_| String::new())),
        "aten.sum cannot be resolved as a unary op with dtype rule SumReduction"
    );
    assert_eq!(
        message(resolve_unary(Operator::Relu, cpu(DType::Bool)).map(|_| String::new())),
        "aten.relu requires floating tensors, got Bool"
    );
    assert_eq!(
        message(resolve_reduction(Operator::Relu, cpu(DType::F32)).map(|_| String::new())),
        "aten.relu cannot be resolved as a reduction with dtype rule PreserveFloating"
    );
    assert_eq!(
        message(typed(resolve_layer_norm_last_dim(cpu(DType::F32), cpu(DType::F64), cpu(DType::F32)))),
        "aten.layer_norm.last_dim expected matching dtypes, got F32 and F64"
    );
    assert_eq!(
        message(typed(resolve_causal_self_attention(cpu(DType::F32), cpu(DType::F32), cuda(DType::F32, 3)))),
        "expected matching devices, got Cpu and Cuda(3)"
    );
    assert_eq!(
        message(typed(resolve_causal_self_attention(cpu(DType::I64), cpu(DType::I64), cpu(DType::I64)))),
        "heirloom.causal_self_attention requires floating tensors, got I64"
    );
    assert_eq!(
        message(typed(resolve_embedding(cpu(DType::F32), cpu(DType::F32)))),
        "aten.embedding indices expected dtype I64, got F32"
    );
    assert_eq!(
        message(typed(resolve_embedding(cpu(DType::I64), cpu(DType::I64)))),
        "embedding weight requires floating tensors, got I64"
    );
    assert_eq!(
        message(typed(resolve_masked_fill(cpu(DType::F32), cpu(DType::I64)))),
        "aten.masked_fill mask expected dtype Bool, got I64"
    );
    assert_eq!(
        message(typed(resolve_argmax_last_dim(cuda(DType::F32, 2)))),
        "aten.argmax.last_dim has no registered CUDA kernel yet for device Cuda(2); copy explicitly to CPU or implement the CUDA kernel path"
    );
}
