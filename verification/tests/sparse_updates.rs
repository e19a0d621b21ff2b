use heirloom::memory_transformer::{
    lookup_kernel_path, validate_token_input_shape, CapturedSelection, MemoryLookupKind,
    MemoryTransformerConfig, MemoryUpdatePolicy, SmftMode,
};
use heirloom::memory_updates::{
    memory_sparse_adamw_updates, memory_sparse_adamw_updates_with_mask, product_key_half_rows,
};
use heirloom::optim::{
    active_sparse_update_rows, validate_compact_row_updates, validate_optimizer_parameter_indices,
    validate_sparse_row_parameter_shape, validate_sparse_row_updates, SparseAdamWCompactRowsUpdate,
    SparseAdamWRowsUpdate,
};
use heirloom::dispatch::TensorMeta;
use heirloom::{DType, Device, TensorError};

fn names(list: &[&str]) -> Vec<String> {
    list.iter().map(|s| s.to_string()).collect()
}

fn small_config() -> MemoryTransformerConfig {
    let mut config = MemoryTransformerConfig::tiny(32);
    config.block_size = 4;
    config.n_layers = 2;
    config.d_model = 8;
    config.n_heads = 2;
    config.ff_hidden = 16;
    config.memory_layer_indices = vec![1];
    config.memory_slots = 8;
    config.memory_key_dim = 4;
    config.memory_value_dim = 8;
    config.memory_top_k = 2;
    config.memory_update_policy = MemoryUpdatePolicy::SparseRows;
    config.smft_mode = SmftMode::MaskedMemoryRows;
    config
}

fn captured(block_index: usize, rows: Vec<i64>) -> CapturedSelection {
    CapturedSelection { block_index, rows, device: Device::Cpu }
}

fn update(parameter_index: usize, rows: Vec<i64>, mask: Option<Vec<bool>>, table_rows: usize) -> SparseAdamWRowsUpdate {
    SparseAdamWRowsUpdate {
        parameter_index,
        selected_rows: rows,
        row_mask: mask,
        rows: table_rows,
        row_dim: 4,
        device: Device::Cpu,
    }
}

#[test]
fn shared_exact_memory_updates_key_and_value_with_every_captured_row() {
    let config = small_config();
    let named = names(&["embed", "shared_memory.key", "shared_memory.value", "head"]);
    let captured = vec![captured(1, vec![3, 1]), captured(1, vec![1, 7])];
    let updates = memory_sparse_adamw_updates(&config, &named, &captured, Device::Cpu).unwrap();
    assert_eq!(updates.len(), 2);
    assert_eq!(updates[0].parameter_index, 1);
    assert_eq!(updates[0].selected_rows, vec![3, 1, 1, 7]);
    assert_eq!(updates[0].rows, 8);
    assert_eq!(updates[0].row_dim, 4);
    assert_eq!(updates[1].parameter_index, 2);
    assert_eq!(updates[1].row_dim, 8);
    assert!(updates.iter().all(|u| u.row_mask.is_none()));
}

#[test]
fn frozen_or_uncaptured_memory_yields_no_updates() {
    let mut config = small_config();
    let named = names(&["shared_memory.key", "shared_memory.value"]);
    assert!(memory_sparse_adamw_updates(&config, &named, &[], Device::Cpu).unwrap().is_empty());
    config.memory_update_policy = MemoryUpdatePolicy::Frozen;
    let captured = vec![captured(1, vec![0])];
    assert!(memory_sparse_adamw_updates(&config, &named, &captured, Device::Cpu).unwrap().is_empty());
}

#[test]
fn per_layer_memory_updates_follow_captured_layers() {
    let mut config = small_config();
    config.shared_memory = false;
    config.memory_layer_indices = vec![0, 1];
    let named = names(&[
        "block.0.feed_forward.memory.memory.key",
        "block.0.feed_forward.memory.memory.value",
        "block.1.feed_forward.memory.memory.key",
        "block.1.feed_forward.memory.memory.value",
    ]);
    let captured = vec![captured(1, vec![2]), captured(0, vec![5, 6])];
    let updates = memory_sparse_adamw_updates(&config, &named, &captured, Device::Cpu).unwrap();
    let indices: Vec<usize> = updates.iter().map(|u| u.parameter_index).collect();
    assert_eq!(indices, vec![2, 3, 0, 1]);
    assert_eq!(updates[2].selected_rows, vec![5, 6]);
}

#[test]
fn missing_memory_table_is_an_invalid_operation() {
    let config = small_config();
    let named = names(&["shared_memory.key"]);
    let captured = vec![captured(1, vec![0])];
    assert!(matches!(
        memory_sparse_adamw_updates(&config, &named, &captured, Device::Cpu),
        Err(TensorError::InvalidOperation(_))
    ));
}

#[test]
fn product_key_updates_split_slots_into_half_rows() {
    let mut config = small_config();
    config.memory_lookup = MemoryLookupKind::ProductKey;
    config.memory_slots = 4;
    let named = names(&[
        "shared_memory.product_key_left",
        "shared_memory.product_key_right",
        "shared_memory.value",
    ]);
    let captured = vec![captured(1, vec![0, 3, 2])];
    let updates = memory_sparse_adamw_updates(&config, &named, &captured, Device::Cpu).unwrap();
    assert_eq!(updates.len(), 3);
    assert_eq!(updates[0].selected_rows, vec![0, 1, 1]);
    assert_eq!(updates[1].selected_rows, vec![0, 1, 0]);
    assert_eq!(updates[0].rows, 2);
    assert_eq!(updates[0].row_dim, 2);
    assert_eq!(updates[2].selected_rows, vec![0, 3, 2]);
    assert_eq!(updates[2].rows, 4);
}

#[test]
fn half_rows_reject_slots_off_the_grid() {
    assert_eq!(product_key_half_rows(&[5, 8], 3).unwrap(), (vec![1, 2], vec![2, 2]));
    assert!(product_key_half_rows(&[9], 3).is_err());
    assert!(product_key_half_rows(&[-1], 3).is_err());
    assert!(product_key_half_rows(&[0], 0).is_err());
}

#[test]
fn supplied_row_mask_is_attached_to_every_shared_update() {
    let config = small_config();
    let named = names(&["shared_memory.key", "shared_memory.value"]);
    let captured = vec![captured(1, vec![1, 2])];
    let updates =
        memory_sparse_adamw_updates_with_mask(&config, &named, &captured, Device::Cpu, 8, &[1, 3], 6)
            .unwrap();
    assert_eq!(updates.len(), 2);
    let expected = vec![false, true, false, true, false, false, false, false];
    assert_eq!(updates[0].row_mask.as_ref(), Some(&expected));
    assert_eq!(updates[1].row_mask.as_ref(), Some(&expected));
}

#[test]
fn product_key_mask_projects_onto_half_key_tables() {
    let mut config = small_config();
    config.memory_lookup = MemoryLookupKind::ProductKey;
    config.memory_slots = 4;
    let named = names(&[
        "shared_memory.product_key_left",
        "shared_memory.product_key_right",
        "shared_memory.value",
    ]);
    let captured = vec![captured(1, vec![0, 1])];
    let updates =
        memory_sparse_adamw_updates_with_mask(&config, &named, &captured, Device::Cpu, 4, &[0, 1], 2)
            .unwrap();
    assert_eq!(updates.len(), 3);
    assert_eq!(updates[0].row_mask, Some(vec![true, false]));
    assert_eq!(updates[1].row_mask, Some(vec![false, false]));
    assert_eq!(updates[2].row_mask, Some(vec![true, true, false, false]));
}

#[test]
fn mismatched_or_inconsistent_masks_are_refused() {
    let config = small_config();
    let named = names(&["shared_memory.key", "shared_memory.value"]);
    let captured = vec![captured(1, vec![1])];
    let run = |slots: usize, rows: &[usize], frozen: usize| {
        memory_sparse_adamw_updates_with_mask(&config, &named, &captured, Device::Cpu, slots, rows, frozen)
    };
    assert!(matches!(run(4, &[1], 3), Err(TensorError::InvalidOperation(_))));
    assert!(matches!(run(8, &[1, 1], 6), Err(TensorError::InvalidOperation(_))));
    assert!(matches!(run(8, &[1], 6), Err(TensorError::InvalidOperation(_))));
    assert!(run(8, &[1], 7).is_ok());
}

#[test]
fn optimizer_parameter_subsets_must_be_distinct_and_in_range() {
    assert_eq!(validate_optimizer_parameter_indices(&[2, 0], 3), Ok(vec![2, 0]));
    assert!(matches!(
        validate_optimizer_parameter_indices(&[3], 3),
        Err(TensorError::InvalidOperation(_))
    ));
    assert!(matches!(
        validate_optimizer_parameter_indices(&[1, 1], 3),
        Err(TensorError::InvalidOperation(_))
    ));
}

#[test]
fn sparse_row_updates_are_checked_in_order() {
    let good = vec![update(0, vec![1], None, 4), update(2, vec![0], Some(vec![true; 4]), 4)];
    assert_eq!(validate_sparse_row_updates(3, &good), Ok(()));
    let bad_mask = vec![update(0, vec![1], Some(vec![true; 3]), 4)];
    assert!(matches!(validate_sparse_row_updates(3, &bad_mask), Err(TensorError::Shape(_))));
    let duplicate = vec![update(1, vec![1], None, 4), update(1, vec![2], Some(vec![true]), 4)];
    assert!(matches!(
        validate_sparse_row_updates(3, &duplicate),
        Err(TensorError::InvalidOperation(_))
    ));
    let out_of_range = vec![update(3, vec![1], None, 4)];
    assert!(matches!(
        validate_sparse_row_updates(3, &out_of_range),
        Err(TensorError::InvalidOperation(_))
    ));
}

#[test]
fn active_rows_are_the_masked_selection_in_order() {
    let u = update(0, vec![3, 1, 3, 0], Some(vec![true, false, true, true]), 4);
    assert_eq!(active_sparse_update_rows(&u), Ok(vec![0, 3]));
    let unmasked = update(0, vec![2, 2, 1], None, 4);
    assert_eq!(active_sparse_update_rows(&unmasked), Ok(vec![1, 2]));
    let negative = update(0, vec![-1], None, 4);
    assert!(matches!(active_sparse_update_rows(&negative), Err(TensorError::InvalidOperation(_))));
    let too_big = update(0, vec![4], None, 4);
    assert!(matches!(active_sparse_update_rows(&too_big), Err(TensorError::InvalidOperation(_))));
    let mut on_gpu = update(0, vec![1], None, 4);
    on_gpu.device = Device::Cuda(0);
    assert!(matches!(active_sparse_update_rows(&on_gpu), Err(TensorError::Device(_))));
}

#[test]
fn sparse_parameter_shape_must_match_the_update() {
    let u = update(0, vec![1], None, 4);
    assert_eq!(validate_sparse_row_parameter_shape(&[4, 4], 16, 16, 16, &u), Ok(()));
    assert!(matches!(
        validate_sparse_row_parameter_shape(&[4, 3], 12, 12, 12, &u),
        Err(TensorError::Shape(_))
    ));
    assert!(matches!(
        validate_sparse_row_parameter_shape(&[4, 4], 16, 15, 16, &u),
        Err(TensorError::InvalidOperation(_))
    ));
}

#[test]
fn compact_updates_check_shape_device_and_dtype() {
    let compact = |grad_shape: Vec<usize>, device: Device, dtype: DType| SparseAdamWCompactRowsUpdate {
        parameter_index: 0,
        selected_rows: vec![1, 2],
        selected_rows_device: Device::Cuda(0),
        compact_grad_shape: grad_shape,
        compact_grad: TensorMeta { dtype, device },
        rows: 8,
        row_dim: 4,
    };
    assert_eq!(validate_compact_row_updates(1, &[compact(vec![2, 4], Device::Cuda(0), DType::F32)]), Ok(()));
    assert!(matches!(
        validate_compact_row_updates(1, &[compact(vec![3, 4], Device::Cuda(0), DType::F32)]),
        Err(TensorError::Shape(_))
    ));
    assert!(matches!(
        validate_compact_row_updates(1, &[compact(vec![2, 4], Device::Cpu, DType::F32)]),
        Err(TensorError::Device(_))
    ));
    assert!(matches!(
        validate_compact_row_updates(1, &[compact(vec![2, 4], Device::Cuda(0), DType::F64)]),
        Err(TensorError::DType(_))
    ));
    assert!(matches!(
        validate_compact_row_updates(0, &[compact(vec![2, 4], Device::Cuda(0), DType::F32)]),
        Err(TensorError::InvalidOperation(_))
    ));
}

#[test]
fn token_input_and_lookup_kernel_rules() {
    assert_eq!(validate_token_input_shape(&[2, 4], 4), Ok(()));
    assert!(matches!(validate_token_input_shape(&[2, 5], 4), Err(TensorError::Shape(_))));
    assert!(matches!(validate_token_input_shape(&[8], 4), Err(TensorError::Shape(_))));
    assert_eq!(
        lookup_kernel_path(Device::Cpu, MemoryLookupKind::ProductKey),
        "cpu_product_key_candidate_topk_memory_lookup"
    );
    assert_eq!(
        lookup_kernel_path(Device::Cuda(1), MemoryLookupKind::Exact),
        "cuda_exact_topk_memory_lookup"
    );
}

#[test]
fn model_updates_pass_the_optimizer_checks() {
    let mut config = small_config();
    config.shared_memory = false;
    config.memory_layer_indices = vec![0, 1];
    config.memory_lookup = MemoryLookupKind::ProductKey;
    config.memory_slots = 4;
    let named = names(&[
        "embed",
        "block.0.feed_forward.memory.memory.product_key_left",
        "block.0.feed_forward.memory.memory.product_key_right",
        "block.0.feed_forward.memory.memory.value",
        "block.1.feed_forward.memory.memory.product_key_left",
        "block.1.feed_forward.memory.memory.product_key_right",
        "block.1.feed_forward.memory.memory.value",
    ]);
    let captured = vec![captured(0, vec![0, 3]), captured(1, vec![2])];
    let plain = memory_sparse_adamw_updates(&config, &named, &captured, Device::Cpu).unwrap();
    assert_eq!(plain.len(), 6);
    assert_eq!(validate_sparse_row_updates(named.len(), &plain), Ok(()));
    let masked =
        memory_sparse_adamw_updates_with_mask(&config, &named, &captured, Device::Cpu, 4, &[0, 2], 2)
            .unwrap();
    assert_eq!(validate_sparse_row_updates(named.len(), &masked), Ok(()));
    assert_eq!(masked[0].row_mask, Some(vec![false, false]));
    assert_eq!(masked[1].row_mask, Some(vec![true, false]));
    assert_eq!(masked[2].row_mask, Some(vec![true, false, true, false]));
    assert_eq!(active_sparse_update_rows(&masked[2]), Ok(vec![0]));
}

#[test]
fn sparse_update_refusals_carry_the_values() {
    let err = validate_sparse_row_updates(2, &[update(0, vec![0], None, 4), update(5, vec![0], None, 4)]).unwrap_err();
    assert_eq!(err.message(), "sparse AdamW parameter index 5 is out of range for 2 parameters");
    let err = validate_sparse_row_updates(2, &[update(1, vec![0], None, 4), update(1, vec![0], None, 4)]).unwrap_err();
    assert_eq!(err.message(), "duplicate sparse AdamW update for parameter index 1");
    let err = validate_sparse_row_updates(2, &[update(0, vec![0], Some(vec![true; 3]), 4)]).unwrap_err();
    assert_eq!(err.message(), "sparse AdamW row_mask must be rank-1 with 4 rows, got shape [3]");

    let err = active_sparse_update_rows(&update(0, vec![1, -3, 9], None, 4)).unwrap_err();
    assert_eq!(err.message(), "sparse AdamW selected row -3 must be non-negative");
    let err = active_sparse_update_rows(&update(0, vec![1, 9, -3], None, 4)).unwrap_err();
    assert_eq!(err.message(), "sparse AdamW selected row 9 is out of range for 4 rows");
    let mut on_gpu = update(0, vec![1], None, 4);
    on_gpu.device = Device::Cuda(1);
    let err = active_sparse_update_rows(&on_gpu).unwrap_err();
    assert_eq!(err.message(), "CPU sparse-row AdamW expected CPU selected_rows, got Cuda(1)");

    let err = validate_sparse_row_parameter_shape(&[4, 3], 12, 12, 12, &update(0, vec![1], None, 4)).unwrap_err();
    assert_eq!(err.message(), "sparse AdamW expected parameter shape [4, 4], got [4, 3]");
    let err = validate_sparse_row_parameter_shape(&[4, 4], 16, 16, 15, &update(3, vec![1], None, 4)).unwrap_err();
    assert_eq!(err.message(), "AdamW state shape mismatch for sparse parameter 3");
}

#[test]
fn compact_update_refusals_carry_the_values() {
    let compact = |index: usize, grad_shape: Vec<usize>, device: Device, dtype: DType| SparseAdamWCompactRowsUpdate {
        parameter_index: index,
        selected_rows: vec![1, 2],
        selected_rows_device: Device::Cuda(0),
        compact_grad_shape: grad_shape,
        compact_grad: TensorMeta { dtype, device },
        rows: 8,
        row_dim: 4,
    };
    let ok = compact(0, vec![2, 4], Device::Cuda(0), DType::F32);
    let err = validate_compact_row_updates(1, &[ok.clone(), compact(3, vec![2, 4], Device::Cuda(0), DType::F32)])
        .unwrap_err();
    assert_eq!(err.message(), "compact sparse AdamW parameter index 3 is out of range for 1 parameters");
    let err = validate_compact_row_updates(2, &[ok.clone(), ok.clone()]).unwrap_err();
    assert_eq!(err.message(), "duplicate compact sparse AdamW update for parameter index 0");
    let err = validate_compact_row_updates(1, &[compact(0, vec![2, 5], Device::Cuda(0), DType::F32)]).unwrap_err();
    assert_eq!(err.message(), "compact sparse AdamW compact_grad_rows must have shape [2, 4], got [2, 5]");
    let err = validate_compact_row_updates(1, &[compact(0, vec![2, 4], Device::Cpu, DType::F32)]).unwrap_err();
    assert_eq!(
        err.message(),
        "compact sparse AdamW selected_rows and compact_grad_rows must be on the same device, got Cuda(0) and Cpu"
    );
    let err = validate_compact_row_updates(1, &[compact(0, vec![2, 4], Device::Cuda(0), DType::BFloat16)]).unwrap_err();
    assert_eq!(err.message(), "compact sparse AdamW compact_grad_rows must be f32, got BFloat16");
}

#[test]
fn mask_slot_mismatch_names_both_counts() {
    let config = small_config();
    let named = names(&["shared_memory.key", "shared_memory.value"]);
    let captured = vec![captured(1, vec![1])];
    let err = memory_sparse_adamw_updates_with_mask(&config, &named, &captured, Device::Cpu, 4, &[1], 3).unwrap_err();
    assert_eq!(err.message(), "SMFT mask memory_slots 4 does not match model memory_slots 8");
}
