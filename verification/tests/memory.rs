use heirloom::memory_transformer::{
    memory_access_counts, memory_selection_report, memory_table_parameter_indices,
    memory_table_parameter_names, parameter_index_by_name, unique_i64_count, validate_trainable_rows,
    CapturedSelection,
    MemoryAccessCounts, MemoryLookupKind, MemoryTransformerConfig, RowCount,
};
use heirloom::{Device, TensorError};

fn names(list: &[&str]) -> Vec<String> {
    list.iter().map(|s| s.to_string()).collect()
}

#[test]
fn top_row_counts_rank_by_count_then_row() {
    let counts = MemoryAccessCounts::from_row_counts(6, vec![3, 0, 5, 3, 1, 0]).unwrap();
    let top = counts.top_row_counts(3);
    assert_eq!(
        top,
        vec![
            RowCount { row: 2, count: 5 },
            RowCount { row: 0, count: 3 },
            RowCount { row: 3, count: 3 },
        ]
    );
    let all = counts.top_row_counts(10);
    assert_eq!(all.len(), 4);
    assert_eq!(all[3], RowCount { row: 4, count: 1 });
    assert!(counts.top_row_counts(0).is_empty());
}

#[test]
fn unique_count_ignores_repeats() {
    assert_eq!(unique_i64_count(&[]), 0);
    assert_eq!(unique_i64_count(&[4, 4, -1, 4, 7, -1]), 3);
}

#[test]
fn selection_report_summarises_captured_layers() {
    let config = MemoryTransformerConfig::tiny(256);
    let captured = vec![
        CapturedSelection { block_index: 8, rows: vec![1, 2, 2, 5], device: Device::Cuda(1) },
        CapturedSelection { block_index: 16, rows: vec![5, 6], device: Device::Cpu },
    ];
    let report = memory_selection_report(&config, &captured);
    assert_eq!(report.configured_memory_layers, 3);
    assert_eq!(report.captured_memory_layers, 2);
    assert_eq!(report.selected_row_events, 6);
    assert_eq!(report.unique_selected_rows, 4);
    assert_eq!(report.selected_rows_device.as_deref(), Some("cuda:1"));
    assert_eq!(report.memory_top_k, config.memory_top_k);
    assert_eq!(report.layers[0].unique_selected_rows, 3);
    assert_eq!(report.layers[1].selected_rows_device, "cpu");
    let none = memory_selection_report(&config, &[]);
    assert!(none.selected_rows_device.is_none());
    assert_eq!(none.selected_row_events, 0);
}

#[test]
fn access_counts_add_up_every_layer() {
    let captured = vec![
        CapturedSelection { block_index: 0, rows: vec![0, 3, 3], device: Device::Cpu },
        CapturedSelection { block_index: 1, rows: vec![3, 1], device: Device::Cpu },
    ];
    let counts = memory_access_counts(4, &captured).unwrap();
    assert_eq!(counts.row_counts, vec![1, 1, 0, 3]);
    assert_eq!(counts.total_events, 5);
    assert_eq!(counts.unique_rows, 3);
    let bad = vec![CapturedSelection { block_index: 0, rows: vec![4], device: Device::Cpu }];
    assert!(matches!(memory_access_counts(4, &bad), Err(TensorError::InvalidOperation(_))));
}

#[test]
fn memory_table_names_follow_layer_layout() {
    let mut config = MemoryTransformerConfig::tiny(256);
    assert_eq!(
        memory_table_parameter_names(&config),
        names(&["shared_memory.key", "shared_memory.value"])
    );
    config.memory_lookup = MemoryLookupKind::ProductKey;
    assert_eq!(memory_table_parameter_names(&config).len(), 3);
    config.shared_memory = false;
    config.memory_layer_indices = vec![2, 10];
    assert_eq!(
        memory_table_parameter_names(&config),
        names(&[
            "block.2.feed_forward.memory.memory.product_key_left",
            "block.2.feed_forward.memory.memory.product_key_right",
            "block.2.feed_forward.memory.memory.value",
            "block.10.feed_forward.memory.memory.product_key_left",
            "block.10.feed_forward.memory.memory.product_key_right",
            "block.10.feed_forward.memory.memory.value",
        ])
    );
    config.memory_layer_indices = Vec::new();
    assert!(memory_table_parameter_names(&config).is_empty());
}

#[test]
fn memory_table_indices_look_names_up() {
    let config = MemoryTransformerConfig::tiny(256);
    let named = names(&[
        "token_embedding.param_0",
        "shared_memory.key",
        "position_embedding.param_0",
        "shared_memory.value",
        "shared_memory.key",
    ]);
    assert_eq!(memory_table_parameter_indices(&config, &named).unwrap(), vec![1, 3]);
    assert_eq!(parameter_index_by_name(&named, "shared_memory.key").unwrap(), 1);
    assert!(matches!(
        parameter_index_by_name(&named, "lm_head.param_0"),
        Err(TensorError::InvalidOperation(_))
    ));
    let partial = names(&["shared_memory.key"]);
    assert!(memory_table_parameter_indices(&config, &partial).is_err());
}

#[test]
fn trainable_row_masks_are_checked() {
    assert_eq!(validate_trainable_rows(8, &[1, 5, 7], 5), Ok(()));
    assert_eq!(validate_trainable_rows(4, &[], 4), Ok(()));
    assert!(matches!(
        validate_trainable_rows(8, &[1, 8], 6),
        Err(TensorError::InvalidOperation(_))
    ));
    assert!(matches!(
        validate_trainable_rows(8, &[3, 3], 6),
        Err(TensorError::InvalidOperation(_))
    ));
    assert!(matches!(
        validate_trainable_rows(8, &[1, 2], 5),
        Err(TensorError::InvalidOperation(_))
    ));
}

#[test]
fn memory_refusals_carry_the_values() {
    let err = MemoryAccessCounts::from_rows(4, &[1, 2, -7, 9]).unwrap_err();
    assert_eq!(err.message(), "memory access row -7 is out of range for memory_slots 4");
    let err = MemoryAccessCounts::from_rows(4, &[1, 4]).unwrap_err();
    assert_eq!(err.message(), "memory access row 4 is out of range for memory_slots 4");

    let err = parameter_index_by_name(&names(&["a", "b"]), "memory.keys").unwrap_err();
    assert_eq!(err.message(), "memory sparse AdamW could not find parameter named memory.keys");

    let err = heirloom::memory_transformer::product_key_projection(8, &[0, 1], 6).unwrap_err();
    assert_eq!(err.message(), "product-key SMFT mask projection requires square memory_slots, got 8");

    let err = heirloom::memory_transformer::row_mask(3, &vec![0, 2, 5, 7]).unwrap_err();
    assert_eq!(err.message(), "product-key SMFT projected row 5 is out of range for side 3");

    let err = heirloom::memory_transformer::validate_token_input_shape(&[2, 3, 4], 8).unwrap_err();
    assert_eq!(err.message(), "MemoryTransformerLm expects token input [batch, time], got [2, 3, 4]");
    let err = heirloom::memory_transformer::validate_token_input_shape(&[2, 9], 8).unwrap_err();
    assert_eq!(err.message(), "input time 9 exceeds block_size 8");
}
