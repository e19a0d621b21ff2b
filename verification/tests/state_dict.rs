use heirloom::state_dict::{
    parse_state_manifest, sanitize_state_name, state_dict_layout, state_file_name, state_files_for,
};
use heirloom::TensorError;

fn strings(list: &[&str]) -> Vec<String> {
    list.iter().map(|s| s.to_string()).collect()
}

fn pairs(list: &[(&str, &str)]) -> Vec<(String, String)> {
    list.iter().map(|(a, b)| (a.to_string(), b.to_string())).collect()
}

#[test]
fn state_names_keep_only_safe_characters() {
    assert_eq!(sanitize_state_name("block.0.attn-qkv_weight"), "block_0_attn-qkv_weight");
    assert_eq!(sanitize_state_name("é/x"), "__x");
    assert_eq!(sanitize_state_name(""), "");
}

#[test]
fn state_files_are_numbered_with_four_digits() {
    assert_eq!(state_file_name(7, "lm_head.weight"), "0007_lm_head_weight.npy");
    assert_eq!(state_file_name(12345, "w"), "12345_w.npy");
    assert_eq!(state_file_name(0, ""), "0000_.npy");
}

#[test]
fn layout_lists_each_parameter_once_in_order() {
    let layout = state_dict_layout(&strings(&["embed.weight", "head.bias"]));
    assert_eq!(layout.file_names, strings(&["0000_embed_weight.npy", "0001_head_bias.npy"]));
    assert_eq!(
        layout.manifest,
        "embed.weight\t0000_embed_weight.npy\nhead.bias\t0001_head_bias.npy\n"
    );
}

#[test]
fn manifest_lines_split_at_the_first_tab() {
    let entries = parse_state_manifest("a\tx.npy\r\n\n  \nb\tc\td.npy").unwrap();
    assert_eq!(entries, pairs(&[("a", "x.npy"), ("b", "c\td.npy")]));
    assert!(matches!(parse_state_manifest("a\tx\nbroken\n"), Err(TensorError::Io(_))));
    assert_eq!(parse_state_manifest("").unwrap(), Vec::new());
}

#[test]
fn written_manifest_reads_back_and_matches() {
    let names = strings(&["embed.weight", "block.0.ln.gamma", "head.bias"]);
    let layout = state_dict_layout(&names);
    let entries = parse_state_manifest(&layout.manifest).unwrap();
    let files = state_files_for(&names, &entries).unwrap();
    assert_eq!(files, layout.file_names);
}

#[test]
fn manifest_matching_refuses_missing_and_unexpected_parameters() {
    let entries = pairs(&[("a", "1.npy"), ("b", "2.npy"), ("a", "3.npy")]);
    assert_eq!(
        state_files_for(&strings(&["b", "a"]), &entries),
        Ok(strings(&["2.npy", "3.npy"]))
    );
    assert!(matches!(
        state_files_for(&strings(&["a", "b", "c"]), &entries),
        Err(TensorError::InvalidOperation(_))
    ));
    assert!(matches!(
        state_files_for(&strings(&["a"]), &entries),
        Err(TensorError::InvalidOperation(_))
    ));
}

#[test]
fn manifest_refusal_names_the_line() {
    let err = heirloom::state_dict::parse_state_manifest("a\tb\r\n\n  \nbad line\nc\td\n").unwrap_err();
    assert_eq!(err.message(), "invalid state manifest line 4: expected name<TAB>filename");
    let err = heirloom::state_dict::parse_state_manifest("nothing").unwrap_err();
    assert_eq!(err.message(), "invalid state manifest line 1: expected name<TAB>filename");
}
