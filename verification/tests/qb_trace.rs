use heirloom::hash::stable_hash_bytes;
use heirloom::qb_trace::{jsonl_record_count, qb_trace_source};
use heirloom::rank_reports::cuda_runtime_field_names;
use std::io::BufRead;

fn std_record_count(text: &str) -> usize {
    std::io::Cursor::new(text.as_bytes())
        .lines()
        .filter(|line| !line.as_ref().unwrap().trim().is_empty())
        .count()
}

#[test]
fn jsonl_records_are_the_nonblank_lines() {
    let text = "a\n\n  \n{\"x\":1}\r\n\u{3000}\n\r\nlast";
    assert_eq!(jsonl_record_count(text), 3);
    assert_eq!(jsonl_record_count(text), std_record_count(text));
    assert_eq!(jsonl_record_count(""), 0);
    assert_eq!(jsonl_record_count("one\n"), 1);
    assert_eq!(jsonl_record_count("\n\n"), std_record_count("\n\n"));
}

const METADATA: &str = r#"{"actual_count": 2, "dataset_hash": "abc", "executable_records": 5,
  "validation": {"supervised_records": 7, "executable_records": null,
    "split_counts": {"train": 2, "bad": "x"}, "domain_counts": {"tools": 1}, "category_counts": 3}}"#;

#[test]
fn trace_source_reports_counts_hashes_and_metadata() {
    let corpus = "r1\n\nr2\n";
    let source =
        qb_trace_source("v1-hard", "m.json", "c.jsonl", METADATA.as_bytes(), corpus.as_bytes()).unwrap();
    assert_eq!(source.source_id, "vecl_qb.synthetic.v1-hard");
    assert_eq!(source.display_name, "VECL-QB synthetic v1-hard");
    assert!(source.include_in_pretraining);
    assert_eq!(source.path, "c.jsonl");
    assert_eq!(source.metadata_path, "m.json");
    assert_eq!(source.local_records, 2);
    assert_eq!(source.local_bytes, corpus.len());
    assert_eq!(source.content_hash, stable_hash_bytes(corpus.as_bytes()));
    assert_eq!(source.metadata_hash, stable_hash_bytes(METADATA.as_bytes()));
    assert_eq!(source.split_counts, vec![("train".to_string(), 2)]);
    assert_eq!(source.domain_counts, vec![("tools".to_string(), 1)]);
    assert!(source.category_counts.is_empty());
    assert!(source.task_kind_counts.is_empty());
    assert_eq!(source.dataset_hash.as_deref(), Some("abc"));
    assert_eq!(source.executable_records, Some(5));
    assert_eq!(source.supervised_records, Some(7));

    let small = qb_trace_source("v0-small", "m.json", "c.jsonl", b"[]", b"x\n").unwrap();
    assert!(!small.include_in_pretraining);
    assert_eq!(small.local_records, 1);
    assert_eq!(small.executable_records, None);
}

#[test]
fn trace_source_refusals() {
    let err = qb_trace_source("v1", "m.json", "c.jsonl", METADATA.as_bytes(), b"only one\n").unwrap_err();
    assert_eq!(err.message(), "m.json actual_count=2 does not match corpus records=1");

    let parse_error = serde_json::from_slice::<serde_json::Value>(b"{\"a\":").unwrap_err().to_string();
    let err = qb_trace_source("v1", "m.json", "c.jsonl", b"{\"a\":", b"x\n").unwrap_err();
    assert_eq!(err.message(), format!("failed to parse m.json: {parse_error}"));

    let read_error = std::io::Cursor::new(vec![b'a', 0xff]).lines().next().unwrap().unwrap_err().to_string();
    let err = qb_trace_source("v1", "m.json", "c.jsonl", b"{}", &[b'a', 0xff]).unwrap_err();
    assert_eq!(err.message(), format!("failed to read c.jsonl: {read_error}"));
}

#[test]
fn cuda_runtime_fields_keep_their_order() {
    let names = cuda_runtime_field_names();
    assert_eq!(names.len(), 97);
    assert_eq!(&names[..3], &["kernel_launch_calls", "kernel_launch_elements", "kernel_launch_family_elapsed_us"]);
}
