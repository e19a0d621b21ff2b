//! The local VECL-QB trace corpora of a corpus blend: each is a
//! `corpus.jsonl` of records beside a `metadata.json`. The record count,
//! the content hashes and the counts the metadata reports become a blend
//! source.

use vstd::prelude::*;
use vstd::string::StringSliceAdditionalSpecFns;
use vstd::utf8::{decode_utf8, encode_utf8, valid_utf8};
use crate::error::{push_number, Result, TensorError};
use crate::hash::{fnv1a, hex16, stable_hash_bytes};
use crate::state_dict::{lemma_run_before, lines_spec, strip_cr};
use crate::text::{all_white_space, char_is_whitespace, chars_of, decimal, is_white_space, str_eq};
use serde_json::Value;

verus! {

/// Lines that are not blank.
pub open spec fn nonblank_count(lines: Seq<Seq<char>>) -> nat
    decreases lines.len(),
{
    if lines.len() == 0 {
        0
    } else {
        nonblank_count(lines.drop_first()) + (if all_white_space(lines[0]) {
            0nat
        } else {
            1nat
        })
    }
}

/// The records of a JSONL text: its lines, as `BufRead::lines` gives them,
/// that are not blank.
pub open spec fn nonblank_line_count(text: Seq<char>) -> nat {
    nonblank_count(lines_spec(text))
}

/// Counts the records of a JSONL text.
pub fn jsonl_record_count(corpus: &str) -> (n: usize)
    ensures
        n == nonblank_line_count(corpus@),
{
    let chars = chars_of(corpus);
    let len = chars.len();
    let mut count: usize = 0;
    let mut pos: usize = 0;
    assert(corpus@.skip(0) =~= corpus@);
    while pos < len
        invariant
            pos <= len,
            len == chars@.len(),
            chars@ == corpus@,
            count <= pos,
            nonblank_line_count(corpus@) == count + nonblank_count(lines_spec(corpus@.skip(pos as int))),
        decreases len - pos,
    {
        let ghost t = corpus@.skip(pos as int);
        let mut end = pos;
        while end < len && chars[end] != '\n'
            invariant
                pos <= end <= len,
                len == chars@.len(),
                forall|j: int| pos <= j < end ==> chars@[j] != '\n',
            decreases len - end,
        {
            end = end + 1;
        }
        proof {
            lemma_run_before(t, '\n', end - pos);
        }
        let line_end = if end < len && end > pos && chars[end - 1] == '\r' {
            end - 1
        } else {
            end
        };
        let next = if end < len {
            end + 1
        } else {
            len
        };
        let ghost line = corpus@.subrange(pos as int, line_end as int);
        proof {
            if end < len {
                assert(t.take(end - pos) =~= corpus@.subrange(pos as int, end as int));
                assert(strip_cr(t.take(end - pos)) =~= line);
                assert(t.skip(end - pos + 1) =~= corpus@.skip(next as int));
                assert(lines_spec(t) == seq![line] + lines_spec(corpus@.skip(next as int)));
            } else {
                assert(t =~= line);
                assert(corpus@.skip(next as int) =~= Seq::<char>::empty());
                assert(lines_spec(corpus@.skip(next as int)) =~= Seq::<Seq<char>>::empty());
                assert(lines_spec(t) =~= seq![line] + lines_spec(corpus@.skip(next as int)));
            }
            assert((seq![line] + lines_spec(corpus@.skip(next as int))).drop_first() =~= lines_spec(
                corpus@.skip(next as int),
            ));
        }
        let mut blank = true;
        let mut k = pos;
        while k < line_end
            invariant
                pos <= k <= line_end <= len,
                len == chars@.len(),
                chars@ == corpus@,
                blank == forall|j: int| pos <= j < k ==> is_white_space(#[trigger] chars@[j]),
            decreases line_end - k,
        {
            if !char_is_whitespace(chars[k]) {
                blank = false;
            }
            k = k + 1;
        }
        assert(blank == all_white_space(line)) by {
            if blank {
                assert forall|j: int| 0 <= j < line.len() implies is_white_space(#[trigger] line[j]) by {
                    assert(line[j] == chars@[pos + j]);
                }
            } else {
                let j = choose|j: int| pos <= j < line_end && !is_white_space(#[trigger] chars@[j]);
                assert(line[j - pos] == chars@[j]);
            }
        }
        if !blank {
            count = count + 1;
        }
        pos = next;
    }
    assert(corpus@.skip(pos as int) =~= Seq::<char>::empty());
    assert(lines_spec(corpus@.skip(pos as int)) =~= Seq::<Seq<char>>::empty());
    count
}

// ---------------------------------------------------------------------------
// Reading the metadata
// ---------------------------------------------------------------------------

/// Fields read out of a JSON document by JSON pointer: for each number
/// path the `u64` there, if it is one; for each text path the string there;
/// and for each object path the entries of the object there (none when it
/// is not an object), each value as a `u64` when it is one.
#[derive(Clone, Debug)]
pub struct JsonFields {
    pub numbers: Vec<Option<u64>>,
    pub texts: Vec<Option<String>>,
    pub objects: Vec<Vec<(String, Option<u64>)>>,
}

/// `JsonFields` as plain values.
pub struct JsonFieldsView {
    pub numbers: Seq<Option<u64>>,
    pub texts: Seq<Option<Seq<char>>>,
    pub objects: Seq<Seq<(Seq<char>, Option<u64>)>>,
}

pub open spec fn text_view(t: Option<String>) -> Option<Seq<char>> {
    match t {
        Some(s) => Some(s@),
        None => None,
    }
}

pub open spec fn entries_view(entries: Vec<(String, Option<u64>)>) -> Seq<(Seq<char>, Option<u64>)> {
    entries@.map_values(|e: (String, Option<u64>)| (e.0@, e.1))
}

impl View for JsonFields {
    type V = JsonFieldsView;

    open spec fn view(&self) -> JsonFieldsView {
        JsonFieldsView {
            numbers: self.numbers@,
            texts: self.texts@.map_values(|t: Option<String>| text_view(t)),
            objects: self.objects@.map_values(|e: Vec<(String, Option<u64>)>| entries_view(e)),
        }
    }
}

pub open spec fn paths_view(paths: Seq<&str>) -> Seq<Seq<char>> {
    paths.map_values(|p: &str| p@)
}

/// A parse result as plain values.
pub open spec fn parse_view(res: std::result::Result<JsonFields, String>) -> std::result::Result<JsonFieldsView, Seq<char>> {
    match res {
        Ok(f) => Ok(f@),
        Err(m) => Err(m@),
    }
}

/// What `serde_json::from_slice` followed by the pointer lookups of
/// `JsonFields` gives for `bytes`: the fields, or the parse error's text.
pub uninterp spec fn json_fields_of(
    bytes: Seq<u8>,
    numbers: Seq<Seq<char>>,
    texts: Seq<Seq<char>>,
    objects: Seq<Seq<char>>,
) -> std::result::Result<JsonFieldsView, Seq<char>>;

/// Parses `bytes` as JSON with `serde_json::from_slice` and reads the
/// fields at the given JSON pointers with `Value::pointer`, `as_u64`,
/// `as_str` and `as_object`. The contract claims only that the
/// result (or the parse error's `Display` text) is a function of the bytes
/// and the paths, which `json_fields_of` names.
#[verifier::external_body]
fn parse_json_fields(
    bytes: &[u8],
    numbers: &[&str],
    texts: &[&str],
    objects: &[&str],
) -> (res: std::result::Result<JsonFields, String>)
    ensures
        parse_view(res) == json_fields_of(bytes@, paths_view(numbers@), paths_view(texts@), paths_view(objects@)),
{
    let value: Value = serde_json::from_slice(bytes).map_err(|err| err.to_string())?;
    Ok(JsonFields {
        numbers: numbers.iter().map(|p| value.pointer(p).and_then(Value::as_u64)).collect(),
        texts: texts.iter().map(|p| value.pointer(p).and_then(Value::as_str).map(String::from)).collect(),
        objects: objects.iter().map(|p| match value.pointer(p).and_then(Value::as_object) {
            Some(entries) => entries.iter().map(|(key, v)| (key.clone(), v.as_u64())).collect(),
            None => Vec::new(),
        }).collect(),
    })
}

/// The text of `bytes` when they are UTF-8, by `std::str::from_utf8`,
/// which accepts exactly the valid UTF-8 slices and reinterprets their bytes.
#[verifier::external_body]
fn utf8_text(bytes: &[u8]) -> (res: Option<&str>)
    ensures
        res is Some <==> valid_utf8(bytes@),
        res matches Some(s) ==> s.spec_bytes() == bytes@,
{
    std::str::from_utf8(bytes).ok()
}

// ---------------------------------------------------------------------------
// One trace corpus as a blend source
// ---------------------------------------------------------------------------

/// The JSON pointers of the numbers read from a trace corpus's metadata:
/// the record count it claims, then the executable and supervised record
/// counts, each under `validation` and at the top level.
pub open spec fn qb_number_paths() -> Seq<Seq<char>> {
    seq![
        "/actual_count"@,
        "/validation/executable_records"@,
        "/executable_records"@,
        "/validation/supervised_records"@,
        "/supervised_records"@,
    ]
}

/// The JSON pointer of the dataset hash.
pub open spec fn qb_text_paths() -> Seq<Seq<char>> {
    seq!["/dataset_hash"@]
}

/// The JSON pointers of the split, domain, category and task-kind counts.
pub open spec fn qb_object_paths() -> Seq<Seq<char>> {
    seq![
        "/validation/split_counts"@,
        "/validation/domain_counts"@,
        "/validation/category_counts"@,
        "/validation/task_kind_counts"@,
    ]
}

/// What a trace corpus's metadata bytes give when read at the paths above.
pub open spec fn qb_metadata_of(bytes: Seq<u8>) -> std::result::Result<JsonFieldsView, Seq<char>> {
    json_fields_of(bytes, qb_number_paths(), qb_text_paths(), qb_object_paths())
}

pub open spec fn number_at(f: JsonFieldsView, i: int) -> Option<u64> {
    if 0 <= i < f.numbers.len() {
        f.numbers[i]
    } else {
        None
    }
}

pub open spec fn text_at(f: JsonFieldsView, i: int) -> Option<Seq<char>> {
    if 0 <= i < f.texts.len() {
        f.texts[i]
    } else {
        None
    }
}

pub open spec fn object_at(f: JsonFieldsView, i: int) -> Seq<(Seq<char>, Option<u64>)> {
    if 0 <= i < f.objects.len() {
        f.objects[i]
    } else {
        Seq::empty()
    }
}

/// The entries of a count object whose values are `u64`s, in order.
pub open spec fn counts_spec(entries: Seq<(Seq<char>, Option<u64>)>) -> Seq<(Seq<char>, u64)>
    decreases entries.len(),
{
    if entries.len() == 0 {
        Seq::empty()
    } else {
        let rest = counts_spec(entries.drop_last());
        match entries.last().1 {
            Some(v) => rest.push((entries.last().0, v)),
            None => rest,
        }
    }
}

pub open spec fn counts_view(counts: Vec<(String, u64)>) -> Seq<(Seq<char>, u64)> {
    counts@.map_values(|c: (String, u64)| (c.0@, c.1))
}

/// The first of two optional values that is present.
pub open spec fn first_present(a: Option<u64>, b: Option<u64>) -> Option<u64> {
    match a {
        Some(v) => Some(v),
        None => b,
    }
}

/// The metadata's record count, when it gives one, agrees with `records`.
pub open spec fn actual_count_agrees(f: JsonFieldsView, records: nat) -> bool {
    match number_at(f, 0) {
        Some(c) => c == records,
        None => true,
    }
}

/// The refusal of a corpus whose record count differs from its metadata's.
pub open spec fn actual_count_refusal(metadata_path: Seq<char>, f: JsonFieldsView, records: nat) -> Seq<char> {
    metadata_path + " actual_count="@ + decimal(number_at(f, 0)->0 as nat) + " does not match corpus records="@
        + decimal(records)
}

/// A trace corpus as a blend source.
#[derive(Clone, Debug)]
pub struct QbTraceSource {
    pub source_id: String,
    pub display_name: String,
    pub size_name: String,
    pub path: String,
    pub metadata_path: String,
    pub include_in_pretraining: bool,
    pub local_records: usize,
    pub local_bytes: usize,
    pub content_hash: String,
    pub metadata_hash: String,
    pub split_counts: Vec<(String, u64)>,
    pub domain_counts: Vec<(String, u64)>,
    pub category_counts: Vec<(String, u64)>,
    pub task_kind_counts: Vec<(String, u64)>,
    pub dataset_hash: Option<String>,
    pub executable_records: Option<u64>,
    pub supervised_records: Option<u64>,
}

/// `s` describes the trace corpus `size_name`: its id and name, its paths,
/// whether pretraining takes it (only `v1-hard`), its record count and
/// size, the hashes of its bytes and of its metadata's bytes, and what the
/// metadata reports (counts, dataset hash, executable and supervised
/// records preferring the `validation` entries).
pub open spec fn qb_source_describes(
    s: QbTraceSource,
    size_name: Seq<char>,
    metadata_path: Seq<char>,
    corpus_path: Seq<char>,
    metadata_bytes: Seq<u8>,
    f: JsonFieldsView,
    corpus_bytes: Seq<u8>,
    corpus: Seq<char>,
) -> bool {
    &&& s.source_id@ == "vecl_qb.synthetic."@ + size_name
    &&& s.display_name@ == "VECL-QB synthetic "@ + size_name
    &&& s.size_name@ == size_name
    &&& s.path@ == corpus_path
    &&& s.metadata_path@ == metadata_path
    &&& s.include_in_pretraining == (size_name == "v1-hard"@)
    &&& s.local_records == nonblank_line_count(corpus)
    &&& s.local_bytes == corpus_bytes.len()
    &&& s.content_hash@ == hex16(fnv1a(corpus_bytes))
    &&& s.metadata_hash@ == hex16(fnv1a(metadata_bytes))
    &&& counts_view(s.split_counts) == counts_spec(object_at(f, 0))
    &&& counts_view(s.domain_counts) == counts_spec(object_at(f, 1))
    &&& counts_view(s.category_counts) == counts_spec(object_at(f, 2))
    &&& counts_view(s.task_kind_counts) == counts_spec(object_at(f, 3))
    &&& text_view(s.dataset_hash) == text_at(f, 0)
    &&& s.executable_records == first_present(number_at(f, 1), number_at(f, 2))
    &&& s.supervised_records == first_present(number_at(f, 3), number_at(f, 4))
}

fn number_field(f: &JsonFields, i: usize) -> (n: Option<u64>)
    ensures
        n == number_at(f@, i as int),
{
    if i < f.numbers.len() {
        f.numbers[i]
    } else {
        None
    }
}

fn text_field(texts: &Vec<Option<String>>, i: usize) -> (t: Option<String>)
    ensures
        text_view(t) == (if i < texts@.len() {
            text_view(texts@[i as int])
        } else {
            None
        }),
{
    if i < texts.len() {
        match &texts[i] {
            Some(s) => Some(s.clone()),
            None => None,
        }
    } else {
        None
    }
}

fn count_field(f: &JsonFields, i: usize) -> (counts: Vec<(String, u64)>)
    ensures
        counts_view(counts) == counts_spec(object_at(f@, i as int)),
{
    let mut counts: Vec<(String, u64)> = Vec::new();
    if i >= f.objects.len() {
        assert(counts_view(counts) =~= Seq::<(Seq<char>, u64)>::empty());
        return counts;
    }
    let entries = &f.objects[i];
    let ghost ev = entries_view(*entries);
    assert(object_at(f@, i as int) == ev);
    let mut k: usize = 0;
    assert(ev.take(0) =~= Seq::<(Seq<char>, Option<u64>)>::empty());
    assert(counts_view(counts) =~= Seq::<(Seq<char>, u64)>::empty());
    while k < entries.len()
        invariant
            k <= entries@.len(),
            ev == entries_view(*entries),
            counts_view(counts) == counts_spec(ev.take(k as int)),
        decreases entries@.len() - k,
    {
        let ghost before = counts_view(counts);
        assert(ev.take(k + 1).drop_last() =~= ev.take(k as int));
        assert(ev.take(k + 1).last() == ev[k as int]);
        assert(ev[k as int] == (entries@[k as int].0@, entries@[k as int].1));
        match entries[k].1 {
            Some(v) => {
                let key = entries[k].0.clone();
                counts.push((key, v));
                assert(counts_view(counts) =~= before.push((ev[k as int].0, v)));
            },
            None => {},
        }
        k = k + 1;
    }
    assert(ev.take(entries@.len() as int) =~= ev);
    counts
}

/// The blend source of trace corpus `size_name`, from its metadata bytes,
/// what they give at the metadata paths (`fields`), and its text `corpus`.
/// Refused, as an invalid operation naming both counts, when the metadata
/// claims a record count the corpus does not have.
pub fn qb_trace_source_facts(
    size_name: &str,
    metadata_path: &str,
    corpus_path: &str,
    metadata_bytes: &[u8],
    fields: &JsonFields,
    corpus: &str,
) -> (res: Result<QbTraceSource>)
    ensures
        res is Ok <==> actual_count_agrees(fields@, nonblank_line_count(corpus@)),
        res matches Err(e) ==> e is InvalidOperation && e.message_spec() == actual_count_refusal(
            metadata_path@,
            fields@,
            nonblank_line_count(corpus@),
        ),
        res matches Ok(s) ==> qb_source_describes(
            s,
            size_name@,
            metadata_path@,
            corpus_path@,
            metadata_bytes@,
            fields@,
            corpus.spec_bytes(),
            corpus@,
        ),
{
    let records = jsonl_record_count(corpus);
    match number_field(fields, 0) {
        Some(c) => {
            if c != records as u64 {
                let mut message = String::from_str(metadata_path);
                push_number(&mut message, " actual_count=", c);
                push_number(&mut message, " does not match corpus records=", records as u64);
                return Err(TensorError::InvalidOperation(message));
            }
        },
        None => {},
    }
    let source_id = String::from_str("vecl_qb.synthetic.").concat(size_name);
    let display_name = String::from_str("VECL-QB synthetic ").concat(size_name);
    let executable_records = match number_field(fields, 1) {
        Some(v) => Some(v),
        None => number_field(fields, 2),
    };
    let supervised_records = match number_field(fields, 3) {
        Some(v) => Some(v),
        None => number_field(fields, 4),
    };
    let corpus_bytes = corpus.as_bytes();
    Ok(
        QbTraceSource {
            source_id,
            display_name,
            size_name: String::from_str(size_name),
            path: String::from_str(corpus_path),
            metadata_path: String::from_str(metadata_path),
            include_in_pretraining: str_eq(size_name, "v1-hard"),
            local_records: records,
            local_bytes: corpus_bytes.len(),
            content_hash: stable_hash_bytes(corpus_bytes),
            metadata_hash: stable_hash_bytes(metadata_bytes),
            split_counts: count_field(fields, 0),
            domain_counts: count_field(fields, 1),
            category_counts: count_field(fields, 2),
            task_kind_counts: count_field(fields, 3),
            dataset_hash: text_field(&fields.texts, 0),
            executable_records,
            supervised_records,
        },
    )
}

/// The blend source of trace corpus `size_name` from the bytes of its
/// metadata and corpus files. The metadata must parse as JSON (an I/O error
/// quoting the parse error otherwise) and the corpus must be UTF-8 (an I/O
/// error otherwise); then `qb_trace_source_facts` decides.
pub fn qb_trace_source(
    size_name: &str,
    metadata_path: &str,
    corpus_path: &str,
    metadata_bytes: &[u8],
    corpus_bytes: &[u8],
) -> (res: Result<QbTraceSource>)
    ensures
        qb_metadata_of(metadata_bytes@) matches Err(m) ==> (res matches Err(e) && e is Io && e.message_spec()
            == "failed to parse "@ + metadata_path@ + ": "@ + m),
        qb_metadata_of(metadata_bytes@) is Ok && !valid_utf8(corpus_bytes@) ==> (res matches Err(e) && e is Io
            && e.message_spec() == "failed to read "@ + corpus_path@ + ": stream did not contain valid UTF-8"@),
        qb_metadata_of(metadata_bytes@) matches Ok(f) ==> (valid_utf8(corpus_bytes@) ==> {
            let records = nonblank_line_count(decode_utf8(corpus_bytes@));
            &&& res is Ok <==> actual_count_agrees(f, records)
            &&& res matches Err(e) ==> e is InvalidOperation && e.message_spec() == actual_count_refusal(
                metadata_path@,
                f,
                records,
            )
            &&& res matches Ok(s) ==> qb_source_describes(
                s,
                size_name@,
                metadata_path@,
                corpus_path@,
                metadata_bytes@,
                f,
                corpus_bytes@,
                decode_utf8(corpus_bytes@),
            )
        }),
{
    let numbers = ["/actual_count", "/validation/executable_records", "/executable_records", "/validation/supervised_records", "/supervised_records"];
    let texts = ["/dataset_hash"];
    let objects = ["/validation/split_counts", "/validation/domain_counts", "/validation/category_counts", "/validation/task_kind_counts"];
    assert(paths_view(numbers@) =~= qb_number_paths());
    assert(paths_view(texts@) =~= qb_text_paths());
    assert(paths_view(objects@) =~= qb_object_paths());
    let fields = match parse_json_fields(metadata_bytes, &numbers, &texts, &objects) {
        Ok(f) => f,
        Err(m) => {
            let mut message = String::from_str("failed to parse ");
            message.append(metadata_path);
            message.append(": ");
            message.append(m.as_str());
            return Err(TensorError::Io(message));
        },
    };
    let corpus = match utf8_text(corpus_bytes) {
        Some(text) => text,
        None => {
            let mut message = String::from_str("failed to read ");
            message.append(corpus_path);
            message.append(": stream did not contain valid UTF-8");
            return Err(TensorError::Io(message));
        },
    };
    proof {
        vstd::utf8::encode_utf8_decode_utf8(corpus@);
    }
    qb_trace_source_facts(size_name, metadata_path, corpus_path, metadata_bytes, &fields, corpus)
}

} // verus!
