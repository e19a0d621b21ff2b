# heirloom

The bookkeeping core of a small tensor and language-model training runtime,
written in Verus: every function in `src/` carries a contract that Verus
proves.

- `shape`: element counts, strides, broadcasting, permutations and index
  arithmetic.
- `dispatch`: the operator catalog, dtype promotion and kernel resolution, and
  batched matmul and broadcast plans.
- `data`: token shards (encoding, hashing, metadata), in-memory and streaming
  datasets, prepared-manifest and corpus-blend checks.
- `qb_trace`: the local VECL-QB trace corpora of a corpus blend: JSONL
  record counts, content hashes and what each corpus's metadata reports.
  Parsing the metadata JSON (`serde_json`) and checking the corpus is UTF-8
  (`std::str::from_utf8`) are the library's two trusted calls.
- `npy`, `npy_roundtrip`: `.npy` headers and integer/bool payloads, and the
  proof that what is written reads back.
- `state_dict`: file names and the `state.tsv` manifest of saved parameters,
  with its read-back proof.
- `memory_transformer`, `memory_updates`, `optim`: sparse-memory configuration,
  row-access counts, product-key masks, sparse-row optimizer updates and their
  checks.
- `rank_reports`, `launcher`, `nccl_id`, `step_checksums`, `device_list`:
  combining per-rank performance and CUDA runtime counters, the distributed
  launcher's supervision decisions, picking the NCCL unique id out of the
  helper's output, aligning per-rank checksum steps, and reading `--devices`
  lists.
- `nn`, `runtime`, `checkpoint`, `grad_mode`, `extension`, `rng`, `hash`,
  `text`, `error`, `storage`: model configuration, AMP coverage, launcher and
  training-step rules, checkpoint families, gradient mode, custom operators,
  the generator, FNV hashing and string helpers.

`app/` holds what Verus does not see: files, the network, processes (the
launcher's spawning and polling), the process environment, per-thread state, JSON forms of the records, floating-point
scoring and the `f64` CPU kernels that run the verified matmul and broadcast
plans. `tests/` exercises the library on concrete values.

Outside this library: the training commands (single-process and distributed
training of both model families, with their checkpointing and evaluation)
and the NCCL probe. They run the tensor and autograd runtime and the CUDA and
NCCL kernels, which this crate does not contain; what they decide from
plain values (launcher supervision, rank report aggregation, checksum step
alignment, device lists, rank placement, checksum and log scheduling,
gradient accumulation, checkpoint batch counts, memory update paths) is in
`src/`. The qb-native corpus blend does not check the tokenizer's minimum
vocabulary size, which belongs to the tokenizer.
