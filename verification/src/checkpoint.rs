use vstd::prelude::*;

use crate::data::TokenDatasetState;
use crate::error::{Result, TensorError};
use crate::memory_transformer::MemoryTransformerConfig;
use crate::nn::TinyTransformerConfig;

verus! {

/// Which language-model family a checkpoint holds.
#[derive(Clone, Copy, Debug, PartialEq, Eq, Structural)]
pub enum LmModelFamily {
    TinyTransformer,
    MemoryTransformer,
}

impl Default for LmModelFamily {
    /// Checkpoints that predate the family field hold the tiny transformer.
    fn default() -> (f: Self)
        ensures
            f == LmModelFamily::TinyTransformer,
    {
        LmModelFamily::TinyTransformer
    }
}

/// Metadata saved beside a tiny-transformer checkpoint.
#[derive(Clone, Debug)]
pub struct LmCheckpointMetadata {
    pub model_family: LmModelFamily,
    pub config: TinyTransformerConfig,
    pub dataset_rng_state: u64,
    pub dataset_batches_seen: usize,
    pub dataset_manifest_path: Option<String>,
    pub step: usize,
}

impl LmCheckpointMetadata {
    /// The dataset position the checkpoint resumes from.
    pub fn dataset_state(&self) -> (s: TokenDatasetState)
        ensures
            s.rng_state == self.dataset_rng_state,
            s.batches_seen == self.dataset_batches_seen,
    {
        TokenDatasetState { rng_state: self.dataset_rng_state, batches_seen: self.dataset_batches_seen }
    }
}

/// Metadata saved beside a memory-transformer checkpoint.
#[derive(Clone, Debug)]
pub struct MemoryLmCheckpointMetadata {
    pub model_family: LmModelFamily,
    pub memory_config: MemoryTransformerConfig,
    pub dataset_rng_state: u64,
    pub dataset_batches_seen: usize,
    pub dataset_manifest_path: Option<String>,
    pub step: usize,
}

impl MemoryLmCheckpointMetadata {
    /// The dataset position the checkpoint resumes from.
    pub fn dataset_state(&self) -> (s: TokenDatasetState)
        ensures
            s.rng_state == self.dataset_rng_state,
            s.batches_seen == self.dataset_batches_seen,
    {
        TokenDatasetState { rng_state: self.dataset_rng_state, batches_seen: self.dataset_batches_seen }
    }
}

/// The name of a family as checkpoint messages print it.
pub open spec fn family_name(f: LmModelFamily) -> Seq<char> {
    match f {
        LmModelFamily::TinyTransformer => "TinyTransformer"@,
        LmModelFamily::MemoryTransformer => "MemoryTransformer"@,
    }
}

fn family_label(f: LmModelFamily) -> (s: &'static str)
    ensures
        s@ == family_name(f),
{
    match f {
        LmModelFamily::TinyTransformer => "TinyTransformer",
        LmModelFamily::MemoryTransformer => "MemoryTransformer",
    }
}

/// A loader accepts a checkpoint only when the family recorded in its
/// metadata is the one the loader builds; the refusal names both.
pub fn ensure_checkpoint_family(found: LmModelFamily, expected: LmModelFamily) -> (res: Result<()>)
    ensures
        res is Ok <==> found == expected,
        res matches Err(e) ==> e is InvalidOperation,
        res matches Err(e) ==> e.message_spec() == "checkpoint model_family is "@ + family_name(found)
            + ", but loader expected "@ + family_name(expected),
{
    if found != expected {
        let mut message = String::from_str("checkpoint model_family is ");
        message.append(family_label(found));
        message.append(", but loader expected ");
        message.append(family_label(expected));
        return Err(TensorError::InvalidOperation(message));
    }
    Ok(())
}

} // verus!
