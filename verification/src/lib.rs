//! A small, inspectable tensor and training runtime: shape arithmetic,
//! dtype dispatch rules, token-shard data handling, sparse-memory bookkeeping
//! and the numeric helpers that the trainer relies on.

pub mod error;
pub mod storage;
pub mod text;
pub mod shape;
pub mod rng;
pub mod hash;
pub mod data;
pub mod memory_transformer;
pub mod memory_updates;
pub mod dispatch;
pub mod nn;
pub mod optim;
pub mod state_dict;
pub mod checkpoint;
pub mod grad_mode;
pub mod runtime;
pub mod rank_reports;
pub mod launcher;
pub mod nccl_id;
pub mod step_checksums;
pub mod device_list;
pub mod extension;
pub mod npy;
pub mod npy_roundtrip;
pub mod qb_trace;

pub use dispatch::{
    operator_catalog, AliasPolicy, AutogradPolicy, DTypeRule, Operator, OperatorInfo, OperatorKind,
};
pub use error::{Result, TensorError};
pub use extension::{CustomUnaryOp, CustomUnaryRegistry};
pub use grad_mode::{is_grad_enabled, no_grad, GradMode};
pub use storage::{DType, Device};
