use vstd::prelude::*;

use crate::dispatch::TensorMeta;
use crate::error::{dims_text, push_dims, push_i64, push_number, signed_decimal, Result, TensorError};
use crate::shape::{bad_dim, first_bad_dim};
use crate::text::decimal;
use crate::storage::{DType, Device, device_debug, dtype_debug, push_device_debug, push_dtype_debug};

verus! {

/// An optimizer over a fixed list of parameters.
pub trait Optimizer {
    /// Clears the gradients of every tracked parameter.
    fn zero_grad(&self);

    /// Applies one update, or reports why it could not.
    fn step(&self) -> Result<()>;
}

// ---------------------------------------------------------------------------
// Parameter subsets
// ---------------------------------------------------------------------------

/// Every index names one of `count` parameters and none appears twice.
pub open spec fn parameter_indices_ok(indices: Seq<usize>, count: nat) -> bool {
    &&& forall|i: int| 0 <= i < indices.len() ==> #[trigger] indices[i] < count
    &&& forall|i: int, j: int| 0 <= i < j < indices.len() ==> #[trigger] indices[i] != #[trigger] indices[j]
}

/// The refusal of bad parameter index `i`.
pub open spec fn parameter_index_message(indices: Seq<usize>, count: usize, i: int) -> Seq<char> {
    if indices[i] >= count {
        "AdamW parameter index"@ + " "@ + decimal(indices[i] as nat) + " is out of range for "@ + decimal(
            count as nat,
        ) + " parameters"@
    } else {
        "duplicate AdamW parameter index"@ + " "@ + decimal(indices[i] as nat)
    }
}

/// The parameter subset an optimizer step is restricted to: the indices as
/// given, accepted only when each is below `parameter_count` and none
/// repeats (an invalid operation otherwise).
pub fn validate_optimizer_parameter_indices(parameter_indices: &[usize], parameter_count: usize) -> (res:
    Result<Vec<usize>>)
    ensures
        res is Ok <==> parameter_indices_ok(parameter_indices@, parameter_count as nat),
        res matches Ok(out) ==> out@ == parameter_indices@,
        res matches Err(e) ==> e is InvalidOperation,
        res matches Err(e) ==> exists|i: int|
            #[trigger] first_bad_dim(parameter_indices@, parameter_count, i) && e.message_spec()
                == parameter_index_message(parameter_indices@, parameter_count, i),
{
    let mut out: Vec<usize> = Vec::new();
    let mut i: usize = 0;
    while i < parameter_indices.len()
        invariant
            i <= parameter_indices@.len(),
            out@ == parameter_indices@.take(i as int),
            parameter_indices_ok(out@, parameter_count as nat),
        decreases parameter_indices@.len() - i,
    {
        let index = parameter_indices[i];
        proof {
            assert forall|j: int| 0 <= j < i implies !#[trigger] bad_dim(parameter_indices@, parameter_count, j) by {
                assert(out@[j] == parameter_indices@[j]);
                if exists|a: int| 0 <= a < j && parameter_indices@[a] == parameter_indices@[j] {
                    let a = choose|a: int| 0 <= a < j && parameter_indices@[a] == parameter_indices@[j];
                    assert(out@[a] == parameter_indices@[a]);
                }
            }
        }
        if index >= parameter_count {
            let mut message = String::from_str("AdamW parameter index");
            push_number(&mut message, " ", index as u64);
            push_number(&mut message, " is out of range for ", parameter_count as u64);
            message.append(" parameters");
            assert(first_bad_dim(parameter_indices@, parameter_count, i as int));
            return Err(TensorError::InvalidOperation(message));
        }
        let mut j: usize = 0;
        while j < out.len()
            invariant
                j <= out@.len(),
                i < parameter_indices@.len(),
                index == parameter_indices@[i as int],
                index < parameter_count,
                out@ == parameter_indices@.take(i as int),
                forall|a: int| 0 <= a < j ==> out@[a] != index,
                forall|q: int| 0 <= q < i ==> !#[trigger] bad_dim(parameter_indices@, parameter_count, q),
            decreases out@.len() - j,
        {
            if out[j] == index {
                assert(parameter_indices@[j as int] == parameter_indices@[i as int]);
                let mut message = String::from_str("duplicate AdamW parameter index");
                push_number(&mut message, " ", index as u64);
                assert(first_bad_dim(parameter_indices@, parameter_count, i as int));
                return Err(TensorError::InvalidOperation(message));
            }
            j = j + 1;
        }
        out.push(index);
        assert(out@ =~= parameter_indices@.take(i + 1));
        i = i + 1;
    }
    assert(parameter_indices@.take(parameter_indices@.len() as int) =~= parameter_indices@);
    Ok(out)
}

// ---------------------------------------------------------------------------
// Sparse-row updates
// ---------------------------------------------------------------------------

/// Rows of one table parameter that a sparse AdamW step updates: the
/// selected row ids (in selection order, repeats allowed), an optional
/// per-row mask over all `rows`, and the table's `[rows, row_dim]` layout.
/// The selection and the mask live on `device`.
#[derive(Clone, Debug, PartialEq, Eq)]
pub struct SparseAdamWRowsUpdate {
    pub parameter_index: usize,
    pub selected_rows: Vec<i64>,
    pub row_mask: Option<Vec<bool>>,
    pub rows: usize,
    pub row_dim: usize,
    pub device: Device,
}

/// A sparse-row update as plain values.
pub struct RowsUpdateView {
    pub parameter_index: usize,
    pub selected_rows: Seq<i64>,
    pub row_mask: Option<Seq<bool>>,
    pub rows: usize,
    pub row_dim: usize,
    pub device: Device,
}

pub open spec fn mask_view(mask: Option<Vec<bool>>) -> Option<Seq<bool>> {
    match mask {
        Some(m) => Some(m@),
        None => None,
    }
}

impl View for SparseAdamWRowsUpdate {
    type V = RowsUpdateView;

    open spec fn view(&self) -> RowsUpdateView {
        RowsUpdateView {
            parameter_index: self.parameter_index,
            selected_rows: self.selected_rows@,
            row_mask: mask_view(self.row_mask),
            rows: self.rows,
            row_dim: self.row_dim,
            device: self.device,
        }
    }
}

/// The plain values of each update, in order.
pub open spec fn updates_view(updates: Seq<SparseAdamWRowsUpdate>) -> Seq<RowsUpdateView> {
    updates.map_values(|u: SparseAdamWRowsUpdate| u@)
}

/// Rows of one table parameter with their gradients already gathered into
/// a compact `[selected_rows, row_dim]` tensor described by
/// `compact_grad_shape` and `compact_grad`.
#[derive(Clone, Debug, PartialEq, Eq)]
pub struct SparseAdamWCompactRowsUpdate {
    pub parameter_index: usize,
    pub selected_rows: Vec<i64>,
    pub selected_rows_device: Device,
    pub compact_grad_shape: Vec<usize>,
    pub compact_grad: TensorMeta,
    pub rows: usize,
    pub row_dim: usize,
}

/// Update `k` names one of `count` parameters that no earlier update names.
pub open spec fn rows_update_index_fresh(updates: Seq<SparseAdamWRowsUpdate>, k: int, count: nat) -> bool {
    &&& updates[k].parameter_index < count
    &&& forall|j: int| 0 <= j < k ==> (#[trigger] updates[j]).parameter_index != updates[k].parameter_index
}

/// A row mask, when present, has one entry per table row.
pub open spec fn row_mask_fits(u: SparseAdamWRowsUpdate) -> bool {
    match u.row_mask {
        Some(mask) => mask@.len() == u.rows,
        None => true,
    }
}

pub open spec fn rows_update_ok(updates: Seq<SparseAdamWRowsUpdate>, k: int, count: nat) -> bool {
    rows_update_index_fresh(updates, k, count) && row_mask_fits(updates[k])
}

/// The refusal of update `k`, the first that fails its checks.
pub open spec fn rows_update_refusal(updates: Seq<SparseAdamWRowsUpdate>, k: int, count: nat) -> Seq<char> {
    let u = updates[k];
    if u.parameter_index >= count {
        "sparse AdamW parameter index "@ + decimal(u.parameter_index as nat) + " is out of range for "@ + decimal(
            count,
        ) + " parameters"@
    } else if !rows_update_index_fresh(updates, k, count) {
        "duplicate sparse AdamW update for parameter index "@ + decimal(u.parameter_index as nat)
    } else {
        "sparse AdamW row_mask must be rank-1 with "@ + decimal(u.rows as nat) + " rows, got shape ["@ + decimal(
            match u.row_mask {
                Some(mask) => mask@.len(),
                None => 0,
            },
        ) + "]"@
    }
}

/// Checks a batch of sparse-row updates against `parameter_count`
/// parameters, update by update: an index out of range or named twice is an
/// invalid operation, a row mask of the wrong length a shape error; the
/// first failing update decides.
pub fn validate_sparse_row_updates(parameter_count: usize, updates: &[SparseAdamWRowsUpdate]) -> (res:
    Result<()>)
    ensures
        res is Ok <==> forall|k: int|
            0 <= k < updates@.len() ==> #[trigger] rows_update_ok(updates@, k, parameter_count as nat),
        res matches Err(e) ==> exists|k: int|
            {
                &&& 0 <= k < updates@.len()
                &&& !rows_update_ok(updates@, k, parameter_count as nat)
                &&& forall|j: int| 0 <= j < k ==> #[trigger] rows_update_ok(updates@, j, parameter_count as nat)
                &&& (e is InvalidOperation <==> !rows_update_index_fresh(updates@, k, parameter_count as nat))
                &&& (e is Shape <==> rows_update_index_fresh(updates@, k, parameter_count as nat))
                &&& e.message_spec() == rows_update_refusal(updates@, k, parameter_count as nat)
            },
{
    let mut i: usize = 0;
    while i < updates.len()
        invariant
            i <= updates@.len(),
            forall|j: int| 0 <= j < i ==> #[trigger] rows_update_ok(updates@, j, parameter_count as nat),
        decreases updates@.len() - i,
    {
        let update = &updates[i];
        if update.parameter_index >= parameter_count {
            assert(!rows_update_ok(updates@, i as int, parameter_count as nat));
            let mut message = String::new();
            push_number(&mut message, "sparse AdamW parameter index ", update.parameter_index as u64);
            push_number(&mut message, " is out of range for ", parameter_count as u64);
            message.append(" parameters");
            return Err(TensorError::InvalidOperation(message));
        }
        let mut j: usize = 0;
        while j < i
            invariant
                j <= i < updates@.len(),
                update == updates@[i as int],
                update.parameter_index < parameter_count,
                forall|a: int| 0 <= a < i ==> #[trigger] rows_update_ok(updates@, a, parameter_count as nat),
                forall|a: int| 0 <= a < j ==> (#[trigger] updates@[a]).parameter_index != update.parameter_index,
            decreases i - j,
        {
            if updates[j].parameter_index == update.parameter_index {
                assert(!rows_update_index_fresh(updates@, i as int, parameter_count as nat));
                assert(!rows_update_ok(updates@, i as int, parameter_count as nat));
                let mut message = String::new();
                push_number(&mut message, "duplicate sparse AdamW update for parameter index ", update.parameter_index as u64);
                return Err(TensorError::InvalidOperation(message));
            }
            j = j + 1;
        }
        assert(rows_update_index_fresh(updates@, i as int, parameter_count as nat));
        match &update.row_mask {
            Some(mask) => {
                if mask.len() != update.rows {
                    assert(!rows_update_ok(updates@, i as int, parameter_count as nat));
                    let mut message = String::new();
                    push_number(&mut message, "sparse AdamW row_mask must be rank-1 with ", update.rows as u64);
                    push_number(&mut message, " rows, got shape [", mask.len() as u64);
                    message.append("]");
                    return Err(TensorError::Shape(message));
                }
            },
            None => {},
        }
        assert(rows_update_ok(updates@, i as int, parameter_count as nat));
        i = i + 1;
    }
    Ok(())
}

/// Update `k` names one of `count` parameters that no earlier update names.
pub open spec fn compact_update_index_fresh(updates: Seq<SparseAdamWCompactRowsUpdate>, k: int, count: nat) -> bool {
    &&& updates[k].parameter_index < count
    &&& forall|j: int| 0 <= j < k ==> (#[trigger] updates[j]).parameter_index != updates[k].parameter_index
}

/// The compact gradient has one `row_dim`-wide row per selected row.
pub open spec fn compact_shape_ok(u: SparseAdamWCompactRowsUpdate) -> bool {
    u.compact_grad_shape@ == seq![u.selected_rows@.len() as usize, u.row_dim]
}

pub open spec fn compact_device_ok(u: SparseAdamWCompactRowsUpdate) -> bool {
    u.compact_grad.device == u.selected_rows_device
}

pub open spec fn compact_dtype_ok(u: SparseAdamWCompactRowsUpdate) -> bool {
    u.compact_grad.dtype == DType::F32
}

pub open spec fn compact_update_ok(updates: Seq<SparseAdamWCompactRowsUpdate>, k: int, count: nat) -> bool {
    &&& compact_update_index_fresh(updates, k, count)
    &&& compact_shape_ok(updates[k])
    &&& compact_device_ok(updates[k])
    &&& compact_dtype_ok(updates[k])
}

/// The error that the first failing check of update `k` reports: index
/// (invalid operation), then shape, then device, then dtype.
pub open spec fn compact_error_matches(
    updates: Seq<SparseAdamWCompactRowsUpdate>,
    k: int,
    count: nat,
    e: TensorError,
) -> bool {
    let fresh = compact_update_index_fresh(updates, k, count);
    let u = updates[k];
    &&& (e is InvalidOperation <==> !fresh)
    &&& (e is Shape <==> fresh && !compact_shape_ok(u))
    &&& (e is Device <==> fresh && compact_shape_ok(u) && !compact_device_ok(u))
    &&& (e is DType <==> fresh && compact_shape_ok(u) && compact_device_ok(u) && !compact_dtype_ok(u))
}

/// The refusal of compact update `k`, the first that fails its checks.
pub open spec fn compact_update_refusal(updates: Seq<SparseAdamWCompactRowsUpdate>, k: int, count: nat) -> Seq<
    char,
> {
    let u = updates[k];
    if u.parameter_index >= count {
        "compact sparse AdamW parameter index "@ + decimal(u.parameter_index as nat) + " is out of range for "@
            + decimal(count) + " parameters"@
    } else if !compact_update_index_fresh(updates, k, count) {
        "duplicate compact sparse AdamW update for parameter index "@ + decimal(u.parameter_index as nat)
    } else if !compact_shape_ok(u) {
        "compact sparse AdamW compact_grad_rows must have shape "@ + dims_text(
            seq![u.selected_rows@.len() as usize, u.row_dim],
        ) + ", got "@ + dims_text(u.compact_grad_shape@)
    } else if !compact_device_ok(u) {
        "compact sparse AdamW selected_rows and compact_grad_rows must be on the same device, got "@
            + device_debug(u.selected_rows_device) + " and "@ + device_debug(u.compact_grad.device)
    } else {
        "compact sparse AdamW compact_grad_rows must be f32, got "@ + dtype_debug(u.compact_grad.dtype)
    }
}

/// Checks a batch of compact sparse-row updates against `parameter_count`
/// parameters, update by update; the first failing check decides the error.
pub fn validate_compact_row_updates(parameter_count: usize, updates: &[SparseAdamWCompactRowsUpdate]) -> (res:
    Result<()>)
    ensures
        res is Ok <==> forall|k: int|
            0 <= k < updates@.len() ==> #[trigger] compact_update_ok(updates@, k, parameter_count as nat),
        res matches Err(e) ==> exists|k: int|
            {
                &&& 0 <= k < updates@.len()
                &&& !compact_update_ok(updates@, k, parameter_count as nat)
                &&& forall|j: int| 0 <= j < k ==> #[trigger] compact_update_ok(updates@, j, parameter_count as nat)
                &&& compact_error_matches(updates@, k, parameter_count as nat, e)
                &&& e.message_spec() == compact_update_refusal(updates@, k, parameter_count as nat)
            },
{
    let mut i: usize = 0;
    while i < updates.len()
        invariant
            i <= updates@.len(),
            forall|j: int| 0 <= j < i ==> #[trigger] compact_update_ok(updates@, j, parameter_count as nat),
        decreases updates@.len() - i,
    {
        let update = &updates[i];
        if update.parameter_index >= parameter_count {
            assert(!compact_update_ok(updates@, i as int, parameter_count as nat));
            let mut message = String::new();
            push_number(&mut message, "compact sparse AdamW parameter index ", update.parameter_index as u64);
            push_number(&mut message, " is out of range for ", parameter_count as u64);
            message.append(" parameters");
            return Err(TensorError::InvalidOperation(message));
        }
        let mut j: usize = 0;
        while j < i
            invariant
                j <= i < updates@.len(),
                update == updates@[i as int],
                update.parameter_index < parameter_count,
                forall|a: int| 0 <= a < i ==> #[trigger] compact_update_ok(updates@, a, parameter_count as nat),
                forall|a: int| 0 <= a < j ==> (#[trigger] updates@[a]).parameter_index != update.parameter_index,
            decreases i - j,
        {
            if updates[j].parameter_index == update.parameter_index {
                assert(!compact_update_index_fresh(updates@, i as int, parameter_count as nat));
                assert(!compact_update_ok(updates@, i as int, parameter_count as nat));
                let mut message = String::new();
                push_number(
                    &mut message,
                    "duplicate compact sparse AdamW update for parameter index ",
                    update.parameter_index as u64,
                );
                return Err(TensorError::InvalidOperation(message));
            }
            j = j + 1;
        }
        assert(compact_update_index_fresh(updates@, i as int, parameter_count as nat));
        let shape = &update.compact_grad_shape;
        if !(shape.len() == 2 && shape[0] == update.selected_rows.len() && shape[1] == update.row_dim) {
            assert(!compact_update_ok(updates@, i as int, parameter_count as nat));
            let expected: Vec<usize> = vec![update.selected_rows.len(), update.row_dim];
            let mut message = String::from_str("compact sparse AdamW compact_grad_rows must have shape ");
            push_dims(&mut message, expected.as_slice());
            message.append(", got ");
            push_dims(&mut message, shape.as_slice());
            return Err(TensorError::Shape(message));
        }
        assert(shape@ =~= seq![update.selected_rows@.len() as usize, update.row_dim]);
        if update.compact_grad.device != update.selected_rows_device {
            assert(!compact_update_ok(updates@, i as int, parameter_count as nat));
            let mut message = String::from_str(
                "compact sparse AdamW selected_rows and compact_grad_rows must be on the same device, got ",
            );
            push_device_debug(&mut message, update.selected_rows_device);
            message.append(" and ");
            push_device_debug(&mut message, update.compact_grad.device);
            return Err(TensorError::Device(message));
        }
        match update.compact_grad.dtype {
            DType::F32 => {},
            _ => {
                assert(!compact_update_ok(updates@, i as int, parameter_count as nat));
                let mut message = String::from_str("compact sparse AdamW compact_grad_rows must be f32, got ");
                push_dtype_debug(&mut message, update.compact_grad.dtype);
                return Err(TensorError::DType(message));
            },
        }
        assert(compact_update_ok(updates@, i as int, parameter_count as nat));
        i = i + 1;
    }
    Ok(())
}

// ---------------------------------------------------------------------------
// Rows a CPU sparse step touches
// ---------------------------------------------------------------------------

/// Every selected row id lies in `0..rows`.
pub open spec fn selected_rows_in_range(u: SparseAdamWRowsUpdate) -> bool {
    forall|i: int| 0 <= i < u.selected_rows@.len() ==> 0 <= #[trigger] u.selected_rows@[i] < u.rows
}

/// Row `r` is selected and, when there is a row mask, allowed by it.
pub open spec fn row_is_active(u: SparseAdamWRowsUpdate, r: int) -> bool {
    &&& exists|i: int| 0 <= i < u.selected_rows@.len() && u.selected_rows@[i] == r
    &&& match u.row_mask {
        Some(mask) => mask@[r],
        None => true,
    }
}

/// Selected row `a` is the first that lies outside `0..rows`.
pub open spec fn first_bad_selected_row(u: SparseAdamWRowsUpdate, a: int) -> bool {
    &&& 0 <= a < u.selected_rows@.len()
    &&& !(0 <= u.selected_rows@[a] < u.rows)
    &&& forall|b: int| 0 <= b < a ==> 0 <= #[trigger] u.selected_rows@[b] < u.rows
}

/// The refusal of a selected row id outside `0..rows`.
pub open spec fn selected_row_refusal(v: i64, rows: usize) -> Seq<char> {
    if v < 0 {
        "sparse AdamW selected row "@ + signed_decimal(v as int) + " must be non-negative"@
    } else {
        "sparse AdamW selected row "@ + signed_decimal(v as int) + " is out of range for "@ + decimal(rows as nat)
            + " rows"@
    }
}

/// The rows a CPU sparse AdamW step updates, each once, in increasing
/// order. Selected rows and mask must be on the CPU (a device error), and
/// every selected id must lie in `0..rows` (an invalid operation).
pub fn active_sparse_update_rows(update: &SparseAdamWRowsUpdate) -> (res: Result<Vec<usize>>)
    requires
        row_mask_fits(*update),
    ensures
        res is Ok <==> update.device is Cpu && selected_rows_in_range(*update),
        res matches Err(e) ==> (e is Device <==> !(update.device is Cpu)),
        res matches Err(e) ==> (e is InvalidOperation <==> update.device is Cpu),
        res matches Err(e) ==> (!(update.device is Cpu) ==> e.message_spec()
            == "CPU sparse-row AdamW expected CPU selected_rows, got "@ + device_debug(update.device)),
        res matches Err(e) ==> (update.device is Cpu ==> exists|a: int|
            #[trigger] first_bad_selected_row(*update, a) && e.message_spec() == selected_row_refusal(
                update.selected_rows@[a],
                update.rows,
            )),
        res matches Ok(rows) ==> forall|i: int, j: int| 0 <= i < j < rows@.len() ==> rows@[i] < rows@[j],
        res matches Ok(rows) ==> forall|i: int| 0 <= i < rows@.len() ==> #[trigger] rows@[i] < update.rows,
        res matches Ok(rows) ==> forall|r: int|
            0 <= r < update.rows ==> (rows@.contains(r as usize) <==> row_is_active(*update, r)),
{
    match update.device {
        Device::Cpu => {},
        Device::Cuda(_) => {
            let mut message = String::from_str("CPU sparse-row AdamW expected CPU selected_rows, got ");
            push_device_debug(&mut message, update.device);
            return Err(TensorError::Device(message));
        },
    }
    let n = update.rows;
    let mut active: Vec<bool> = Vec::new();
    while active.len() < n
        invariant
            active@.len() <= n,
            forall|r: int| 0 <= r < active@.len() ==> !active@[r],
        decreases n - active@.len(),
    {
        active.push(false);
    }
    let sel = &update.selected_rows;
    let mut i: usize = 0;
    while i < sel.len()
        invariant
            i <= sel@.len(),
            sel@ == update.selected_rows@,
            n == update.rows,
            update.device is Cpu,
            active@.len() == n,
            row_mask_fits(*update),
            forall|a: int| 0 <= a < i ==> 0 <= #[trigger] sel@[a] < n,
            forall|r: int|
                0 <= r < n ==> (active@[r] <==> ((exists|a: int| 0 <= a < i && sel@[a] == r) && match update.row_mask {
                    Some(mask) => mask@[r],
                    None => true,
                })),
        decreases sel@.len() - i,
    {
        let v = sel[i];
        if v < 0 {
            assert(!selected_rows_in_range(*update));
            assert(first_bad_selected_row(*update, i as int));
            let mut message = String::new();
            push_i64(&mut message, "sparse AdamW selected row ", v);
            message.append(" must be non-negative");
            return Err(TensorError::InvalidOperation(message));
        }
        if v as u64 >= n as u64 {
            assert(!selected_rows_in_range(*update));
            assert(first_bad_selected_row(*update, i as int));
            let mut message = String::new();
            push_i64(&mut message, "sparse AdamW selected row ", v);
            push_number(&mut message, " is out of range for ", n as u64);
            message.append(" rows");
            return Err(TensorError::InvalidOperation(message));
        }
        let r = v as usize;
        let allowed = match &update.row_mask {
            Some(mask) => mask[r],
            None => true,
        };
        if allowed {
            active.set(r, true);
        }
        proof {
            assert forall|q: int| 0 <= q < n implies (active@[q] <==> ((exists|a: int| 0 <= a < i + 1 && sel@[a] == q)
                && match update.row_mask {
                Some(mask) => mask@[q],
                None => true,
            })) by {
                if q == r {
                    assert(sel@[i as int] == q);
                } else {
                    if exists|a: int| 0 <= a < i + 1 && sel@[a] == q {
                        let a = choose|a: int| 0 <= a < i + 1 && sel@[a] == q;
                        assert(a != i);
                    }
                }
            }
        }
        i = i + 1;
    }
    let mut rows: Vec<usize> = Vec::new();
    let mut r: usize = 0;
    while r < n
        invariant
            r <= n,
            active@.len() == n,
            forall|a: int, b: int| 0 <= a < b < rows@.len() ==> rows@[a] < rows@[b],
            forall|a: int| 0 <= a < rows@.len() ==> #[trigger] rows@[a] < r,
            forall|q: int| 0 <= q < r ==> (rows@.contains(q as usize) <==> active@[q]),
        decreases n - r,
    {
        let ghost before = rows@;
        if active[r] {
            rows.push(r);
        }
        proof {
            assert forall|q: int| 0 <= q < r + 1 implies (rows@.contains(q as usize) <==> active@[q]) by {
                if rows@.contains(q as usize) {
                    let a = choose|a: int| 0 <= a < rows@.len() && rows@[a] == q as usize;
                    if a < before.len() {
                        assert(before[a] == q as usize);
                        assert(before.contains(q as usize));
                    }
                }
                if q < r && before.contains(q as usize) {
                    let a = choose|a: int| 0 <= a < before.len() && before[a] == q as usize;
                    assert(rows@[a] == q as usize);
                }
                if q == r && active@[q] {
                    assert(rows@[rows@.len() - 1] == r);
                }
            }
        }
        r = r + 1;
    }
    assert forall|q: int| 0 <= q < update.rows implies (rows@.contains(q as usize) <==> row_is_active(*update, q)) by {
        assert(rows@.contains(q as usize) <==> active@[q]);
    }
    Ok(rows)
}

/// Checks a dense table parameter against the sparse update aimed at it:
/// its shape must be `[rows, row_dim]` (a shape error) and both AdamW
/// moment buffers must hold `parameter_numel` values (an invalid operation).
pub fn validate_sparse_row_parameter_shape(
    parameter_shape: &[usize],
    parameter_numel: usize,
    m_len: usize,
    v_len: usize,
    update: &SparseAdamWRowsUpdate,
) -> (res: Result<()>)
    ensures
        res is Ok <==> parameter_shape@ == seq![update.rows, update.row_dim] && m_len == parameter_numel
            && v_len == parameter_numel,
        res matches Err(e) ==> (e is Shape <==> parameter_shape@ != seq![update.rows, update.row_dim]),
        res matches Err(e) ==> e is Shape || e is InvalidOperation,
        res matches Err(e) ==> (e is Shape ==> e.message_spec() == "sparse AdamW expected parameter shape "@
            + dims_text(seq![update.rows, update.row_dim]) + ", got "@ + dims_text(parameter_shape@)),
        res matches Err(e) ==> (e is InvalidOperation ==> e.message_spec()
            == "AdamW state shape mismatch for sparse parameter "@ + decimal(update.parameter_index as nat)),
{
    if !(parameter_shape.len() == 2 && parameter_shape[0] == update.rows && parameter_shape[1] == update.row_dim) {
        assert(parameter_shape@ != seq![update.rows, update.row_dim]);
        let expected: Vec<usize> = vec![update.rows, update.row_dim];
        let mut message = String::from_str("sparse AdamW expected parameter shape ");
        push_dims(&mut message, expected.as_slice());
        message.append(", got ");
        push_dims(&mut message, parameter_shape);
        return Err(TensorError::Shape(message));
    }
    assert(parameter_shape@ =~= seq![update.rows, update.row_dim]);
    if m_len != parameter_numel || v_len != parameter_numel {
        let mut message = String::new();
        push_number(&mut message, "AdamW state shape mismatch for sparse parameter ", update.parameter_index as u64);
        return Err(TensorError::InvalidOperation(message));
    }
    Ok(())
}

} // verus!
