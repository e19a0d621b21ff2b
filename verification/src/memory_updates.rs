//! Sparse-row optimizer updates for the memory tables: which table
//! parameters a step touches, with the rows the last forward pass selected.

use vstd::prelude::*;

use crate::error::{invalid_operation, push_number, Result, TensorError};
use crate::memory_transformer::{
    all_captured_rows, block_table_name, layer_table_names, layers_table_names, block_table_parameter_name, distinct_rows_below,
    expected_frozen_rows, first_position, half_row_full, is_floor_sqrt, is_perfect_square,
    parameter_index_by_name, product_key_projection, product_key_side, row_mask, string_views,
    validate_trainable_rows, CapturedSelection, MemoryLookupKind, MemoryTransformerConfig,
    MemoryUpdatePolicy,
};
use crate::npy_roundtrip::lemma_digits_value_decimal;
use crate::optim::{mask_view, rows_update_index_fresh, rows_update_ok};
use crate::text::{decimal, ends_with, lemma_decimal_digits, str_ends_with};
use crate::optim::{updates_view, RowsUpdateView, SparseAdamWRowsUpdate};
use crate::storage::Device;

verus! {

// ---------------------------------------------------------------------------
// Parameters by name
// ---------------------------------------------------------------------------

/// Position of the first parameter called `name`, if any.
pub open spec fn name_position(named: Seq<Seq<char>>, name: Seq<char>) -> Option<usize> {
    if exists|i: int| first_position(named, name, i) {
        Some((choose|i: int| first_position(named, name, i)) as usize)
    } else {
        None
    }
}

proof fn lemma_first_position_unique(named: Seq<Seq<char>>, name: Seq<char>, i: int, j: int)
    requires
        first_position(named, name, i),
        first_position(named, name, j),
    ensures
        i == j,
{
}

fn index_of(named: &[String], name: &str) -> (res: Result<usize>)
    ensures
        res is Ok <==> name_position(string_views(named@), name@) is Some,
        res matches Ok(i) ==> name_position(string_views(named@), name@) == Some(i),
        res matches Err(e) ==> e is InvalidOperation,
{
    let res = parameter_index_by_name(named, name);
    proof {
        let views = string_views(named@);
        match res {
            Ok(i) => {
                let c = choose|c: int| first_position(views, name@, c);
                lemma_first_position_unique(views, name@, i as int, c);
            },
            Err(_) => {
                if exists|c: int| first_position(views, name@, c) {
                    let c = choose|c: int| first_position(views, name@, c);
                    assert(named@[c]@ == name@);
                }
            },
        }
    }
    res
}

// ---------------------------------------------------------------------------
// Product-key half rows
// ---------------------------------------------------------------------------

/// Side of the product-key grid over `slots` slots.
pub open spec fn grid_side(slots: usize) -> nat {
    choose|s: nat| is_floor_sqrt(slots as nat, s)
}

proof fn lemma_floor_sqrt_unique(n: nat, a: nat, b: nat)
    requires
        is_floor_sqrt(n, a),
        is_floor_sqrt(n, b),
    ensures
        a == b,
{
    if a < b {
        assert((a + 1) * (a + 1) <= b * b) by (nonlinear_arith)
            requires
                a + 1 <= b,
        ;
    } else if b < a {
        assert((b + 1) * (b + 1) <= a * a) by (nonlinear_arith)
            requires
                b + 1 <= a,
        ;
    }
}

/// Slot `s` of the `side × side` grid lies on left half row `s / side`
/// and right half row `s % side`. `None` when `side` is zero or a slot id
/// lies outside the grid.
pub open spec fn half_rows_spec(selected: Seq<i64>, side: nat) -> Option<(Seq<i64>, Seq<i64>)> {
    if side > 0 && forall|i: int| 0 <= i < selected.len() ==> 0 <= #[trigger] selected[i] < side * side {
        Some(
            (
                Seq::new(selected.len(), |i: int| (selected[i] as int / side as int) as i64),
                Seq::new(selected.len(), |i: int| (selected[i] as int % side as int) as i64),
            ),
        )
    } else {
        None
    }
}

/// Left and right half-key rows of each selected product-key slot, in
/// selection order. An invalid operation for a zero `side` or a slot id
/// outside the `side × side` grid.
pub fn product_key_half_rows(selected: &[i64], side: usize) -> (res: Result<(Vec<i64>, Vec<i64>)>)
    ensures
        res is Ok <==> half_rows_spec(selected@, side as nat) is Some,
        res matches Ok(p) ==> half_rows_spec(selected@, side as nat) == Some((p.0@, p.1@)),
        res matches Err(e) ==> e is InvalidOperation,
{
    if side == 0 {
        return Err(invalid_operation("product-key half rows need a non-zero grid side"));
    }
    assert((side as u128) * (side as u128) <= 0xffff_ffff_ffff_fffe_0000_0000_0000_0001u128) by (nonlinear_arith)
        requires
            side <= 0xffff_ffff_ffff_ffffu64,
    ;
    let bound: u128 = (side as u128) * (side as u128);
    let mut left: Vec<i64> = Vec::new();
    let mut right: Vec<i64> = Vec::new();
    let mut i: usize = 0;
    while i < selected.len()
        invariant
            i <= selected@.len(),
            side > 0,
            bound == side * side,
            left@.len() == i,
            right@.len() == i,
            forall|a: int| 0 <= a < i ==> 0 <= #[trigger] selected@[a] < side * side,
            forall|a: int| 0 <= a < i ==> #[trigger] left@[a] == (selected@[a] as int / side as int) as i64,
            forall|a: int| 0 <= a < i ==> #[trigger] right@[a] == (selected@[a] as int % side as int) as i64,
        decreases selected@.len() - i,
    {
        let v = selected[i];
        if v < 0 || (v as u128) >= bound {
            return Err(invalid_operation("product-key slot id lies outside the key grid"));
        }
        let q: u128 = (v as u128) / (side as u128);
        let r: u128 = (v as u128) % (side as u128);
        assert(q <= v as u128) by (nonlinear_arith)
            requires
                q == (v as u128) / (side as u128),
                side > 0,
                v >= 0,
        ;
        assert(r < side);
        assert(r <= v as u128) by (nonlinear_arith)
            requires
                r == (v as u128) % (side as u128),
                side > 0,
                v >= 0,
        ;
        left.push(q as i64);
        right.push(r as i64);
        i = i + 1;
    }
    proof {
        let spec_pair = half_rows_spec(selected@, side as nat);
        assert(spec_pair is Some);
        assert(left@ =~= (spec_pair->0).0);
        assert(right@ =~= (spec_pair->0).1);
    }
    Ok((left, right))
}

// ---------------------------------------------------------------------------
// Updates for one memory layer or for the shared tables
// ---------------------------------------------------------------------------

pub open spec fn table_update(index: usize, selected: Seq<i64>, rows: usize, row_dim: usize, device: Device) -> RowsUpdateView {
    RowsUpdateView { parameter_index: index, selected_rows: selected, row_mask: None, rows, row_dim, device }
}

/// The updates for the tables called `key_names` (two half-key tables with
/// product-key lookup, one key table otherwise) and `value_name`, given the
/// slots `selected`. `None` when the grid is empty, a slot lies off it, or a
/// table is missing from `named`.
pub open spec fn tables_updates_spec(
    config: MemoryTransformerConfig,
    named: Seq<Seq<char>>,
    left_name: Seq<char>,
    right_name: Seq<char>,
    key_name: Seq<char>,
    value_name: Seq<char>,
    selected: Seq<i64>,
    device: Device,
) -> Option<Seq<RowsUpdateView>> {
    let value = name_position(named, value_name);
    if config.memory_lookup is ProductKey {
        let side = grid_side(config.memory_slots);
        let halves = half_rows_spec(selected, side);
        let left = name_position(named, left_name);
        let right = name_position(named, right_name);
        if config.memory_slots == 0 || halves is None || left is None || right is None || value is None {
            None
        } else {
            let half_dim = config.memory_key_dim / 2;
            Some(
                seq![
                    table_update(left->0, (halves->0).0, side as usize, half_dim, device),
                    table_update(right->0, (halves->0).1, side as usize, half_dim, device),
                    table_update(value->0, selected, config.memory_slots, config.memory_value_dim, device),
                ],
            )
        }
    } else {
        let key = name_position(named, key_name);
        if key is None || value is None {
            None
        } else {
            Some(
                seq![
                    table_update(key->0, selected, config.memory_slots, config.memory_key_dim, device),
                    table_update(value->0, selected, config.memory_slots, config.memory_value_dim, device),
                ],
            )
        }
    }
}

/// Updates for the tables of the memory layer in decoder block `block`.
pub open spec fn layer_updates_spec(
    config: MemoryTransformerConfig,
    named: Seq<Seq<char>>,
    block: nat,
    selected: Seq<i64>,
    device: Device,
) -> Option<Seq<RowsUpdateView>> {
    tables_updates_spec(
        config,
        named,
        block_table_name(block, "product_key_left"@),
        block_table_name(block, "product_key_right"@),
        block_table_name(block, "key"@),
        block_table_name(block, "value"@),
        selected,
        device,
    )
}

/// Updates for every captured layer, layer after layer; `None` as soon as
/// one layer's updates cannot be formed.
pub open spec fn layers_updates_spec(
    config: MemoryTransformerConfig,
    named: Seq<Seq<char>>,
    captured: Seq<CapturedSelection>,
    device: Device,
) -> Option<Seq<RowsUpdateView>>
    decreases captured.len(),
{
    if captured.len() == 0 {
        Some(Seq::empty())
    } else {
        let head = layers_updates_spec(config, named, captured.drop_last(), device);
        let last = layer_updates_spec(
            config,
            named,
            captured.last().block_index as nat,
            captured.last().rows@,
            device,
        );
        if head is None || last is None {
            None
        } else {
            Some(head->0 + last->0)
        }
    }
}

/// The sparse-row updates of one optimizer step: none when memory is frozen
/// or absent; for shared memory, one update per shared table over every
/// captured layer's rows (none when no layer captured any); otherwise the
/// updates of each captured layer in turn.
pub open spec fn sparse_updates_spec(
    config: MemoryTransformerConfig,
    named: Seq<Seq<char>>,
    captured: Seq<CapturedSelection>,
    device: Device,
) -> Option<Seq<RowsUpdateView>> {
    if config.memory_update_policy is Frozen || config.memory_layer_indices@.len() == 0 {
        Some(Seq::empty())
    } else if config.shared_memory {
        if captured.len() == 0 {
            Some(Seq::empty())
        } else {
            tables_updates_spec(
                config,
                named,
                "shared_memory.product_key_left"@,
                "shared_memory.product_key_right"@,
                "shared_memory.key"@,
                "shared_memory.value"@,
                all_captured_rows(captured),
                device,
            )
        }
    } else {
        layers_updates_spec(config, named, captured, device)
    }
}

fn table_update_exec(index: usize, selected: Vec<i64>, rows: usize, row_dim: usize, device: Device) -> (u:
    SparseAdamWRowsUpdate)
    ensures
        u@ == table_update(index, selected@, rows, row_dim, device),
{
    SparseAdamWRowsUpdate { parameter_index: index, selected_rows: selected, row_mask: None, rows, row_dim, device }
}

fn push_update(updates: &mut Vec<SparseAdamWRowsUpdate>, u: SparseAdamWRowsUpdate)
    ensures
        updates_view(final(updates)@) == updates_view(old(updates)@).push(u@),
{
    updates.push(u);
    assert(updates_view(updates@) =~= updates_view(old(updates)@).push(u@));
}

fn copy_rows(rows: &Vec<i64>) -> (out: Vec<i64>)
    ensures
        out@ == rows@,
{
    let mut out: Vec<i64> = Vec::new();
    let mut i: usize = 0;
    while i < rows.len()
        invariant
            i <= rows@.len(),
            out@ == rows@.take(i as int),
        decreases rows@.len() - i,
    {
        out.push(rows[i]);
        assert(out@ =~= rows@.take(i + 1));
        i = i + 1;
    }
    assert(rows@.take(rows@.len() as int) =~= rows@);
    out
}

/// Appends the updates of the tables named by the four names to `updates`.
fn push_tables_updates(
    updates: &mut Vec<SparseAdamWRowsUpdate>,
    config: &MemoryTransformerConfig,
    named: &[String],
    left_name: &str,
    right_name: &str,
    key_name: &str,
    value_name: &str,
    selected: Vec<i64>,
    device: Device,
) -> (res: Result<()>)
    ensures
        res is Ok <==> tables_updates_spec(
            *config,
            string_views(named@),
            left_name@,
            right_name@,
            key_name@,
            value_name@,
            selected@,
            device,
        ) is Some,
        res is Ok ==> updates_view(final(updates)@) == updates_view(old(updates)@) + tables_updates_spec(
            *config,
            string_views(named@),
            left_name@,
            right_name@,
            key_name@,
            value_name@,
            selected@,
            device,
        )->0,
        res matches Err(e) ==> e is InvalidOperation,
{
    let ghost spec_updates = tables_updates_spec(
        *config,
        string_views(named@),
        left_name@,
        right_name@,
        key_name@,
        value_name@,
        selected@,
        device,
    );
    let ghost before = updates_view(updates@);
    match config.memory_lookup {
        MemoryLookupKind::ProductKey => {
            let side = product_key_side(config.memory_slots)?;
            proof {
                let c = grid_side(config.memory_slots);
                assert(is_floor_sqrt(config.memory_slots as nat, c));
                lemma_floor_sqrt_unique(config.memory_slots as nat, side as nat, c);
            }
            let half_dim = config.memory_key_dim / 2;
            let (left_rows, right_rows) = product_key_half_rows(selected.as_slice(), side)?;
            let left = index_of(named, left_name)?;
            let right = index_of(named, right_name)?;
            let value = index_of(named, value_name)?;
            push_update(updates, table_update_exec(left, left_rows, side, half_dim, device));
            push_update(updates, table_update_exec(right, right_rows, side, half_dim, device));
            push_update(
                updates,
                table_update_exec(value, selected, config.memory_slots, config.memory_value_dim, device),
            );
            assert(updates_view(updates@) =~= before + spec_updates->0);
        },
        MemoryLookupKind::Exact => {
            let key = index_of(named, key_name)?;
            let value = index_of(named, value_name)?;
            let key_rows = copy_rows(&selected);
            push_update(updates, table_update_exec(key, key_rows, config.memory_slots, config.memory_key_dim, device));
            push_update(
                updates,
                table_update_exec(value, selected, config.memory_slots, config.memory_value_dim, device),
            );
            assert(updates_view(updates@) =~= before + spec_updates->0);
        },
    }
    Ok(())
}

/// Every captured layer's selected rows, concatenated in layer order.
fn concat_captured_rows(captured: &[CapturedSelection]) -> (rows: Vec<i64>)
    ensures
        rows@ == all_captured_rows(captured@),
{
    let mut rows: Vec<i64> = Vec::new();
    let mut k: usize = 0;
    while k < captured.len()
        invariant
            k <= captured@.len(),
            rows@ == all_captured_rows(captured@.take(k as int)),
        decreases captured@.len() - k,
    {
        let part = &captured[k].rows;
        let ghost before = rows@;
        let mut j: usize = 0;
        while j < part.len()
            invariant
                j <= part@.len(),
                rows@ == before + part@.take(j as int),
            decreases part@.len() - j,
        {
            rows.push(part[j]);
            assert(part@.take(j + 1) =~= part@.take(j as int).push(part@[j as int]));
            j = j + 1;
        }
        proof {
            assert(part@.take(part@.len() as int) =~= part@);
            let prefix = captured@.take(k + 1);
            assert(prefix.drop_last() =~= captured@.take(k as int));
            assert(prefix.last() == captured@[k as int]);
        }
        k = k + 1;
    }
    assert(captured@.take(captured@.len() as int) =~= captured@);
    rows
}

/// The sparse-row updates of one optimizer step over the memory tables,
/// from the model's parameter names `named` (in optimizer order) and the
/// rows each memory layer selected in the last forward pass (`captured`,
/// in layer order), all held on `device`. Nothing is updated when memory is
/// frozen or absent. Shared memory gets one update per shared table over
/// every captured layer's rows; otherwise each captured layer gets one
/// update per table of its own. With product-key lookup the half-key tables
/// are updated at the half rows of the selected slots. A missing table, an
/// empty key grid or a slot off the grid is an invalid operation.
pub fn memory_sparse_adamw_updates(
    config: &MemoryTransformerConfig,
    named: &[String],
    captured: &[CapturedSelection],
    device: Device,
) -> (res: Result<Vec<SparseAdamWRowsUpdate>>)
    ensures
        res is Ok <==> sparse_updates_spec(*config, string_views(named@), captured@, device) is Some,
        res matches Ok(updates) ==> updates_view(updates@) == sparse_updates_spec(
            *config,
            string_views(named@),
            captured@,
            device,
        )->0,
        res matches Err(e) ==> e is InvalidOperation,
{
    let mut updates: Vec<SparseAdamWRowsUpdate> = Vec::new();
    assert(updates_view(updates@) =~= Seq::<RowsUpdateView>::empty());
    let frozen = match config.memory_update_policy {
        MemoryUpdatePolicy::Frozen => true,
        _ => false,
    };
    if frozen || config.memory_layer_indices.len() == 0 {
        return Ok(updates);
    }
    if config.shared_memory {
        if captured.len() == 0 {
            return Ok(updates);
        }
        let selected = concat_captured_rows(captured);
        push_tables_updates(
            &mut updates,
            config,
            named,
            "shared_memory.product_key_left",
            "shared_memory.product_key_right",
            "shared_memory.key",
            "shared_memory.value",
            selected,
            device,
        )?;
        return Ok(updates);
    }
    let mut k: usize = 0;
    while k < captured.len()
        invariant
            k <= captured@.len(),
            !(config.memory_update_policy is Frozen),
            config.memory_layer_indices@.len() > 0,
            !config.shared_memory,
            layers_updates_spec(*config, string_views(named@), captured@.take(k as int), device) is Some,
            updates_view(updates@) == layers_updates_spec(
                *config,
                string_views(named@),
                captured@.take(k as int),
                device,
            )->0,
        decreases captured@.len() - k,
    {
        let block = captured[k].block_index;
        let left_name = block_table_parameter_name(block, "product_key_left");
        let right_name = block_table_parameter_name(block, "product_key_right");
        let key_name = block_table_parameter_name(block, "key");
        let value_name = block_table_parameter_name(block, "value");
        let selected = copy_rows(&captured[k].rows);
        let pushed = push_tables_updates(
            &mut updates,
            config,
            named,
            left_name.as_str(),
            right_name.as_str(),
            key_name.as_str(),
            value_name.as_str(),
            selected,
            device,
        );
        proof {
            let prefix = captured@.take(k + 1);
            assert(prefix.drop_last() =~= captured@.take(k as int));
            assert(prefix.last() == captured@[k as int]);
        }
        match pushed {
            Ok(()) => {},
            Err(e) => {
                proof {
                    lemma_layers_none_extends(*config, string_views(named@), captured@, k as int + 1, device);
                }
                return Err(e);
            },
        }
        k = k + 1;
    }
    assert(captured@.take(captured@.len() as int) =~= captured@);
    Ok(updates)
}

/// Once the updates of a prefix of the captured layers cannot be formed,
/// neither can those of any longer prefix.
proof fn lemma_layers_none_extends(
    config: MemoryTransformerConfig,
    named: Seq<Seq<char>>,
    captured: Seq<CapturedSelection>,
    k: int,
    device: Device,
)
    requires
        0 <= k <= captured.len(),
        layers_updates_spec(config, named, captured.take(k), device) is None,
    ensures
        layers_updates_spec(config, named, captured, device) is None,
    decreases captured.len() - k,
{
    if k < captured.len() {
        let next = captured.take(k + 1);
        assert(next.drop_last() =~= captured.take(k));
        lemma_layers_none_extends(config, named, captured, k + 1, device);
    } else {
        assert(captured.take(k) =~= captured);
    }
}

// ---------------------------------------------------------------------------
// Updates restricted by a sparse fine-tuning row mask
// ---------------------------------------------------------------------------

/// Mask over `slots` rows that is true exactly at the listed rows.
pub open spec fn slot_mask_spec(slots: nat, rows: Seq<usize>) -> Seq<bool> {
    Seq::new(slots, |k: int| rows.contains(k as usize))
}

/// Mask over the `side` half rows of one half-key table that is true
/// exactly at the half rows whose slots are all listed.
pub open spec fn half_mask_spec(rows: Seq<usize>, side: nat, left: bool) -> Seq<bool> {
    Seq::new(side, |k: int| half_row_full(rows, side, left, k as nat))
}

pub open spec fn with_row_mask(u: RowsUpdateView, mask: Seq<bool>) -> RowsUpdateView {
    RowsUpdateView {
        parameter_index: u.parameter_index,
        selected_rows: u.selected_rows,
        row_mask: Some(mask),
        rows: u.rows,
        row_dim: u.row_dim,
        device: u.device,
    }
}

/// The mask that the update of table `name` takes under product-key
/// lookup: the left half-row mask for a left half-key table, the right one
/// for a right half-key table, the slot mask for a value table; `None` for
/// any other table.
pub open spec fn pk_mask_for(name: Seq<char>, left: Seq<bool>, right: Seq<bool>, slots: Seq<bool>) -> Option<
    Seq<bool>,
> {
    if ends_with(name, "product_key_left"@) {
        Some(left)
    } else if ends_with(name, "product_key_right"@) {
        Some(right)
    } else if ends_with(name, "value"@) {
        Some(slots)
    } else {
        None
    }
}

/// Each update with the mask of its table attached; `None` when an update
/// names no parameter or a table that takes none of the masks.
pub open spec fn attach_pk_masks(
    named: Seq<Seq<char>>,
    updates: Seq<RowsUpdateView>,
    left: Seq<bool>,
    right: Seq<bool>,
    slots: Seq<bool>,
) -> Option<Seq<RowsUpdateView>>
    decreases updates.len(),
{
    if updates.len() == 0 {
        Some(Seq::empty())
    } else {
        let head = attach_pk_masks(named, updates.drop_last(), left, right, slots);
        let u = updates.last();
        if head is None || u.parameter_index >= named.len() || pk_mask_for(
            named[u.parameter_index as int],
            left,
            right,
            slots,
        ) is None {
            None
        } else {
            Some(head->0.push(with_row_mask(u, pk_mask_for(named[u.parameter_index as int], left, right, slots)->0)))
        }
    }
}

/// The updates of `sparse_updates_spec` restricted by a row mask over
/// `mask_slots` slots with the listed trainable rows and `frozen` frozen
/// rows. `None` when the mask does not cover the model's slots or is
/// inconsistent (see `validate_trainable_rows`), when the unmasked updates
/// cannot be formed, or, with product-key lookup, when the slots do not
/// form a square grid or an update's table takes no mask. Otherwise every
/// update carries the slot mask, except that with product-key lookup the
/// half-key tables carry the masks of their fully trainable half rows.
pub open spec fn masked_updates_spec(
    config: MemoryTransformerConfig,
    named: Seq<Seq<char>>,
    captured: Seq<CapturedSelection>,
    device: Device,
    mask_slots: usize,
    trainable: Seq<usize>,
    frozen: usize,
) -> Option<Seq<RowsUpdateView>> {
    let base = sparse_updates_spec(config, named, captured, device);
    if mask_slots != config.memory_slots || !distinct_rows_below(trainable, mask_slots as nat) || frozen
        != expected_frozen_rows(mask_slots, trainable.len()) || base is None {
        None
    } else {
        let slots_mask = slot_mask_spec(mask_slots as nat, trainable);
        if config.memory_lookup is ProductKey {
            if config.memory_slots == 0 || !is_perfect_square(config.memory_slots as nat) {
                None
            } else {
                let side = grid_side(config.memory_slots);
                attach_pk_masks(
                    named,
                    base->0,
                    half_mask_spec(trainable, side, true),
                    half_mask_spec(trainable, side, false),
                    slots_mask,
                )
            }
        } else {
            Some(base->0.map_values(|u: RowsUpdateView| with_row_mask(u, slots_mask)))
        }
    }
}

fn copy_mask(mask: &Vec<bool>) -> (out: Vec<bool>)
    ensures
        out@ == mask@,
{
    let mut out: Vec<bool> = Vec::new();
    let mut i: usize = 0;
    while i < mask.len()
        invariant
            i <= mask@.len(),
            out@ == mask@.take(i as int),
        decreases mask@.len() - i,
    {
        out.push(mask[i]);
        assert(out@ =~= mask@.take(i + 1));
        i = i + 1;
    }
    assert(mask@.take(mask@.len() as int) =~= mask@);
    out
}

fn masked_update(u: &SparseAdamWRowsUpdate, mask: Vec<bool>) -> (out: SparseAdamWRowsUpdate)
    ensures
        out@ == with_row_mask(u@, mask@),
{
    SparseAdamWRowsUpdate {
        parameter_index: u.parameter_index,
        selected_rows: copy_rows(&u.selected_rows),
        row_mask: Some(mask),
        rows: u.rows,
        row_dim: u.row_dim,
        device: u.device,
    }
}

/// The sparse-row updates of `memory_sparse_adamw_updates`, restricted by
/// a sparse fine-tuning row mask over `mask_memory_slots` slots with the
/// given trainable rows and `frozen_rows` frozen rows (see
/// `masked_updates_spec`). Every refusal is an invalid operation.
pub fn memory_sparse_adamw_updates_with_mask(
    config: &MemoryTransformerConfig,
    named: &[String],
    captured: &[CapturedSelection],
    device: Device,
    mask_memory_slots: usize,
    trainable_rows: &[usize],
    frozen_rows: usize,
) -> (res: Result<Vec<SparseAdamWRowsUpdate>>)
    ensures
        res is Ok <==> masked_updates_spec(
            *config,
            string_views(named@),
            captured@,
            device,
            mask_memory_slots,
            trainable_rows@,
            frozen_rows,
        ) is Some,
        res matches Ok(updates) ==> updates_view(updates@) == masked_updates_spec(
            *config,
            string_views(named@),
            captured@,
            device,
            mask_memory_slots,
            trainable_rows@,
            frozen_rows,
        )->0,
        res matches Err(e) ==> e is InvalidOperation,
        mask_memory_slots != config.memory_slots ==> (res matches Err(e) && e.message_spec() == "SMFT mask memory_slots "@
            + decimal(mask_memory_slots as nat) + " does not match model memory_slots "@ + decimal(
            config.memory_slots as nat,
        )),
{
    let ghost named_views = string_views(named@);
    if mask_memory_slots != config.memory_slots {
        let mut message = String::new();
        push_number(&mut message, "SMFT mask memory_slots ", mask_memory_slots as u64);
        push_number(&mut message, " does not match model memory_slots ", config.memory_slots as u64);
        return Err(TensorError::InvalidOperation(message));
    }
    validate_trainable_rows(mask_memory_slots, trainable_rows, frozen_rows)?;
    let mut rows_vec: Vec<usize> = Vec::new();
    let mut i: usize = 0;
    while i < trainable_rows.len()
        invariant
            i <= trainable_rows@.len(),
            rows_vec@ == trainable_rows@.take(i as int),
        decreases trainable_rows@.len() - i,
    {
        rows_vec.push(trainable_rows[i]);
        assert(rows_vec@ =~= trainable_rows@.take(i + 1));
        i = i + 1;
    }
    assert(trainable_rows@.take(trainable_rows@.len() as int) =~= trainable_rows@);
    let slots_mask = row_mask(mask_memory_slots, &rows_vec)?;
    let ghost slots_spec = slot_mask_spec(mask_memory_slots as nat, trainable_rows@);
    assert(slots_mask@ =~= slots_spec);
    let base = memory_sparse_adamw_updates(config, named, captured, device)?;
    let ghost base_views = updates_view(base@);
    let mut out: Vec<SparseAdamWRowsUpdate> = Vec::new();
    match config.memory_lookup {
        MemoryLookupKind::ProductKey => {
            let projection = product_key_projection(mask_memory_slots, trainable_rows, frozen_rows)?;
            let side = projection.side;
            proof {
                assert(is_floor_sqrt(mask_memory_slots as nat, side as nat)) by (nonlinear_arith)
                    requires
                        side * side == mask_memory_slots,
                ;
                let c = grid_side(config.memory_slots);
                assert(is_floor_sqrt(config.memory_slots as nat, c));
                lemma_floor_sqrt_unique(config.memory_slots as nat, side as nat, c);
            }
            let left = projection.left_tensor()?;
            let right = projection.right_tensor()?;
            let ghost left_spec = half_mask_spec(trainable_rows@, side as nat, true);
            let ghost right_spec = half_mask_spec(trainable_rows@, side as nat, false);
            proof {
                assert forall|k: int| 0 <= k < side implies left@[k] == left_spec[k] by {
                    if half_row_full(trainable_rows@, side as nat, true, k as nat) {
                        assert(projection.left_trainable_rows@.contains(k as usize));
                    }
                    if projection.left_trainable_rows@.contains(k as usize) {
                        let a = choose|a: int|
                            0 <= a < projection.left_trainable_rows@.len()
                                && projection.left_trainable_rows@[a] == k as usize;
                        assert(half_row_full(trainable_rows@, side as nat, true, projection.left_trainable_rows@[a] as nat));
                    }
                }
                assert forall|k: int| 0 <= k < side implies right@[k] == right_spec[k] by {
                    if half_row_full(trainable_rows@, side as nat, false, k as nat) {
                        assert(projection.right_trainable_rows@.contains(k as usize));
                    }
                    if projection.right_trainable_rows@.contains(k as usize) {
                        let a = choose|a: int|
                            0 <= a < projection.right_trainable_rows@.len()
                                && projection.right_trainable_rows@[a] == k as usize;
                        assert(half_row_full(trainable_rows@, side as nat, false, projection.right_trainable_rows@[a] as nat));
                    }
                }
                assert(left@ =~= left_spec);
                assert(right@ =~= right_spec);
                assert(masked_updates_spec(
                    *config,
                    named_views,
                    captured@,
                    device,
                    mask_memory_slots,
                    trainable_rows@,
                    frozen_rows,
                ) == attach_pk_masks(named_views, base_views, left_spec, right_spec, slots_spec));
            }
            let mut k: usize = 0;
            while k < base.len()
                invariant
                    k <= base@.len(),
                    mask_memory_slots == config.memory_slots,
                    base_views == updates_view(base@),
                    named_views == string_views(named@),
                    left@ == left_spec,
                    right@ == right_spec,
                    slots_mask@ == slots_spec,
                    masked_updates_spec(
                        *config,
                        named_views,
                        captured@,
                        device,
                        mask_memory_slots,
                        trainable_rows@,
                        frozen_rows,
                    ) == attach_pk_masks(named_views, base_views, left_spec, right_spec, slots_spec),
                    attach_pk_masks(named_views, base_views.take(k as int), left_spec, right_spec, slots_spec) is Some,
                    updates_view(out@) == attach_pk_masks(
                        named_views,
                        base_views.take(k as int),
                        left_spec,
                        right_spec,
                        slots_spec,
                    )->0,
                decreases base@.len() - k,
            {
                let u = &base[k];
                proof {
                    let prefix = base_views.take(k + 1);
                    assert(prefix.drop_last() =~= base_views.take(k as int));
                    assert(prefix.last() == u@);
                }
                if u.parameter_index >= named.len() {
                    proof {
                        lemma_attach_none_extends(named_views, base_views, k as int + 1, left_spec, right_spec, slots_spec);
                    }
                    let mut message = String::new();
                    push_number(
                        &mut message,
                        "product-key SMFT mask projection found out-of-range parameter index ",
                        u.parameter_index as u64,
                    );
                    return Err(TensorError::InvalidOperation(message));
                }
                let name = named[u.parameter_index].as_str();
                assert(named_views[u.parameter_index as int] == name@);
                let mask = if str_ends_with(name, "product_key_left") {
                    copy_mask(&left)
                } else if str_ends_with(name, "product_key_right") {
                    copy_mask(&right)
                } else if str_ends_with(name, "value") {
                    copy_mask(&slots_mask)
                } else {
                    proof {
                        lemma_attach_none_extends(named_views, base_views, k as int + 1, left_spec, right_spec, slots_spec);
                    }
                    let mut message = String::from_str(
                        "product-key SMFT mask projection cannot classify sparse update parameter ",
                    );
                    message.append(name);
                    return Err(TensorError::InvalidOperation(message));
                };
                let ghost before = updates_view(out@);
                push_update(&mut out, masked_update(u, mask));
                k = k + 1;
            }
            proof {
                assert(base_views.take(base@.len() as int) =~= base_views);
            }
        },
        MemoryLookupKind::Exact => {
            let mut k: usize = 0;
            while k < base.len()
                invariant
                    k <= base@.len(),
                    mask_memory_slots == config.memory_slots,
                    base_views == updates_view(base@),
                    slots_mask@ == slots_spec,
                    updates_view(out@) =~= base_views.take(k as int).map_values(
                        |u: RowsUpdateView| with_row_mask(u, slots_spec),
                    ),
                decreases base@.len() - k,
            {
                push_update(&mut out, masked_update(&base[k], copy_mask(&slots_mask)));
                proof {
                    assert(base_views.take(k + 1).map_values(|u: RowsUpdateView| with_row_mask(u, slots_spec))
                        =~= base_views.take(k as int).map_values(|u: RowsUpdateView| with_row_mask(u, slots_spec)).push(
                        with_row_mask(base_views[k as int], slots_spec),
                    ));
                }
                k = k + 1;
            }
            proof {
                assert(base_views.take(base@.len() as int) =~= base_views);
            }
        },
    }
    Ok(out)
}

/// Once a prefix of the updates cannot take its masks, no longer prefix can.
proof fn lemma_attach_none_extends(
    named: Seq<Seq<char>>,
    updates: Seq<RowsUpdateView>,
    k: int,
    left: Seq<bool>,
    right: Seq<bool>,
    slots: Seq<bool>,
)
    requires
        0 <= k <= updates.len(),
        attach_pk_masks(named, updates.take(k), left, right, slots) is None,
    ensures
        attach_pk_masks(named, updates, left, right, slots) is None,
    decreases updates.len() - k,
{
    if k < updates.len() {
        let next = updates.take(k + 1);
        assert(next.drop_last() =~= updates.take(k));
        lemma_attach_none_extends(named, updates, k + 1, left, right, slots);
    } else {
        assert(updates.take(k) =~= updates);
    }
}

// ---------------------------------------------------------------------------
// The updates a model builds pass the optimizer's checks
// ---------------------------------------------------------------------------

proof fn lemma_block_name_same_block(b1: nat, t1: Seq<char>, b2: nat, t2: Seq<char>)
    requires
        block_table_name(b1, t1) == block_table_name(b2, t2),
        decimal(b1).len() <= decimal(b2).len(),
    ensures
        b1 == b2,
{
    reveal_strlit("block.");
    reveal_strlit(".feed_forward.memory.memory.");
    let d1 = decimal(b1);
    let d2 = decimal(b2);
    let n1 = block_table_name(b1, t1);
    let n2 = block_table_name(b2, t2);
    let mid = ".feed_forward.memory.memory."@;
    lemma_decimal_digits(b2);
    lemma_digits_value_decimal(b1);
    lemma_digits_value_decimal(b2);
    assert forall|i: int| 0 <= i < d1.len() implies d1[i] == d2[i] by {
        assert(n1[6 + i] == d1[i]);
        assert(n2[6 + i] == d2[i]);
    }
    if d1.len() < d2.len() {
        assert(n1[6int + d1.len()] == mid[0]);
        assert(n2[6int + d1.len()] == d2[d1.len() as int]);
        assert(false);
    }
    assert(d1 =~= d2);
}

/// Distinct blocks or distinct tables give distinct parameter names.
proof fn lemma_block_names_injective(b1: nat, t1: Seq<char>, b2: nat, t2: Seq<char>)
    requires
        block_table_name(b1, t1) == block_table_name(b2, t2),
    ensures
        b1 == b2,
        t1 == t2,
{
    if decimal(b1).len() <= decimal(b2).len() {
        lemma_block_name_same_block(b1, t1, b2, t2);
    } else {
        lemma_block_name_same_block(b2, t2, b1, t1);
    }
    let p = "block."@ + decimal(b1) + ".feed_forward.memory.memory."@;
    assert(block_table_name(b1, t1) == p + t1);
    assert(block_table_name(b2, t2) == p + t2);
    assert((p + t1).skip(p.len() as int) =~= t1);
    assert((p + t2).skip(p.len() as int) =~= t2);
}

proof fn lemma_ends_with_concat(p: Seq<char>, t: Seq<char>, x: Seq<char>)
    requires
        x.len() <= t.len(),
    ensures
        ends_with(p + t, x) == ends_with(t, x),
{
    let n = p + t;
    assert(n.subrange(n.len() - x.len(), n.len() as int) =~= t.subrange(t.len() - x.len(), t.len() as int));
}

proof fn lemma_ends_with_last(s: Seq<char>, x: Seq<char>)
    requires
        ends_with(s, x),
        x.len() > 0,
    ensures
        s.last() == x.last(),
{
    assert(s.subrange(s.len() - x.len(), s.len() as int)[x.len() - 1] == s.last());
}

/// A half-key table: its name ends with `product_key_left` or
/// `product_key_right`.
pub open spec fn is_half_table_name(name: Seq<char>) -> bool {
    ends_with(name, "product_key_left"@) || ends_with(name, "product_key_right"@)
}

/// How each table name, whatever comes before the table, ends.
proof fn lemma_table_name_suffixes(p: Seq<char>)
    ensures
        ends_with(p + "product_key_left"@, "product_key_left"@),
        !ends_with(p + "product_key_left"@, "product_key_right"@),
        ends_with(p + "product_key_right"@, "product_key_right"@),
        !ends_with(p + "product_key_right"@, "product_key_left"@),
        !ends_with(p + "value"@, "product_key_left"@),
        !ends_with(p + "value"@, "product_key_right"@),
        ends_with(p + "value"@, "value"@),
        !ends_with(p + "key"@, "product_key_left"@),
        !ends_with(p + "key"@, "product_key_right"@),
{
    reveal_strlit("product_key_left");
    reveal_strlit("product_key_right");
    reveal_strlit("value");
    reveal_strlit("key");
    let l = "product_key_left"@;
    let r = "product_key_right"@;
    lemma_ends_with_concat(p, l, l);
    assert(l.subrange(0, 16) =~= l);
    lemma_ends_with_concat(p, r, r);
    assert(r.subrange(0, 17) =~= r);
    lemma_ends_with_concat(p, r, l);
    assert(r.subrange(1, 17)[14] != l[14]);
    lemma_ends_with_concat(p, "value"@, "value"@);
    assert("value"@.subrange(0, 5) =~= "value"@);
    if ends_with(p + l, r) {
        lemma_ends_with_last(p + l, r);
        let n = p + l;
        assert(n.subrange(n.len() - 17, n.len() as int)[15] == n[n.len() - 2]);
        assert(n[n.len() - 2] == l[14]);
    }
    if ends_with(p + "value"@, l) {
        lemma_ends_with_last(p + "value"@, l);
    }
    if ends_with(p + "value"@, r) {
        lemma_ends_with_last(p + "value"@, r);
    }
    if ends_with(p + "key"@, l) {
        lemma_ends_with_last(p + "key"@, l);
    }
    if ends_with(p + "key"@, r) {
        lemma_ends_with_last(p + "key"@, r);
    }
}

/// Update `u` is the update of table `name`: aimed at that parameter, with
/// no mask, over the half rows of a half-key table or over all slots.
pub open spec fn update_fits_name(
    config: MemoryTransformerConfig,
    named: Seq<Seq<char>>,
    u: RowsUpdateView,
    name: Seq<char>,
) -> bool {
    &&& name_position(named, name) == Some(u.parameter_index)
    &&& u.row_mask is None
    &&& u.rows == (if is_half_table_name(name) {
        grid_side(config.memory_slots) as usize
    } else {
        config.memory_slots
    })
    &&& (config.memory_lookup is ProductKey ==> is_half_table_name(name) || ends_with(name, "value"@))
    &&& (!(config.memory_lookup is ProductKey) ==> !is_half_table_name(name))
}

pub open spec fn updates_fit_names(
    config: MemoryTransformerConfig,
    named: Seq<Seq<char>>,
    updates: Seq<RowsUpdateView>,
    names: Seq<Seq<char>>,
) -> bool {
    &&& updates.len() == names.len()
    &&& forall|k: int| 0 <= k < updates.len() ==> #[trigger] update_fits_name(config, named, updates[k], names[k])
}

/// The names of the tables of one set, in update order.
pub open spec fn table_set_names(
    lookup: MemoryLookupKind,
    left_name: Seq<char>,
    right_name: Seq<char>,
    key_name: Seq<char>,
    value_name: Seq<char>,
) -> Seq<Seq<char>> {
    if lookup is ProductKey {
        seq![left_name, right_name, value_name]
    } else {
        seq![key_name, value_name]
    }
}

proof fn lemma_tables_updates_fit(
    config: MemoryTransformerConfig,
    named: Seq<Seq<char>>,
    p: Seq<char>,
    selected: Seq<i64>,
    device: Device,
)
    requires
        tables_updates_spec(
            config,
            named,
            p + "product_key_left"@,
            p + "product_key_right"@,
            p + "key"@,
            p + "value"@,
            selected,
            device,
        ) is Some,
    ensures
        updates_fit_names(
            config,
            named,
            tables_updates_spec(
                config,
                named,
                p + "product_key_left"@,
                p + "product_key_right"@,
                p + "key"@,
                p + "value"@,
                selected,
                device,
            )->0,
            table_set_names(
                config.memory_lookup,
                p + "product_key_left"@,
                p + "product_key_right"@,
                p + "key"@,
                p + "value"@,
            ),
        ),
{
    lemma_table_name_suffixes(p);
}

/// The tables a step updates, in update order.
pub open spec fn update_table_names(config: MemoryTransformerConfig, captured: Seq<CapturedSelection>) -> Seq<
    Seq<char>,
> {
    if config.memory_update_policy is Frozen || config.memory_layer_indices@.len() == 0 {
        Seq::empty()
    } else if config.shared_memory {
        if captured.len() == 0 {
            Seq::empty()
        } else {
            table_set_names(
                config.memory_lookup,
                "shared_memory.product_key_left"@,
                "shared_memory.product_key_right"@,
                "shared_memory.key"@,
                "shared_memory.value"@,
            )
        }
    } else {
        layers_table_names(captured_blocks(captured), config.memory_lookup)
    }
}

pub open spec fn captured_blocks(captured: Seq<CapturedSelection>) -> Seq<usize> {
    captured.map_values(|c: CapturedSelection| c.block_index)
}

pub open spec fn block_prefix(block: nat) -> Seq<char> {
    "block."@ + decimal(block) + ".feed_forward.memory.memory."@
}

proof fn lemma_layer_names(block: nat, lookup: MemoryLookupKind)
    ensures
        layer_table_names(block, lookup) == table_set_names(
            lookup,
            block_prefix(block) + "product_key_left"@,
            block_prefix(block) + "product_key_right"@,
            block_prefix(block) + "key"@,
            block_prefix(block) + "value"@,
        ),
{
}

proof fn lemma_layers_updates_fit(
    config: MemoryTransformerConfig,
    named: Seq<Seq<char>>,
    captured: Seq<CapturedSelection>,
    device: Device,
)
    requires
        layers_updates_spec(config, named, captured, device) is Some,
    ensures
        updates_fit_names(
            config,
            named,
            layers_updates_spec(config, named, captured, device)->0,
            layers_table_names(captured_blocks(captured), config.memory_lookup),
        ),
    decreases captured.len(),
{
    let blocks = captured_blocks(captured);
    if captured.len() == 0 {
        assert(blocks =~= Seq::<usize>::empty());
    } else {
        let prev = captured.drop_last();
        lemma_layers_updates_fit(config, named, prev, device);
        let c = captured.last();
        let p = block_prefix(c.block_index as nat);
        lemma_tables_updates_fit(config, named, p, c.rows@, device);
        lemma_layer_names(c.block_index as nat, config.memory_lookup);
        assert(blocks.drop_last() =~= captured_blocks(prev));
        assert(blocks.last() == c.block_index);
        let head = layers_updates_spec(config, named, prev, device)->0;
        let last = layer_updates_spec(config, named, c.block_index as nat, c.rows@, device)->0;
        let head_names = layers_table_names(captured_blocks(prev), config.memory_lookup);
        let last_names = layer_table_names(c.block_index as nat, config.memory_lookup);
        let all = head + last;
        let all_names = head_names + last_names;
        assert(layers_table_names(blocks, config.memory_lookup) == all_names);
        assert forall|k: int| 0 <= k < all.len() implies #[trigger] update_fits_name(config, named, all[k], all_names[k]) by {
            if k < head.len() {
                assert(update_fits_name(config, named, head[k], head_names[k]));
            } else {
                assert(update_fits_name(config, named, last[k - head.len()], last_names[k - head.len()]));
            }
        }
    }
}

/// Each update of a step is the update of the table `update_table_names`
/// lists at its place.
proof fn lemma_sparse_updates_fit(
    config: MemoryTransformerConfig,
    named: Seq<Seq<char>>,
    captured: Seq<CapturedSelection>,
    device: Device,
)
    requires
        sparse_updates_spec(config, named, captured, device) is Some,
    ensures
        updates_fit_names(
            config,
            named,
            sparse_updates_spec(config, named, captured, device)->0,
            update_table_names(config, captured),
        ),
{
    reveal_strlit("shared_memory.product_key_left");
    reveal_strlit("shared_memory.product_key_right");
    reveal_strlit("shared_memory.key");
    reveal_strlit("shared_memory.value");
    reveal_strlit("shared_memory.");
    reveal_strlit("product_key_left");
    reveal_strlit("product_key_right");
    reveal_strlit("key");
    reveal_strlit("value");
    if config.memory_update_policy is Frozen || config.memory_layer_indices@.len() == 0 {
    } else if config.shared_memory {
        if captured.len() > 0 {
            let p = "shared_memory."@;
            assert("shared_memory.product_key_left"@ =~= p + "product_key_left"@);
            assert("shared_memory.product_key_right"@ =~= p + "product_key_right"@);
            assert("shared_memory.key"@ =~= p + "key"@);
            assert("shared_memory.value"@ =~= p + "value"@);
            lemma_tables_updates_fit(config, named, p, all_captured_rows(captured), device);
        }
    } else {
        lemma_layers_updates_fit(config, named, captured, device);
    }
}

pub open spec fn names_distinct(names: Seq<Seq<char>>) -> bool {
    forall|i: int, j: int| 0 <= i < j < names.len() ==> #[trigger] names[i] != #[trigger] names[j]
}

proof fn lemma_table_literals()
    ensures
        "product_key_left"@ != "product_key_right"@,
        "product_key_left"@ != "value"@,
        "product_key_right"@ != "value"@,
        "key"@ != "value"@,
        names_distinct(
            seq![
                "shared_memory.product_key_left"@,
                "shared_memory.product_key_right"@,
                "shared_memory.value"@,
            ],
        ),
        names_distinct(seq!["shared_memory.key"@, "shared_memory.value"@]),
{
    reveal_strlit("product_key_left");
    reveal_strlit("product_key_right");
    reveal_strlit("value");
    reveal_strlit("key");
    reveal_strlit("shared_memory.product_key_left");
    reveal_strlit("shared_memory.product_key_right");
    reveal_strlit("shared_memory.key");
    reveal_strlit("shared_memory.value");
    assert("product_key_left"@.len() == 16);
    assert("product_key_right"@.len() == 17);
    assert("value"@.len() == 5);
    assert("key"@.len() == 3);
    let l = "shared_memory.product_key_left"@;
    let r = "shared_memory.product_key_right"@;
    let v = "shared_memory.value"@;
    let k = "shared_memory.key"@;
    assert(l.len() == 30 && r.len() == 31 && v.len() == 19 && k.len() == 17);
    let three = seq![l, r, v];
    assert forall|i: int, j: int| 0 <= i < j < three.len() implies #[trigger] three[i] != #[trigger] three[j] by {
        assert(three[i].len() != three[j].len());
    }
    let two = seq![k, v];
    assert forall|i: int, j: int| 0 <= i < j < two.len() implies #[trigger] two[i] != #[trigger] two[j] by {
        assert(two[i].len() != two[j].len());
    }
}

/// Every name of `layers_table_names(blocks, ..)` is a table of one of `blocks`.
proof fn lemma_layers_names_member(blocks: Seq<usize>, lookup: MemoryLookupKind, k: int)
    requires
        0 <= k < layers_table_names(blocks, lookup).len(),
    ensures
        exists|j: int, t: Seq<char>|
            0 <= j < blocks.len() && layers_table_names(blocks, lookup)[k] == #[trigger] block_table_name(
                blocks[j] as nat,
                t,
            ),
    decreases blocks.len(),
{
    let prev = blocks.drop_last();
    let head = layers_table_names(prev, lookup);
    let last = layer_table_names(blocks.last() as nat, lookup);
    assert(layers_table_names(blocks, lookup) == head + last);
    if k < head.len() {
        lemma_layers_names_member(prev, lookup, k);
        let (j, t) = choose|j: int, t: Seq<char>|
            0 <= j < prev.len() && head[k] == #[trigger] block_table_name(prev[j] as nat, t);
        assert(blocks[j] == prev[j]);
        assert((head + last)[k] == head[k]);
    } else {
        let j = blocks.len() - 1;
        assert((head + last)[k] == last[k - head.len()]);
        if lookup is ProductKey {
            if k - head.len() == 0 {
                assert(last[0] == block_table_name(blocks[j] as nat, "product_key_left"@));
            } else if k - head.len() == 1 {
                assert(last[1] == block_table_name(blocks[j] as nat, "product_key_right"@));
            } else {
                assert(last[2] == block_table_name(blocks[j] as nat, "value"@));
            }
        } else {
            if k - head.len() == 0 {
                assert(last[0] == block_table_name(blocks[j] as nat, "key"@));
            } else {
                assert(last[1] == block_table_name(blocks[j] as nat, "value"@));
            }
        }
    }
}

/// Distinct blocks name distinct tables.
proof fn lemma_layers_names_distinct(blocks: Seq<usize>, lookup: MemoryLookupKind)
    requires
        forall|i: int, j: int| 0 <= i < j < blocks.len() ==> #[trigger] blocks[i] != #[trigger] blocks[j],
    ensures
        names_distinct(layers_table_names(blocks, lookup)),
    decreases blocks.len(),
{
    if blocks.len() > 0 {
        let prev = blocks.drop_last();
        lemma_layers_names_distinct(prev, lookup);
        lemma_table_literals();
        let b = blocks.last();
        let head = layers_table_names(prev, lookup);
        let last = layer_table_names(b as nat, lookup);
        let all = head + last;
        assert(layers_table_names(blocks, lookup) == all);
        assert forall|i: int, j: int| 0 <= i < j < all.len() implies #[trigger] all[i] != #[trigger] all[j] by {
            if j < head.len() {
                assert(all[i] == head[i] && all[j] == head[j]);
            } else if i >= head.len() {
                assert(all[i] == last[i - head.len()] && all[j] == last[j - head.len()]);
                if all[i] == all[j] {
                    if lookup is ProductKey {
                        if i - head.len() == 0 && j - head.len() == 1 {
                            lemma_block_names_injective(b as nat, "product_key_left"@, b as nat, "product_key_right"@);
                        } else if i - head.len() == 0 {
                            lemma_block_names_injective(b as nat, "product_key_left"@, b as nat, "value"@);
                        } else {
                            lemma_block_names_injective(b as nat, "product_key_right"@, b as nat, "value"@);
                        }
                    } else {
                        lemma_block_names_injective(b as nat, "key"@, b as nat, "value"@);
                    }
                }
            } else {
                assert(all[i] == head[i]);
                lemma_layers_names_member(prev, lookup, i);
                let (m, t) = choose|m: int, t: Seq<char>|
                    0 <= m < prev.len() && head[i] == #[trigger] block_table_name(prev[m] as nat, t);
                lemma_layers_names_member(blocks, lookup, j);
                assert(all[j] == last[j - head.len()]);
                if all[i] == all[j] {
                    let t2 = if lookup is ProductKey {
                        if j - head.len() == 0 {
                            "product_key_left"@
                        } else if j - head.len() == 1 {
                            "product_key_right"@
                        } else {
                            "value"@
                        }
                    } else {
                        if j - head.len() == 0 {
                            "key"@
                        } else {
                            "value"@
                        }
                    };
                    assert(last[j - head.len()] == block_table_name(b as nat, t2));
                    lemma_block_names_injective(prev[m] as nat, t, b as nat, t2);
                    assert(prev[m] == blocks[m]);
                    assert(blocks[m] != blocks[blocks.len() - 1]);
                }
            }
        }
    }
}

/// When each layer was captured once, a step updates distinct tables.
proof fn lemma_update_names_distinct(config: MemoryTransformerConfig, captured: Seq<CapturedSelection>)
    requires
        forall|i: int, j: int|
            0 <= i < j < captured.len() ==> (#[trigger] captured[i]).block_index != (#[trigger] captured[j]).block_index,
    ensures
        names_distinct(update_table_names(config, captured)),
{
    lemma_table_literals();
    if !(config.memory_update_policy is Frozen || config.memory_layer_indices@.len() == 0) && !config.shared_memory {
        let blocks = captured_blocks(captured);
        assert forall|i: int, j: int| 0 <= i < j < blocks.len() implies #[trigger] blocks[i] != #[trigger] blocks[j] by {
            assert(blocks[i] == captured[i].block_index);
            assert(blocks[j] == captured[j].block_index);
        }
        lemma_layers_names_distinct(blocks, config.memory_lookup);
    }
}

proof fn lemma_name_position_first(named: Seq<Seq<char>>, name: Seq<char>)
    requires
        name_position(named, name) is Some,
        named.len() <= usize::MAX,
    ensures
        first_position(named, name, name_position(named, name)->0 as int),
{
    let i = choose|i: int| first_position(named, name, i);
    assert(first_position(named, name, i));
    assert((i as usize) as int == i);
}

/// Indices found for distinct names, one per update, are fresh in turn.
proof fn lemma_fitting_indices_fresh(
    updates: Seq<SparseAdamWRowsUpdate>,
    config: MemoryTransformerConfig,
    named: Seq<Seq<char>>,
    names: Seq<Seq<char>>,
    k: int,
)
    requires
        0 <= k < updates.len(),
        updates.len() == names.len(),
        named.len() <= usize::MAX,
        names_distinct(names),
        forall|i: int| 0 <= i < updates.len() ==> name_position(named, #[trigger] names[i]) == Some(
            updates[i].parameter_index,
        ),
    ensures
        rows_update_index_fresh(updates, k, named.len()),
{
    lemma_name_position_first(named, names[k]);
    assert forall|j: int| 0 <= j < k implies (#[trigger] updates[j]).parameter_index != updates[k].parameter_index by {
        lemma_name_position_first(named, names[j]);
        if updates[j].parameter_index == updates[k].parameter_index {
            assert(names[j] == named[updates[k].parameter_index as int]);
            assert(names[k] == named[updates[k].parameter_index as int]);
        }
    }
}

/// When each memory layer was captured once, the updates that
/// `memory_sparse_adamw_updates` builds pass `validate_sparse_row_updates`
/// against the model's parameters: each is aimed at a distinct parameter of
/// `named` and carries no row mask.
pub proof fn lemma_model_updates_accepted(
    updates: Seq<SparseAdamWRowsUpdate>,
    config: MemoryTransformerConfig,
    named: Seq<Seq<char>>,
    captured: Seq<CapturedSelection>,
    device: Device,
)
    requires
        sparse_updates_spec(config, named, captured, device) is Some,
        updates_view(updates) == sparse_updates_spec(config, named, captured, device)->0,
        named.len() <= usize::MAX,
        forall|i: int, j: int|
            0 <= i < j < captured.len() ==> (#[trigger] captured[i]).block_index != (#[trigger] captured[j]).block_index,
    ensures
        forall|k: int| 0 <= k < updates.len() ==> #[trigger] rows_update_ok(updates, k, named.len()),
{
    let names = update_table_names(config, captured);
    let views = updates_view(updates);
    lemma_sparse_updates_fit(config, named, captured, device);
    lemma_update_names_distinct(config, captured);
    assert forall|i: int| 0 <= i < updates.len() implies name_position(named, #[trigger] names[i]) == Some(
        updates[i].parameter_index,
    ) by {
        assert(views[i] == updates[i]@);
        assert(update_fits_name(config, named, views[i], names[i]));
    }
    assert forall|k: int| 0 <= k < updates.len() implies #[trigger] rows_update_ok(updates, k, named.len()) by {
        lemma_fitting_indices_fresh(updates, config, named, names, k);
        assert(views[k] == updates[k]@);
        assert(update_fits_name(config, named, views[k], names[k]));
        assert(mask_view(updates[k].row_mask) is None);
    }
}

proof fn lemma_attach_pk_masks(
    named: Seq<Seq<char>>,
    updates: Seq<RowsUpdateView>,
    left: Seq<bool>,
    right: Seq<bool>,
    slots: Seq<bool>,
)
    requires
        attach_pk_masks(named, updates, left, right, slots) is Some,
    ensures
        ({
            let out = attach_pk_masks(named, updates, left, right, slots)->0;
            &&& out.len() == updates.len()
            &&& forall|k: int|
                0 <= k < updates.len() ==> {
                    let u = #[trigger] updates[k];
                    &&& u.parameter_index < named.len()
                    &&& pk_mask_for(named[u.parameter_index as int], left, right, slots) is Some
                    &&& out[k] == with_row_mask(u, pk_mask_for(named[u.parameter_index as int], left, right, slots)->0)
                }
        }),
    decreases updates.len(),
{
    if updates.len() > 0 {
        let prev = updates.drop_last();
        lemma_attach_pk_masks(named, prev, left, right, slots);
        let out = attach_pk_masks(named, updates, left, right, slots)->0;
        let head = attach_pk_masks(named, prev, left, right, slots)->0;
        assert forall|k: int| 0 <= k < updates.len() implies {
            let u = #[trigger] updates[k];
            &&& u.parameter_index < named.len()
            &&& pk_mask_for(named[u.parameter_index as int], left, right, slots) is Some
            &&& out[k] == with_row_mask(u, pk_mask_for(named[u.parameter_index as int], left, right, slots)->0)
        } by {
            if k < prev.len() {
                assert(updates[k] == prev[k]);
                assert(out[k] == head[k]);
            }
        }
    }
}

proof fn lemma_grid_side_bound(slots: usize)
    requires
        is_perfect_square(slots as nat),
    ensures
        is_floor_sqrt(slots as nat, grid_side(slots)),
        grid_side(slots) <= slots,
{
    let r = choose|r: nat| #[trigger] (r * r) == slots as nat;
    assert(is_floor_sqrt(slots as nat, r)) by (nonlinear_arith)
        requires
            r * r == slots as nat,
    ;
    let s = grid_side(slots);
    assert(is_floor_sqrt(slots as nat, s));
    assert(s <= slots) by (nonlinear_arith)
        requires
            s * s <= slots as nat,
    ;
}

/// When each memory layer was captured once, the masked updates that
/// `memory_sparse_adamw_updates_with_mask` builds pass
/// `validate_sparse_row_updates`: each is aimed at a distinct parameter of
/// `named`, and its row mask has one entry per row of its table.
pub proof fn lemma_model_masked_updates_accepted(
    updates: Seq<SparseAdamWRowsUpdate>,
    config: MemoryTransformerConfig,
    named: Seq<Seq<char>>,
    captured: Seq<CapturedSelection>,
    device: Device,
    mask_slots: usize,
    trainable: Seq<usize>,
    frozen: usize,
)
    requires
        masked_updates_spec(config, named, captured, device, mask_slots, trainable, frozen) is Some,
        updates_view(updates) == masked_updates_spec(config, named, captured, device, mask_slots, trainable, frozen)->0,
        named.len() <= usize::MAX,
        forall|i: int, j: int|
            0 <= i < j < captured.len() ==> (#[trigger] captured[i]).block_index != (#[trigger] captured[j]).block_index,
    ensures
        forall|k: int| 0 <= k < updates.len() ==> #[trigger] rows_update_ok(updates, k, named.len()),
{
    let names = update_table_names(config, captured);
    let base = sparse_updates_spec(config, named, captured, device)->0;
    let views = updates_view(updates);
    let slots_mask = slot_mask_spec(mask_slots as nat, trainable);
    lemma_sparse_updates_fit(config, named, captured, device);
    lemma_update_names_distinct(config, captured);
    if config.memory_lookup is ProductKey {
        let side = grid_side(config.memory_slots);
        let left = half_mask_spec(trainable, side, true);
        let right = half_mask_spec(trainable, side, false);
        lemma_attach_pk_masks(named, base, left, right, slots_mask);
        lemma_grid_side_bound(config.memory_slots);
        lemma_table_name_suffixes(Seq::<char>::empty());
        assert forall|i: int| 0 <= i < updates.len() implies name_position(named, #[trigger] names[i]) == Some(
            updates[i].parameter_index,
        ) by {
            assert(views[i] == updates[i]@);
            assert(update_fits_name(config, named, base[i], names[i]));
        }
        assert forall|k: int| 0 <= k < updates.len() implies #[trigger] rows_update_ok(updates, k, named.len()) by {
            lemma_fitting_indices_fresh(updates, config, named, names, k);
            assert(views[k] == updates[k]@);
            let u = base[k];
            assert(update_fits_name(config, named, u, names[k]));
            lemma_name_position_first(named, names[k]);
            assert(named[u.parameter_index as int] == names[k]);
            let name = names[k];
            if ends_with(name, "product_key_left"@) {
                assert(pk_mask_for(name, left, right, slots_mask) == Some(left));
            } else if ends_with(name, "product_key_right"@) {
                assert(pk_mask_for(name, left, right, slots_mask) == Some(right));
            } else {
                assert(pk_mask_for(name, left, right, slots_mask) == Some(slots_mask));
            }
        }
    } else {
        let out = base.map_values(|u: RowsUpdateView| with_row_mask(u, slots_mask));
        assert(views == out);
        assert(views.len() == base.len());
        assert forall|i: int| 0 <= i < updates.len() implies name_position(named, #[trigger] names[i]) == Some(
            updates[i].parameter_index,
        ) by {
            assert(views[i] == updates[i]@);
            assert(out[i] == with_row_mask(base[i], slots_mask));
            assert(update_fits_name(config, named, base[i], names[i]));
        }
        assert forall|k: int| 0 <= k < updates.len() implies #[trigger] rows_update_ok(updates, k, named.len()) by {
            lemma_fitting_indices_fresh(updates, config, named, names, k);
            assert(views[k] == updates[k]@);
            assert(out[k] == with_row_mask(base[k], slots_mask));
            assert(update_fits_name(config, named, base[k], names[k]));
        }
    }
}

} // verus!
