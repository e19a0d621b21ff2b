//! Aligning the per-step parameter checksums that the ranks of a
//! data-parallel run report, before their drift is measured: every rank
//! must report the same steps, in the same order, each with both checksums.

use vstd::prelude::*;
use crate::error::{push_number, Result, TensorError};
use crate::text::decimal;

verus! {

/// Which checksums a report carries: of the dense parameters, or of the
/// memory tables.
#[derive(Clone, Copy, Debug, PartialEq, Eq, Structural)]
pub enum ChecksumKind {
    Parameters,
    Memory,
}

/// What the alignment reads of one reported step: its step number, if it
/// is a number, and whether both checksums are numbers.
#[derive(Clone, Copy, Debug, PartialEq, Eq, Structural)]
pub struct StepChecksumEntry {
    pub step: Option<u64>,
    pub has_sum: bool,
    pub has_sumsq: bool,
}

pub open spec fn kind_infix(kind: ChecksumKind) -> Seq<char> {
    match kind {
        ChecksumKind::Parameters => ""@,
        ChecksumKind::Memory => "memory "@,
    }
}

pub open spec fn sum_field(kind: ChecksumKind) -> Seq<char> {
    match kind {
        ChecksumKind::Parameters => "parameter_checksum_sum"@,
        ChecksumKind::Memory => "memory_table_checksum_sum"@,
    }
}

pub open spec fn sumsq_field(kind: ChecksumKind) -> Seq<char> {
    match kind {
        ChecksumKind::Parameters => "parameter_checksum_sumsq"@,
        ChecksumKind::Memory => "memory_table_checksum_sumsq"@,
    }
}

fn infix(kind: ChecksumKind) -> (s: &'static str)
    ensures
        s@ == kind_infix(kind),
{
    match kind {
        ChecksumKind::Parameters => "",
        ChecksumKind::Memory => "memory ",
    }
}

fn sum_name(kind: ChecksumKind) -> (s: &'static str)
    ensures
        s@ == sum_field(kind),
{
    match kind {
        ChecksumKind::Parameters => "parameter_checksum_sum",
        ChecksumKind::Memory => "memory_table_checksum_sum",
    }
}

fn sumsq_name(kind: ChecksumKind) -> (s: &'static str)
    ensures
        s@ == sumsq_field(kind),
{
    match kind {
        ChecksumKind::Parameters => "parameter_checksum_sumsq",
        ChecksumKind::Memory => "memory_table_checksum_sumsq",
    }
}

/// `rank R [memory ]`, the start of every message about rank `r`.
pub open spec fn rank_text(kind: ChecksumKind, r: nat) -> Seq<char> {
    "rank"@ + " "@ + decimal(r) + " "@ + kind_infix(kind)
}

/// `rank R [memory ]step_checksums[S]`.
pub open spec fn entry_text(kind: ChecksumKind, r: nat, s: nat) -> Seq<char> {
    rank_text(kind, r) + "step_checksums["@ + decimal(s) + "]"@
}

fn rank_message(kind: ChecksumKind, r: usize) -> (m: String)
    ensures
        m@ == rank_text(kind, r as nat),
{
    let mut m = String::from_str("rank");
    push_number(&mut m, " ", r as u64);
    m.append(" ");
    m.append(infix(kind));
    m
}

fn entry_message(kind: ChecksumKind, r: usize, s: usize) -> (m: String)
    ensures
        m@ == entry_text(kind, r as nat, s as nat),
{
    let mut m = rank_message(kind, r);
    push_number(&mut m, "step_checksums[", s as u64);
    m.append("]");
    m
}

/// The refusal, if any, of rank `r`'s report at step index `s`, given the
/// `len` steps and the step number `reference` of rank 0.
pub open spec fn rank_step_error(
    kind: ChecksumKind,
    report: Option<Vec<StepChecksumEntry>>,
    len: nat,
    r: nat,
    s: int,
    reference: u64,
) -> Option<Seq<char>> {
    match report {
        None => Some(rank_text(kind, r) + "report is missing step_checksums"@),
        Some(steps) => if steps@.len() != len {
            Some(
                rank_text(kind, r) + "step_checksums length"@ + " "@ + decimal(steps@.len())
                    + " does not match rank 0 length "@ + decimal(len),
            )
        } else {
            let entry = steps@[s];
            match entry.step {
                None => Some(entry_text(kind, r, s as nat) + " is missing numeric step"@),
                Some(step) => if step != reference {
                    Some(
                        entry_text(kind, r, s as nat) + " step "@ + decimal(step as nat)
                            + " does not match rank 0 step "@ + decimal(reference as nat),
                    )
                } else if !entry.has_sum {
                    Some(entry_text(kind, r, s as nat) + " is missing "@ + sum_field(kind))
                } else if !entry.has_sumsq {
                    Some(entry_text(kind, r, s as nat) + " is missing "@ + sumsq_field(kind))
                } else {
                    None
                },
            }
        },
    }
}

/// The first refusal among ranks `r..` at step index `s`.
pub open spec fn ranks_error(
    kind: ChecksumKind,
    ranks: Seq<Option<Vec<StepChecksumEntry>>>,
    len: nat,
    s: int,
    reference: u64,
    r: int,
) -> Option<Seq<char>>
    decreases ranks.len() - r,
{
    if r < 0 || r >= ranks.len() {
        None
    } else {
        match rank_step_error(kind, ranks[r], len, r as nat, s, reference) {
            Some(m) => Some(m),
            None => ranks_error(kind, ranks, len, s, reference, r + 1),
        }
    }
}

/// The first refusal at step index `s` or after, checking step indices in
/// order and, at each, rank 0's step number and then every rank in order.
pub open spec fn steps_error(
    kind: ChecksumKind,
    ranks: Seq<Option<Vec<StepChecksumEntry>>>,
    first: Seq<StepChecksumEntry>,
    s: int,
) -> Option<Seq<char>>
    decreases first.len() - s,
{
    if s < 0 || s >= first.len() {
        None
    } else {
        match first[s].step {
            None => Some(entry_text(kind, 0, s as nat) + " is missing numeric step"@),
            Some(reference) => match ranks_error(kind, ranks, first.len(), s, reference, 0) {
                Some(m) => Some(m),
                None => steps_error(kind, ranks, first, s + 1),
            },
        }
    }
}

/// Rank 0's reported steps; none when there are no ranks or rank 0 reports
/// no checksums.
pub open spec fn first_steps(ranks: Seq<Option<Vec<StepChecksumEntry>>>) -> Seq<StepChecksumEntry> {
    if ranks.len() == 0 {
        Seq::empty()
    } else {
        match ranks[0] {
            Some(v) => v@,
            None => Seq::empty(),
        }
    }
}

fn rank_step_check(
    kind: ChecksumKind,
    report: &Option<Vec<StepChecksumEntry>>,
    len: usize,
    r: usize,
    s: usize,
    reference: u64,
) -> (res: Result<()>)
    requires
        s < len,
    ensures
        res is Ok <==> rank_step_error(kind, *report, len as nat, r as nat, s as int, reference) is None,
        res matches Err(e) ==> e is InvalidOperation && Some(e.message_spec()) == rank_step_error(
            kind,
            *report,
            len as nat,
            r as nat,
            s as int,
            reference,
        ),
{
    match report {
        None => {
            let mut m = rank_message(kind, r);
            m.append("report is missing step_checksums");
            Err(TensorError::InvalidOperation(m))
        },
        Some(steps) => {
            if steps.len() != len {
                let mut m = rank_message(kind, r);
                m.append("step_checksums length");
                push_number(&mut m, " ", steps.len() as u64);
                push_number(&mut m, " does not match rank 0 length ", len as u64);
                return Err(TensorError::InvalidOperation(m));
            }
            let entry = steps[s];
            match entry.step {
                None => {
                    let mut m = entry_message(kind, r, s);
                    m.append(" is missing numeric step");
                    Err(TensorError::InvalidOperation(m))
                },
                Some(step) => {
                    if step != reference {
                        let mut m = entry_message(kind, r, s);
                        push_number(&mut m, " step ", step);
                        push_number(&mut m, " does not match rank 0 step ", reference);
                        Err(TensorError::InvalidOperation(m))
                    } else if !entry.has_sum {
                        let mut m = entry_message(kind, r, s);
                        m.append(" is missing ");
                        m.append(sum_name(kind));
                        Err(TensorError::InvalidOperation(m))
                    } else if !entry.has_sumsq {
                        let mut m = entry_message(kind, r, s);
                        m.append(" is missing ");
                        m.append(sumsq_name(kind));
                        Err(TensorError::InvalidOperation(m))
                    } else {
                        Ok(())
                    }
                },
            }
        },
    }
}

/// The step numbers that every rank reports, in rank 0's order, or the
/// first misalignment. With no ranks, or no checksums from rank 0, there is
/// nothing to align. Steps are checked in order; at each, rank 0's step
/// must be a number, and then every rank, in order, must report checksums,
/// as many steps as rank 0, the same step number there, and both checksums.
/// Every refusal is an invalid operation naming the rank and the step.
pub fn align_step_checksums(kind: ChecksumKind, ranks: &[Option<Vec<StepChecksumEntry>>]) -> (res: Result<
    Vec<u64>,
>)
    ensures
        res is Ok <==> steps_error(kind, ranks@, first_steps(ranks@), 0) is None,
        res matches Ok(steps) ==> steps@.len() == first_steps(ranks@).len() && forall|s: int|
            0 <= s < steps@.len() ==> first_steps(ranks@)[s].step == Some(#[trigger] steps@[s]),
        res matches Err(e) ==> e is InvalidOperation && Some(e.message_spec()) == steps_error(
            kind,
            ranks@,
            first_steps(ranks@),
            0,
        ),
{
    let mut out: Vec<u64> = Vec::new();
    if ranks.len() == 0 {
        return Ok(out);
    }
    let first = match &ranks[0] {
        Some(v) => v,
        None => {
            return Ok(out);
        },
    };
    let ghost fs = first_steps(ranks@);
    assert(first@ == fs);
    let len = first.len();
    let mut s: usize = 0;
    while s < len
        invariant
            s <= len,
            len == fs.len(),
            first@ == fs,
            fs == first_steps(ranks@),
            steps_error(kind, ranks@, fs, 0) == steps_error(kind, ranks@, fs, s as int),
            out@.len() == s,
            forall|j: int| 0 <= j < s ==> fs[j].step == Some(#[trigger] out@[j]),
        decreases len - s,
    {
        let reference = match first[s].step {
            Some(v) => v,
            None => {
                let mut m = entry_message(kind, 0, s);
                m.append(" is missing numeric step");
                return Err(TensorError::InvalidOperation(m));
            },
        };
        let mut r: usize = 0;
        while r < ranks.len()
            invariant
                r <= ranks@.len(),
                s < len,
                len == fs.len(),
                first@ == fs,
                fs == first_steps(ranks@),
                steps_error(kind, ranks@, fs, 0) == steps_error(kind, ranks@, fs, s as int),
                fs[s as int].step == Some(reference),
                out@.len() == s,
                forall|j: int| 0 <= j < s ==> fs[j].step == Some(#[trigger] out@[j]),
                ranks_error(kind, ranks@, len as nat, s as int, reference, 0) == ranks_error(
                    kind,
                    ranks@,
                    len as nat,
                    s as int,
                    reference,
                    r as int,
                ),
            decreases ranks@.len() - r,
        {
            match rank_step_check(kind, &ranks[r], len, r, s, reference) {
                Ok(()) => {},
                Err(e) => {
                    return Err(e);
                },
            }
            r = r + 1;
        }
        out.push(reference);
        s = s + 1;
    }
    Ok(out)
}

} // verus!
