//! The decisions of the distributed launcher's supervision loop. The caller
//! spawns the rank workers, and on each round polls their exit statuses,
//! reads their stage files and the clock; `launcher_step` then says what to
//! do: wait, finish, or stop the run and why.

use vstd::prelude::*;
use crate::runtime::{is_pre_nccl_stage, stage_is_after_nccl_init};
use crate::text::str_eq;

verus! {

/// Time limits of a launch, in milliseconds since the ranks were spawned.
#[derive(Clone, Copy, Debug, PartialEq, Eq, Structural)]
pub struct LauncherLimits {
    pub rank_start_timeout_ms: u64,
    pub nccl_init_timeout_ms: Option<u64>,
    pub timeout_ms: Option<u64>,
}

/// What the launcher remembers between rounds: which ranks have exited,
/// and when a rank was first seen starting NCCL initialisation.
#[derive(Clone, Debug)]
pub struct LauncherState {
    pub completed: Vec<bool>,
    pub nccl_init_seen_at_ms: Option<u64>,
}

/// The result of polling one rank's process.
#[derive(Clone, Copy, Debug, PartialEq, Eq, Structural)]
pub enum RankExit {
    Running,
    Succeeded,
    Failed,
}

/// One round's observations: the time since spawning, each rank's exit
/// status (ignored for ranks already completed) and the stage name each
/// rank's stage file holds (`None` when it names none).
#[derive(Clone, Debug)]
pub struct LauncherPoll {
    pub now_ms: u64,
    pub exits: Vec<RankExit>,
    pub stages: Vec<Option<String>>,
}

/// What the launcher does next. Every action but `Wait` ends the run:
/// `Passed` reports success; `RankFailed` stops every other unfinished rank
/// and reports failure; `RankStartTimeout` stops every unfinished rank and
/// reports the listed ranks as stuck; `NcclInitTimeout` and `Timeout` stop
/// every unfinished rank and report a timeout. `Wait` polls again, after a
/// pause when no rank exited this round.
#[derive(Clone, Debug)]
pub enum LauncherAction {
    Wait { progressed: bool },
    Passed,
    RankFailed { index: usize },
    RankStartTimeout { ranks: Vec<usize> },
    NcclInitTimeout,
    Timeout,
}

/// Rank `i` was still running and has now failed.
pub open spec fn failed_at(completed: Seq<bool>, exits: Seq<RankExit>, i: int) -> bool {
    !completed[i] && exits[i] == RankExit::Failed
}

/// Some rank failed this round.
pub open spec fn any_failed(completed: Seq<bool>, exits: Seq<RankExit>) -> bool {
    exists|i: int| 0 <= i < completed.len() && #[trigger] failed_at(completed, exits, i)
}

/// Completion after polling the ranks before `upto`.
pub open spec fn done_after(completed: Seq<bool>, exits: Seq<RankExit>, upto: int) -> Seq<bool> {
    Seq::new(completed.len(), |j: int| completed[j] || (j < upto && exits[j] != RankExit::Running))
}

/// Some rank exited this round.
pub open spec fn any_progress(completed: Seq<bool>, exits: Seq<RankExit>) -> bool {
    exists|i: int| 0 <= i < completed.len() && !completed[i] && #[trigger] exits[i] != RankExit::Running
}

/// Every rank has exited.
pub open spec fn all_done(done: Seq<bool>) -> bool {
    forall|i: int| 0 <= i < done.len() ==> #[trigger] done[i]
}

/// A stage that shows a rank has not started: none named, `spawned` or
/// `missing`.
pub open spec fn stage_not_started(stage: Option<String>) -> bool {
    match stage {
        None => true,
        Some(s) => s@ == "spawned"@ || s@ == "missing"@,
    }
}

/// The unfinished ranks before `n` whose stage shows they have not started,
/// in rank order.
pub open spec fn stuck_ranks(done: Seq<bool>, stages: Seq<Option<String>>, n: int) -> Seq<usize>
    decreases n,
{
    if n <= 0 {
        Seq::empty()
    } else if !done[n - 1] && stage_not_started(stages[n - 1]) {
        stuck_ranks(done, stages, n - 1).push((n - 1) as usize)
    } else {
        stuck_ranks(done, stages, n - 1)
    }
}

/// The stage is `nccl_init_start`.
pub open spec fn stage_is_nccl_init_start(stage: Option<String>) -> bool {
    stage matches Some(s) && s@ == "nccl_init_start"@
}

/// Some rank is starting NCCL initialisation.
pub open spec fn nccl_init_started(stages: Seq<Option<String>>) -> bool {
    exists|i: int| 0 <= i < stages.len() && #[trigger] stage_is_nccl_init_start(stages[i])
}

/// Every rank names a stage past NCCL initialisation.
pub open spec fn all_past_nccl_init(stages: Seq<Option<String>>) -> bool {
    forall|i: int| 0 <= i < stages.len() ==> (#[trigger] stages[i] matches Some(s) && !is_pre_nccl_stage(s@))
}

/// When NCCL initialisation was first seen, after this round.
pub open spec fn next_nccl_seen(limits: LauncherLimits, seen: Option<u64>, poll: LauncherPoll) -> Option<u64> {
    if limits.nccl_init_timeout_ms is Some && seen is None && nccl_init_started(poll.stages@) {
        Some(poll.now_ms)
    } else {
        seen
    }
}

/// The outcome of a round in which no rank failed, checked in order: all
/// ranks done; the rank-start timeout passed with some rank not started;
/// the NCCL-initialisation timeout passed since initialisation was first
/// seen while some rank is not past it; the overall timeout passed.
pub open spec fn quiet_round_outcome(
    limits: LauncherLimits,
    state: LauncherState,
    poll: LauncherPoll,
    next: LauncherState,
    action: LauncherAction,
) -> bool {
    let done = done_after(state.completed@, poll.exits@, state.completed@.len() as int);
    let stuck = stuck_ranks(done, poll.stages@, done.len() as int);
    let seen = next_nccl_seen(limits, state.nccl_init_seen_at_ms, poll);
    &&& next.completed@ == done
    &&& if all_done(done) {
        action is Passed && next.nccl_init_seen_at_ms == state.nccl_init_seen_at_ms
    } else if poll.now_ms > limits.rank_start_timeout_ms && stuck.len() > 0 {
        &&& action matches LauncherAction::RankStartTimeout { ranks } && ranks@ == stuck
        &&& next.nccl_init_seen_at_ms == state.nccl_init_seen_at_ms
    } else {
        &&& next.nccl_init_seen_at_ms == seen
        &&& if limits.nccl_init_timeout_ms matches Some(t) && seen matches Some(s) && !all_past_nccl_init(
            poll.stages@,
        ) && poll.now_ms > s + t {
            action is NcclInitTimeout
        } else if limits.timeout_ms matches Some(t) && poll.now_ms > t {
            action is Timeout
        } else {
            action == LauncherAction::Wait { progressed: any_progress(state.completed@, poll.exits@) }
        }
    }
}

/// Whether rank `i` has not started, going by its stage.
fn not_started(stage: &Option<String>) -> (b: bool)
    ensures
        b == stage_not_started(*stage),
{
    match stage {
        None => true,
        Some(s) => str_eq(s.as_str(), "spawned") || str_eq(s.as_str(), "missing"),
    }
}

/// One round of supervision: from the limits, the state kept so far and
/// this round's observations, the next state and what to do. Ranks are
/// polled in order, and the first that failed this round ends the run (the
/// ranks after it are not polled); otherwise the checks of
/// `quiet_round_outcome` decide.
pub fn launcher_step(limits: &LauncherLimits, state: &LauncherState, poll: &LauncherPoll) -> (r: (
    LauncherState,
    LauncherAction,
))
    requires
        poll.exits@.len() == state.completed@.len(),
        poll.stages@.len() == state.completed@.len(),
    ensures
        r.1 is RankFailed <==> any_failed(state.completed@, poll.exits@),
        r.1 matches LauncherAction::RankFailed { index } ==> {
            &&& index < state.completed@.len()
            &&& failed_at(state.completed@, poll.exits@, index as int)
            &&& forall|j: int| 0 <= j < index ==> !#[trigger] failed_at(state.completed@, poll.exits@, j)
            &&& r.0.completed@ == done_after(state.completed@, poll.exits@, index + 1)
            &&& r.0.nccl_init_seen_at_ms == state.nccl_init_seen_at_ms
        },
        !any_failed(state.completed@, poll.exits@) ==> quiet_round_outcome(*limits, *state, *poll, r.0, r.1),
{
    let n = state.completed.len();
    let mut done: Vec<bool> = Vec::new();
    let mut progressed = false;
    let mut i: usize = 0;
    while i < n
        invariant
            i <= n,
            n == state.completed@.len(),
            poll.exits@.len() == n,
            done@.len() == i,
            forall|j: int| 0 <= j < i ==> #[trigger] done@[j] == (state.completed@[j] || poll.exits@[j] != RankExit::Running),
            forall|j: int| 0 <= j < i ==> !#[trigger] failed_at(state.completed@, poll.exits@, j),
            progressed <==> exists|j: int| 0 <= j < i && !state.completed@[j] && #[trigger] poll.exits@[j] != RankExit::Running,
        decreases n - i,
    {
        let was_done = state.completed[i];
        let exit = poll.exits[i];
        if !was_done && exit == RankExit::Failed {
            done.push(true);
            let mut k2: usize = i + 1;
            while k2 < n
                invariant
                    i < k2 <= n,
                    n == state.completed@.len(),
                    poll.exits@.len() == n,
                    done@.len() == k2,
                    forall|j: int| 0 <= j < i ==> #[trigger] done@[j] == (state.completed@[j] || poll.exits@[j] != RankExit::Running),
                    done@[i as int],
                    forall|j: int| i < j < k2 ==> #[trigger] done@[j] == state.completed@[j],
                decreases n - k2,
            {
                done.push(state.completed[k2]);
                k2 = k2 + 1;
            }
            proof {
                assert(done@ =~= done_after(state.completed@, poll.exits@, i + 1));
                assert(failed_at(state.completed@, poll.exits@, i as int));
            }
            let next = LauncherState { completed: done, nccl_init_seen_at_ms: state.nccl_init_seen_at_ms };
            return (next, LauncherAction::RankFailed { index: i });
        }
        let now_done = was_done || exit != RankExit::Running;
        if !was_done && exit != RankExit::Running {
            progressed = true;
        }
        done.push(now_done);
        i = i + 1;
    }
    proof {
        assert(done@ =~= done_after(state.completed@, poll.exits@, n as int));
        assert(!any_failed(state.completed@, poll.exits@));
    }
    let mut all = true;
    let mut j: usize = 0;
    while j < n
        invariant
            j <= n,
            done@.len() == n,
            all <==> forall|q: int| 0 <= q < j ==> #[trigger] done@[q],
        decreases n - j,
    {
        if !done[j] {
            all = false;
        }
        j = j + 1;
    }
    if all {
        let next = LauncherState { completed: done, nccl_init_seen_at_ms: state.nccl_init_seen_at_ms };
        return (next, LauncherAction::Passed);
    }
    if poll.now_ms > limits.rank_start_timeout_ms {
        let mut stuck: Vec<usize> = Vec::new();
        let mut q: usize = 0;
        while q < n
            invariant
                q <= n,
                done@.len() == n,
                poll.stages@.len() == n,
                stuck@ == stuck_ranks(done@, poll.stages@, q as int),
            decreases n - q,
        {
            if !done[q] && not_started(&poll.stages[q]) {
                stuck.push(q);
            }
            q = q + 1;
        }
        if stuck.len() > 0 {
            let next = LauncherState { completed: done, nccl_init_seen_at_ms: state.nccl_init_seen_at_ms };
            return (next, LauncherAction::RankStartTimeout { ranks: stuck });
        }
    }
    let mut seen = state.nccl_init_seen_at_ms;
    if limits.nccl_init_timeout_ms.is_some() && seen.is_none() {
        let mut started = false;
        let mut q: usize = 0;
        while q < n
            invariant
                q <= n,
                poll.stages@.len() == n,
                started <==> exists|u: int| 0 <= u < q && #[trigger] stage_is_nccl_init_start(poll.stages@[u]),
            decreases n - q,
        {
            let is_start = match &poll.stages[q] {
                Some(s) => str_eq(s.as_str(), "nccl_init_start"),
                None => false,
            };
            assert(is_start == stage_is_nccl_init_start(poll.stages@[q as int]));
            if is_start {
                started = true;
            }
            q = q + 1;
        }
        if started {
            seen = Some(poll.now_ms);
        }
    }
    assert(seen == next_nccl_seen(*limits, state.nccl_init_seen_at_ms, *poll));
    if let (Some(t), Some(s)) = (limits.nccl_init_timeout_ms, seen) {
        let mut past = true;
        let mut q: usize = 0;
        while q < n
            invariant
                q <= n,
                poll.stages@.len() == n,
                past <==> forall|u: int|
                    0 <= u < q ==> (#[trigger] poll.stages@[u] matches Some(st) && !is_pre_nccl_stage(st@)),
            decreases n - q,
        {
            match &poll.stages[q] {
                Some(st) => {
                    if !stage_is_after_nccl_init(st.as_str()) {
                        past = false;
                    }
                },
                None => {
                    past = false;
                },
            }
            q = q + 1;
        }
        let late = match s.checked_add(t) {
            Some(deadline) => poll.now_ms > deadline,
            None => false,
        };
        if !past && late {
            let next = LauncherState { completed: done, nccl_init_seen_at_ms: seen };
            return (next, LauncherAction::NcclInitTimeout);
        }
    }
    if let Some(t) = limits.timeout_ms {
        if poll.now_ms > t {
            let next = LauncherState { completed: done, nccl_init_seen_at_ms: seen };
            return (next, LauncherAction::Timeout);
        }
    }
    let next = LauncherState { completed: done, nccl_init_seen_at_ms: seen };
    (next, LauncherAction::Wait { progressed })
}

} // verus!
