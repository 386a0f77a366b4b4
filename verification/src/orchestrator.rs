//! The flashing orchestrator's decisions: the one-run-at-a-time flag,
//! the progress anchors of each step, and the cancellation rule that no
//! progress is reported once a stop was requested.

use vstd::prelude::*;

use vstd::string::StringExecFns;

verus! {

/// The process-wide run state: whether a flashing run is active.
#[derive(Clone, Copy, Debug, PartialEq, Eq, Structural)]
pub struct OrchestratorState {
    pub running: bool,
}

impl OrchestratorState {
    /// A state with no run active.
    pub fn new() -> (r: Self)
        ensures
            !r.running,
    {
        OrchestratorState { running: false }
    }

    /// Begin a run: the flag flips to running, and the caller learns
    /// whether this call started the run. A second begin while running
    /// starts nothing, so at most one run is ever active.
    pub fn start(&mut self) -> (started: bool)
        ensures
            final(self).running,
            started == !old(self).running,
    {
        let was = self.running;
        self.running = true;
        !was
    }

    /// End a run: the flag flips to not running, and the caller learns
    /// whether a run was active.
    pub fn stop(&mut self) -> (stopped: bool)
        ensures
            !final(self).running,
            stopped == old(self).running,
    {
        let was = self.running;
        self.running = false;
        was
    }
}

/// The two operations the host shell performs on the run state.
#[derive(Clone, Copy, Debug, PartialEq, Eq, Structural)]
pub enum OrchOp {
    Start,
    Stop,
}

/// The state after one operation.
pub open spec fn spec_apply_op(s: OrchestratorState, op: OrchOp) -> OrchestratorState {
    match op {
        OrchOp::Start => OrchestratorState { running: true },
        OrchOp::Stop => OrchestratorState { running: false },
    }
}

/// The state after a whole operation sequence.
pub open spec fn spec_apply_ops(s: OrchestratorState, ops: Seq<OrchOp>) -> OrchestratorState
    decreases ops.len(),
{
    if ops.len() == 0 {
        s
    } else {
        spec_apply_ops(spec_apply_op(s, ops[0]), ops.drop_first())
    }
}

/// Whether the operation at position `i` spawns a task: only a begin
/// that finds the flag down does.
pub open spec fn spec_spawns(s: OrchestratorState, ops: Seq<OrchOp>, i: int) -> bool
    recommends
        0 <= i < ops.len(),
{
    ops[i] is Start && !spec_apply_ops(s, ops.take(i)).running
}

/// A stop-free stretch after a begin keeps the flag up.
proof fn lemma_runs_until_stop(s: OrchestratorState, ops: Seq<OrchOp>, i: int, j: int)
    requires
        0 <= i < j <= ops.len(),
        ops[i] is Start,
        forall|k: int| i < k < j ==> !((#[trigger] ops[k]) is Stop),
    ensures
        spec_apply_ops(s, ops.take(j)).running,
    decreases j - i,
{
    if j == i + 1 {
        lemma_apply_take_step(s, ops, j);
    } else {
        lemma_runs_until_stop(s, ops, i, j - 1);
        lemma_apply_take_step(s, ops, j);
        assert(!(ops[j - 1] is Stop));
    }
}

/// Applying one more operation of a prefix.
proof fn lemma_apply_take_step(s: OrchestratorState, ops: Seq<OrchOp>, j: int)
    requires
        0 < j <= ops.len(),
    ensures
        spec_apply_ops(s, ops.take(j)) == spec_apply_op(
            spec_apply_ops(s, ops.take(j - 1)),
            ops[j - 1],
        ),
    decreases j,
{
    if j == 1 {
        assert(ops.take(1).drop_first() =~= Seq::<OrchOp>::empty());
        assert(ops.take(1)[0] == ops[0]);
        assert(ops.take(0) =~= Seq::<OrchOp>::empty());
        assert(spec_apply_ops(s, ops.take(0)) == s);
        assert(spec_apply_ops(spec_apply_op(s, ops[0]), Seq::<OrchOp>::empty())
            == spec_apply_op(s, ops[0]));
        assert(spec_apply_ops(s, ops.take(1)) == spec_apply_ops(
            spec_apply_op(s, ops.take(1)[0]),
            ops.take(1).drop_first(),
        ));
        assert(spec_apply_ops(s, ops.take(1)) == spec_apply_op(s, ops[0]));
    } else {
        let s1 = spec_apply_op(s, ops[0]);
        let dops = ops.drop_first();
        lemma_apply_take_step(s1, dops, j - 1);
        assert(ops.take(j).drop_first() =~= dops.take(j - 1));
        assert(ops.take(j - 1).drop_first() =~= dops.take(j - 2));
        assert(ops.take(j)[0] == ops[0] && ops.take(j - 1)[0] == ops[0]);
        assert(dops[j - 2] == ops[j - 1]);
        assert(spec_apply_ops(s, ops.take(j)) == spec_apply_ops(s1, dops.take(j - 1)));
        assert(spec_apply_ops(s, ops.take(j - 1)) == spec_apply_ops(s1, dops.take(j - 2)));
        assert(spec_apply_ops(s1, dops.take(j - 1)) == spec_apply_op(
            spec_apply_ops(s1, dops.take(j - 2)),
            dops[j - 2],
        ));
    }
}

/// At most one flashing task is active: in any operation sequence, two
/// operations that each spawn a task always have a stop between them.
/// Within one run the flag is monotone, false, then true, then false.
pub proof fn lemma_at_most_one_run(s: OrchestratorState, ops: Seq<OrchOp>, i: int, j: int)
    requires
        0 <= i < j < ops.len(),
        spec_spawns(s, ops, i),
        spec_spawns(s, ops, j),
    ensures
        exists|k: int| i < k < j && (#[trigger] ops[k]) is Stop,
{
    if forall|k: int| i < k < j ==> !((#[trigger] ops[k]) is Stop) {
        lemma_runs_until_stop(s, ops, i, j);
    }
}

/// The progress anchor after flashing `count` of `total` partitions:
/// twenty percent for setup, sixty across the partitions.
pub fn flash_program_progress(count: usize, total: usize) -> (r: u64)
    requires
        0 < total,
        count <= total,
    ensures
        r == 20 + (count as int * 60) / (total as int),
        20 <= r <= 80,
{
    proof {
        assert(count as int * 60 <= total as int * 60) by (nonlinear_arith)
            requires
                count <= total,
        ;
        assert((count as int * 60) / (total as int) <= (total as int * 60) / (total as int))
            by (nonlinear_arith)
            requires
                0 < total,
                count as int * 60 <= total as int * 60,
        ;
        assert((total as int * 60) / (total as int) == 60) by (nonlinear_arith)
            requires
                0 < total,
        ;
        assert(count as int * 60 >= 0 && (count as int * 60) / (total as int) >= 0)
            by (nonlinear_arith)
            requires
                0 < total,
                count >= 0,
        ;
    }
    let p: u128 = ((count as u128) * 60) / (total as u128);
    proof {
        assert(p == (count as int * 60) / (total as int));
    }
    (p as u64) + 20
}

/// The progress anchor after flashing `count` of `total` patch files:
/// eighty percent going in, fifteen across the files.
pub fn flash_patch_progress(count: usize, total: usize) -> (r: u64)
    requires
        0 < total,
        count <= total,
    ensures
        r == 80 + (count as int * 15) / (total as int),
        80 <= r <= 95,
{
    proof {
        assert(count as int * 15 <= total as int * 15) by (nonlinear_arith)
            requires
                count <= total,
        ;
        assert((count as int * 15) / (total as int) <= (total as int * 15) / (total as int))
            by (nonlinear_arith)
            requires
                0 < total,
                count as int * 15 <= total as int * 15,
        ;
        assert((total as int * 15) / (total as int) == 15) by (nonlinear_arith)
            requires
                0 < total,
        ;
        assert(count as int * 15 >= 0 && (count as int * 15) / (total as int) >= 0)
            by (nonlinear_arith)
            requires
                0 < total,
                count >= 0,
        ;
    }
    let p: u128 = ((count as u128) * 15) / (total as u128);
    proof {
        assert(p == (count as int * 15) / (total as int));
    }
    (p as u64) + 80
}

/// Progress anchors never move backwards as the count grows.
pub proof fn lemma_progress_monotone(c1: usize, c2: usize, total: usize)
    requires
        0 < total,
        c1 <= c2 <= total,
    ensures
        20 + (c1 as int * 60) / (total as int) <= 20 + (c2 as int * 60) / (total as int),
        80 + (c1 as int * 15) / (total as int) <= 80 + (c2 as int * 15) / (total as int),
{
    assert(c1 as int * 60 <= c2 as int * 60 && c1 as int * 15 <= c2 as int * 15)
        by (nonlinear_arith)
        requires
            c1 <= c2,
    ;
    assert((c1 as int * 60) / (total as int) <= (c2 as int * 60) / (total as int) && (c1 as int
        * 15) / (total as int) <= (c2 as int * 15) / (total as int)) by (nonlinear_arith)
        requires
            0 < total,
            c1 as int * 60 <= c2 as int * 60,
            c1 as int * 15 <= c2 as int * 15,
    ;
}

/// What the run does before flashing its next partition or patch file:
/// carry on, or honor a stop request.
pub enum FlashStepPlan {
    /// Flash the item, then report the given progress and log line.
    Proceed { percentage: u64, log: String },
    /// A stop was requested: report the cancellation, report nothing
    /// else, and end the run.
    Cancel { log: String },
}

/// Decide the next step of the partition loop. Once a stop is requested
/// the plan carries no progress report: the run emits the cancellation
/// line and ends.
pub fn flash_program_step(cancel_requested: bool, label: &str, count: usize, total: usize) -> (r:
    FlashStepPlan)
    requires
        0 < total,
        0 < count <= total,
    ensures
        cancel_requested ==> (r matches FlashStepPlan::Cancel { log } && log@
            == "Operation canceled by user"@),
        !cancel_requested ==> (r matches FlashStepPlan::Proceed { percentage, log } && percentage
            == 20 + (count as int * 60) / (total as int) && percentage <= 80 && log@
            == "Flash partition: "@ + label@),
{
    if cancel_requested {
        FlashStepPlan::Cancel { log: String::from_str("Operation canceled by user") }
    } else {
        let mut log = String::from_str("Flash partition: ");
        log.append(label);
        FlashStepPlan::Proceed { percentage: flash_program_progress(count, total), log }
    }
}

/// Decide the next step of the patch loop, under the same cancellation
/// rule.
pub fn flash_patch_step(cancel_requested: bool, file: &str, count: usize, total: usize) -> (r:
    FlashStepPlan)
    requires
        0 < total,
        0 < count <= total,
    ensures
        cancel_requested ==> (r matches FlashStepPlan::Cancel { log } && log@
            == "Operation canceled by user"@),
        !cancel_requested ==> (r matches FlashStepPlan::Proceed { percentage, log } && percentage
            == 80 + (count as int * 15) / (total as int) && percentage <= 95 && log@
            == "Flash patch file: "@ + file@),
{
    if cancel_requested {
        FlashStepPlan::Cancel { log: String::from_str("Operation canceled by user") }
    } else {
        let mut log = String::from_str("Flash patch file: ");
        log.append(file);
        FlashStepPlan::Proceed { percentage: flash_patch_progress(count, total), log }
    }
}


} // verus!
