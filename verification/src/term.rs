//! Terminal ownership state and signal exit codes.
//!
//! The guard records whether the program currently owns the terminal (raw
//! mode, alternate screen). Restoring is symmetric and happens at most once per
//! entry: the first `restore` reports that the teardown sequence is due, later
//! ones report nothing to do until the terminal is entered again.
use vstd::prelude::*;

verus! {

/// One restore on a guard that owns the terminal or not: whether the teardown
/// sequence is due, and whether the guard owns the terminal afterwards.
pub open spec fn spec_restore(owns: bool) -> (bool, bool) {
    (owns, false)
}

/// A call that changes a guard: `restore()` (also the first half of a
/// suspension) or `resumed()`.
#[derive(Clone, Copy, Debug, PartialEq, Eq, Structural)]
pub enum GuardOp {
    Restore,
    Resume,
}

/// Owns the terminal while the app runs.
pub struct TermGuard {
    active: bool,
}

impl TermGuard {
    /// Whether the guard currently owns the terminal.
    pub closed spec fn owns(&self) -> bool {
        self.active
    }

    /// The guard for a terminal that has just been entered (raw mode and
    /// alternate screen set up).
    pub fn entered() -> (g: Self)
        ensures
            g.owns(),
    {
        TermGuard { active: true }
    }

    /// Whether the guard currently owns the terminal.
    pub fn is_active(&self) -> (r: bool)
        ensures
            r == self.owns(),
    {
        self.active
    }

    /// Give the terminal back. Returns whether the teardown sequence is due
    /// now (the guard owned the terminal); afterwards the guard owns nothing.
    pub fn restore(&mut self) -> (due: bool)
        ensures
            (due, final(self).owns()) == spec_restore(old(self).owns()),
            stepped(*old(self), *final(self), GuardOp::Restore),
    {
        if !self.active {
            return false;
        }
        self.active = false;
        true
    }

    /// Record that the terminal was entered again after a suspension.
    pub fn resumed(&mut self)
        ensures
            final(self).owns(),
            stepped(*old(self), *final(self), GuardOp::Resume),
    {
        self.active = true;
    }
}

/// `after` is `before` with `op` applied: a restore leaves the guard owning
/// nothing, a resume owning the terminal.
pub open spec fn stepped(before: TermGuard, after: TermGuard, op: GuardOp) -> bool {
    match op {
        GuardOp::Restore => !after.owns(),
        GuardOp::Resume => after.owns(),
    }
}

/// Whether a freshly entered guard owns the terminal after the calls `ops`:
/// when there were none, or the last was a resume.
pub open spec fn owns_after(ops: Seq<GuardOp>) -> bool {
    ops.len() == 0 || ops.last() == GuardOp::Resume
}

proof fn lemma_guard_prefix(gs: Seq<TermGuard>, ops: Seq<GuardOp>, k: int)
    requires
        gs.len() == ops.len() + 1,
        gs[0].owns(),
        forall|i: int| 0 <= i < ops.len() ==> stepped(#[trigger] gs[i], gs[i + 1], ops[i]),
        0 <= k <= ops.len(),
    ensures
        gs[k].owns() == owns_after(ops.take(k)),
{
    if k > 0 {
        assert(stepped(gs[k - 1], gs[k], ops[k - 1]));
        assert(ops.take(k).last() == ops[k - 1]);
    }
}

/// The guard over any sequence of calls: after `entered()` (guard `gs[0]`) and
/// the calls `ops`, each taking guard `gs[i]` to `gs[i + 1]`, the guard owns
/// the terminal exactly when no call was made or the last was a resume; and
/// each restore has its teardown due exactly when the guard owned the terminal
/// just before it, so a restore on an inactive guard writes nothing.
pub proof fn lemma_guard_history(gs: Seq<TermGuard>, ops: Seq<GuardOp>)
    requires
        gs.len() == ops.len() + 1,
        gs[0].owns(),
        forall|i: int| 0 <= i < ops.len() ==> stepped(#[trigger] gs[i], gs[i + 1], ops[i]),
    ensures
        gs.last().owns() == owns_after(ops),
        forall|i: int|
            0 <= i < ops.len() && ops[i] == GuardOp::Restore ==> spec_restore(
                #[trigger] gs[i].owns(),
            ).0 == owns_after(ops.take(i)),
{
    lemma_guard_prefix(gs, ops, ops.len() as int);
    assert(ops.take(ops.len() as int) == ops);
    assert forall|i: int|
        0 <= i < ops.len() && ops[i] == GuardOp::Restore implies spec_restore(
            #[trigger] gs[i].owns(),
        ).0 == owns_after(ops.take(i)) by {
        lemma_guard_prefix(gs, ops, i);
    }
}

/// Restoring twice in a row performs the teardown at most once: the first
/// restore is due exactly when the guard owned the terminal, the second never.
pub proof fn lemma_restore_twice(owns: bool)
    ensures
        spec_restore(owns).0 == owns,
        !spec_restore(spec_restore(owns).1).0,
{
}

/// The conventional exit code for a process ended by signal `sig`: 128 + n.
pub fn exit_code_for_signal(sig: i32) -> (code: i32)
    requires
        sig <= i32::MAX - 128,
    ensures
        code == 128 + sig,
{
    128 + sig
}

} // verus!
