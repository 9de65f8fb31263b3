//! Runs that can be aborted. Ctrl-C and the teardown of the engine abort a run
//! through its flag, which is checked *before* the run goes on, so an aborted
//! run never resumes its body (and never touches the engine again).

use crate::ask::Replies;
use crate::eval;
use crate::eval::{LineRun, Turn};
use crate::expr::Scope;
use crate::pipeline::{Env, EnvView};
use crate::registry::CommandRegistry;
use crate::tasks::{Tasks, TasksView};
use vstd::prelude::*;

verus! {

/// The run was aborted before it could go on.
#[derive(Clone, Copy, Debug, PartialEq, Eq, Structural)]
pub struct Aborted;

/// What aborts a run: every copy of the handle names the same run, whose flag is
/// kept in one place (see `Tasks`).
#[derive(Clone, Copy, Debug, PartialEq, Eq, Structural)]
pub struct AbortHandle {
    pub run_id: u64,
}

impl AbortHandle {
    /// Raise the flag of the run. It stays up.
    pub fn abort(&self, tasks: &mut Tasks)
        requires
            old(tasks)@.wf(),
            self.run_id < old(tasks)@.next,
        ensures
            final(tasks)@ == old(tasks)@.with_aborted(self.run_id),
            final(tasks)@.wf(),
    {
        tasks.raise(self.run_id);
    }

    pub fn is_aborted(&self, tasks: &Tasks) -> (r: bool)
        ensures
            r == tasks@.aborted.contains(self.run_id),
    {
        tasks.is_raised(self.run_id)
    }
}

/// A raised flag is seen by every handle of its run and by no other, stays up
/// whatever else is aborted, and is not raised twice.
pub proof fn an_abort_is_seen_by_every_copy(
    tasks: TasksView,
    raised: AbortHandle,
    copy: AbortHandle,
    other: AbortHandle,
)
    requires
        copy == raised,
        other.run_id != raised.run_id,
    ensures
        tasks.with_aborted(raised.run_id).aborted.contains(copy.run_id),
        tasks.with_aborted(raised.run_id).with_aborted(other.run_id).aborted.contains(copy.run_id),
        tasks.with_aborted(raised.run_id).aborted.contains(other.run_id)
            == tasks.aborted.contains(other.run_id),
        tasks.with_aborted(raised.run_id).with_aborted(copy.run_id) == tasks.with_aborted(
            raised.run_id,
        ),
{
    let once = tasks.with_aborted(raised.run_id);
    assert(once.with_aborted(copy.run_id) =~= once);
}

/// A line's run behind an abort flag, with the variables and the width that it
/// started with: a variable that is set mid-run takes effect on the next line.
pub struct Abortable {
    pub inner: LineRun,
    pub scope: Scope,
    pub width: u16,
    pub handle: AbortHandle,
}

impl Abortable {
    pub open spec fn wf(self) -> bool {
        self.inner@.wf()
    }

    /// What the stages of the run are given.
    pub open spec fn env(self, registry: CommandRegistry, replies: Replies) -> EnvView {
        EnvView {
            entries: registry@,
            scope: self.scope@,
            width: self.width,
            replies: replies@,
        }
    }

    /// A run with a flag of its own, which is down, and the handle that raises it.
    pub fn wrap(inner: LineRun, scope: Scope, width: u16, tasks: &mut Tasks) -> (r: (
        Self,
        AbortHandle,
    ))
        requires
            old(tasks)@.wf(),
            old(tasks)@.next < u64::MAX,
        ensures
            r.1.run_id == old(tasks)@.next,
            r.0 == (Abortable { inner, scope, width, handle: r.1 }),
            final(tasks)@ == (TasksView {
                next: (old(tasks)@.next + 1) as u64,
                ..old(tasks)@
            }),
            final(tasks)@.wf(),
            !final(tasks)@.aborted.contains(r.1.run_id),
    {
        let handle = AbortHandle { run_id: tasks.next_id() };
        (Abortable { inner, scope, width, handle }, handle)
    }

    /// The run's next round, or `Aborted` if its flag was raised first.
    pub fn advance(
        &mut self,
        tasks: &Tasks,
        registry: &CommandRegistry,
        replies: &Replies,
    ) -> (r: Result<Turn, Aborted>)
        requires
            old(self).wf(),
            eval::countable(registry@),
        ensures
            final(self).wf(),
            final(self).handle == old(self).handle,
            final(self).scope == old(self).scope,
            final(self).width == old(self).width,
            r is Err <==> tasks@.aborted.contains(old(self).handle.run_id),
            r is Err ==> *final(self) == *old(self),
            r matches Ok(turn) ==> eval::advanced(
                old(self).inner@,
                final(self).inner@,
                turn,
                old(self).env(*registry, *replies),
            ),
    {
        if self.handle.is_aborted(tasks) {
            return Err(Aborted);
        }
        let env = Env { registry, scope: &self.scope, width: self.width, replies };
        let turn = self.inner.advance(&env);
        Ok(turn)
    }
}

} // verus!
