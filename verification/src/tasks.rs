//! The runs in flight. Each submitted line gets a run id; Ctrl-C aborts every
//! run of a pane, closing a pane aborts its runs, and the teardown of the
//! engine aborts everything. The program holds the runs themselves and their
//! timers: what is decided here is which of them to abort, and which timers to
//! clear. The flag of an aborted run is raised here, once for all its handles.

use vstd::prelude::*;

verus! {

#[derive(Clone, Copy, Debug, PartialEq, Eq, Structural)]
pub struct Task {
    pub run_id: u64,
    pub pane: u32,
    /// The probe-deadline timer, if one was armed for this run. Cleared
    /// whenever the run ends, by whichever path gets there first (normal finish
    /// or abort) -- otherwise a late timer could fire after the run's
    /// `ProgressiveConsumer` is gone and force a commit on whatever the pane
    /// happens to be running next.
    pub probe_timeout: Option<i32>,
}

pub struct Tasks {
    pub running: Vec<Task>,
    pub next: u64,
    /// The runs whose flag was raised.
    pub aborted: Vec<u64>,
}

#[verifier::ext_equal]
pub struct TasksView {
    pub running: Seq<Task>,
    pub next: u64,
    pub aborted: Set<u64>,
}

impl TasksView {
    /// Every id in use was given out, and no run is listed twice.
    pub open spec fn wf(self) -> bool {
        &&& listed_once(self.running)
        &&& forall|i: int| 0 <= i < self.running.len() ==> (#[trigger] self.running[i]).run_id
            < self.next
        &&& forall|id: u64| #[trigger] self.aborted.contains(id) ==> id < self.next
    }

    pub open spec fn with_aborted(self, run_id: u64) -> TasksView {
        TasksView { aborted: self.aborted.insert(run_id), ..self }
    }
}

/// No two entries are of the same run.
pub open spec fn listed_once(running: Seq<Task>) -> bool {
    forall|i: int, j: int|
        0 <= i < j < running.len() ==> (#[trigger] running[i]).run_id != (
        #[trigger] running[j]).run_id
}

/// The ids of some runs.
pub open spec fn ids(tasks: Seq<Task>) -> Set<u64> {
    Set::new(|id: u64| exists|i: int| 0 <= i < tasks.len() && (#[trigger] tasks[i]).run_id == id)
}

impl View for Tasks {
    type V = TasksView;

    open spec fn view(&self) -> TasksView {
        TasksView { running: self.running@, next: self.next, aborted: self.aborted@.to_set() }
    }
}

/// The runs of a pane.
pub open spec fn of_pane(running: Seq<Task>, pane: u32) -> Seq<Task>
    decreases running.len(),
{
    if running.len() == 0 {
        Seq::empty()
    } else {
        let out = of_pane(running.drop_last(), pane);
        if running.last().pane == pane {
            out.push(running.last())
        } else {
            out
        }
    }
}

/// The runs of the other panes.
pub open spec fn elsewhere(running: Seq<Task>, pane: u32) -> Seq<Task>
    decreases running.len(),
{
    if running.len() == 0 {
        Seq::empty()
    } else {
        let out = elsewhere(running.drop_last(), pane);
        if running.last().pane == pane {
            out
        } else {
            out.push(running.last())
        }
    }
}

/// The runs of some panes, pane after pane, each once.
pub open spec fn of_panes(running: Seq<Task>, panes: Seq<u32>) -> (Seq<Task>, Seq<Task>)
    decreases panes.len(),
{
    if panes.len() == 0 {
        (Seq::empty(), running)
    } else {
        let (victims, left) = of_panes(running, panes.drop_last());
        (victims + of_pane(left, panes.last()), elsewhere(left, panes.last()))
    }
}

/// Where a run is listed.
pub open spec fn place(running: Seq<Task>, run_id: u64) -> Option<int>
    decreases running.len(),
{
    if running.len() == 0 {
        None
    } else if running.last().run_id == run_id {
        Some(running.len() - 1)
    } else {
        place(running.drop_last(), run_id)
    }
}

/// What `place` finds.
pub proof fn place_is_last(running: Seq<Task>, run_id: u64)
    ensures
        match place(running, run_id) {
            Some(i) => 0 <= i < running.len() && running[i].run_id == run_id,
            None => forall|i: int| 0 <= i < running.len() ==> (#[trigger] running[i]).run_id != run_id,
        },
    decreases running.len(),
{
    if running.len() > 0 {
        place_is_last(running.drop_last(), run_id);
        if running.last().run_id != run_id {
            match place(running.drop_last(), run_id) {
                Some(i) => {
                    assert(running[i] == running.drop_last()[i]);
                },
                None => {
                    assert forall|i: int| 0 <= i < running.len() implies (
                    #[trigger] running[i]).run_id != run_id by {
                        if i < running.len() - 1 {
                            assert(running[i] == running.drop_last()[i]);
                        }
                    }
                },
            }
        }
    }
}

pub open spec fn busy(running: Seq<Task>, pane: u32) -> bool {
    exists|i: int| 0 <= i < running.len() && (#[trigger] running[i]).pane == pane
}

proof fn elsewhere_is(running: Seq<Task>, pane: u32)
    ensures
        forall|t: Task| #[trigger]
            elsewhere(running, pane).contains(t) <==> running.contains(t) && t.pane != pane,
        forall|t: Task| #[trigger]
            of_pane(running, pane).contains(t) <==> running.contains(t) && t.pane == pane,
    decreases running.len(),
{
    if running.len() > 0 {
        let init = running.drop_last();
        let last = running.last();
        elsewhere_is(init, pane);
        assert(running =~= init.push(last));
        assert forall|t: Task| #[trigger] running.contains(t) <==> init.contains(t) || t == last by {
            if init.contains(t) {
                let i = choose|i: int| 0 <= i < init.len() && init[i] == t;
                assert(running[i] == t);
            }
            if t == last {
                assert(running[running.len() - 1] == t);
            }
        }
        let rest = elsewhere(init, pane);
        let here = of_pane(init, pane);
        assert forall|t: Task| #[trigger] rest.push(last).contains(t) <==> rest.contains(t) || t
            == last by {
            pushed_contains(rest, last, t);
        }
        assert forall|t: Task| #[trigger] here.push(last).contains(t) <==> here.contains(t) || t
            == last by {
            pushed_contains(here, last, t);
        }
        assert forall|t: Task| #[trigger]
            elsewhere(running, pane).contains(t) <==> running.contains(t) && t.pane != pane by {
            assert(running.contains(t) <==> init.contains(t) || t == last);
            assert(rest.push(last).contains(t) <==> rest.contains(t) || t == last);
            assert(rest.contains(t) <==> init.contains(t) && t.pane != pane);
        }
        assert forall|t: Task| #[trigger]
            of_pane(running, pane).contains(t) <==> running.contains(t) && t.pane == pane by {
            assert(running.contains(t) <==> init.contains(t) || t == last);
            assert(here.push(last).contains(t) <==> here.contains(t) || t == last);
            assert(here.contains(t) <==> init.contains(t) && t.pane == pane);
        }
    }
}

proof fn elsewhere_lists_once(running: Seq<Task>, pane: u32)
    requires
        listed_once(running),
    ensures
        listed_once(elsewhere(running, pane)),
    decreases running.len(),
{
    if running.len() > 0 {
        let init = running.drop_last();
        let last = running.last();
        let rest = elsewhere(init, pane);
        elsewhere_lists_once(init, pane);
        elsewhere_is(init, pane);
        assert forall|i: int| 0 <= i < rest.len() implies (#[trigger] rest[i]).run_id
            != last.run_id by {
            assert(rest.contains(rest[i]));
            let j = choose|j: int| 0 <= j < init.len() && init[j] == rest[i];
            assert(running[j] == rest[i]);
            assert(running[running.len() - 1] == last);
        }
    }
}

/// A run that finished is in flight no longer, and every other run is as before.
pub proof fn a_finished_run_is_gone(running: Seq<Task>, run_id: u64, other: u64)
    requires
        listed_once(running),
        other != run_id,
    ensures
        place(running, run_id) matches Some(i) ==> {
            let left = running.remove(i);
            &&& place(left, run_id) is None
            &&& match (place(running, other), place(left, other)) {
                (Some(j), Some(k)) => left[k] == running[j],
                (None, None) => true,
                _ => false,
            }
        },
{
    place_is_last(running, run_id);
    place_is_last(running, other);
    match place(running, run_id) {
        None => {},
        Some(i) => {
            let left = running.remove(i);
            place_is_last(left, run_id);
            place_is_last(left, other);
            if let Some(k) = place(left, run_id) {
                assert(left[k] == running[if k < i {
                    k
                } else {
                    k + 1
                }]);
            }
            if let Some(j) = place(running, other) {
                assert(left[if j < i {
                    j
                } else {
                    j - 1
                }] == running[j]);
            }
            if let Some(k) = place(left, other) {
                assert(left[k] == running[if k < i {
                    k
                } else {
                    k + 1
                }]);
            }
        },
    }
}

proof fn pushed_contains(s: Seq<Task>, x: Task, t: Task)
    ensures
        s.push(x).contains(t) <==> s.contains(t) || t == x,
{
    if s.contains(t) {
        let i = choose|i: int| 0 <= i < s.len() && s[i] == t;
        assert(s.push(x)[i] == t);
    }
    if t == x {
        assert(s.push(x)[s.len() as int] == t);
    }
}

/// Aborting a pane takes every run of it and no other: the pane is idle after
/// it, and the runs of every other pane go on.
pub proof fn aborting_a_pane_spares_the_others(running: Seq<Task>, pane: u32, t: Task)
    ensures
        of_pane(running, pane).contains(t) <==> running.contains(t) && t.pane == pane,
        elsewhere(running, pane).contains(t) <==> running.contains(t) && t.pane != pane,
        !busy(elsewhere(running, pane), pane),
{
    elsewhere_is(running, pane);
    let rest = elsewhere(running, pane);
    if busy(rest, pane) {
        let i = choose|i: int| 0 <= i < rest.len() && (#[trigger] rest[i]).pane == pane;
        assert(rest.contains(rest[i]));
    }
}

proof fn ids_of_both(a: Seq<Task>, b: Seq<Task>)
    ensures
        ids(a + b) == ids(a).union(ids(b)),
{
    let all = a + b;
    assert forall|id: u64| ids(all).contains(id) <==> ids(a).contains(id) || ids(b).contains(id) by {
        if ids(a).contains(id) {
            let i = choose|i: int| 0 <= i < a.len() && (#[trigger] a[i]).run_id == id;
            assert(all[i].run_id == id);
        }
        if ids(b).contains(id) {
            let i = choose|i: int| 0 <= i < b.len() && (#[trigger] b[i]).run_id == id;
            assert(all[a.len() + i].run_id == id);
        }
        if ids(all).contains(id) {
            let i = choose|i: int| 0 <= i < all.len() && (#[trigger] all[i]).run_id == id;
            if i < a.len() {
                assert(a[i].run_id == id);
            } else {
                assert(b[i - a.len()].run_id == id);
            }
        }
    }
    assert(ids(all) =~= ids(a).union(ids(b)));
}

/// Aborting a pane raises the flags of its runs, and of no other that is in
/// flight.
pub proof fn aborting_a_pane_raises_its_flags(tasks: TasksView, pane: u32, i: int)
    requires
        tasks.wf(),
        0 <= i < tasks.running.len(),
        !tasks.aborted.contains(tasks.running[i].run_id),
    ensures
        tasks.aborted.union(ids(of_pane(tasks.running, pane))).contains(tasks.running[i].run_id)
            <==> tasks.running[i].pane == pane,
{
    let running = tasks.running;
    let hit = of_pane(running, pane);
    elsewhere_is(running, pane);
    assert(running.contains(running[i]));
    if running[i].pane == pane {
        assert(hit.contains(running[i]));
        let k = choose|k: int| 0 <= k < hit.len() && hit[k] == running[i];
        assert(hit[k].run_id == running[i].run_id);
    } else if ids(hit).contains(running[i].run_id) {
        let k = choose|k: int| 0 <= k < hit.len() && (#[trigger] hit[k]).run_id
            == running[i].run_id;
        assert(hit.contains(hit[k]));
        let j = choose|j: int| 0 <= j < running.len() && running[j] == hit[k];
        assert(running[j].run_id == running[i].run_id);
    }
}

impl Tasks {
    pub fn new() -> (r: Self)
        ensures
            r@ == (TasksView { running: Seq::empty(), next: 1, aborted: Set::empty() }),
            r@.wf(),
    {
        let r = Tasks { running: Vec::new(), next: 1, aborted: Vec::new() };
        proof {
            assert(r@.running =~= Seq::empty());
            assert(r@.aborted =~= Set::empty());
        }
        r
    }

    /// Raise the flag of a run.
    pub fn raise(&mut self, run_id: u64)
        ensures
            final(self)@ == old(self)@.with_aborted(run_id),
            old(self)@.wf() && run_id < old(self)@.next ==> final(self)@.wf(),
    {
        if !self.is_raised(run_id) {
            let ghost was = self.aborted@;
            self.aborted.push(run_id);
            proof {
                assert forall|id: u64| was.push(run_id).contains(id) <==> was.contains(id) || id
                    == run_id by {
                    if was.contains(id) {
                        let i = choose|i: int| 0 <= i < was.len() && was[i] == id;
                        assert(was.push(run_id)[i] == id);
                    }
                    assert(was.push(run_id)[was.len() as int] == run_id);
                }
            }
        }
        proof {
            assert(self@.aborted =~= old(self)@.aborted.insert(run_id));
        }
    }

    /// Was the flag of the run raised?
    pub fn is_raised(&self, run_id: u64) -> (r: bool)
        ensures
            r == self@.aborted.contains(run_id),
    {
        let mut i: usize = 0;
        while i < self.aborted.len()
            invariant
                i <= self.aborted@.len(),
                forall|k: int| 0 <= k < i ==> self.aborted@[k] != run_id,
            decreases self.aborted@.len() - i,
        {
            if self.aborted[i] == run_id {
                return true;
            }
            i = i + 1;
        }
        false
    }

    /// Raise the flags of some runs.
    fn raise_all(&mut self, victims: &Vec<Task>)
        ensures
            final(self)@ == (TasksView {
                aborted: old(self)@.aborted.union(ids(victims@)),
                ..old(self)@
            }),
    {
        let ghost was = self@;
        let mut i: usize = 0;
        proof {
            assert(was.aborted.union(ids(victims@.take(0))) =~= was.aborted);
        }
        while i < victims.len()
            invariant
                i <= victims@.len(),
                self@ == (TasksView {
                    aborted: was.aborted.union(ids(victims@.take(i as int))),
                    ..was
                }),
            decreases victims@.len() - i,
        {
            let ghost before = victims@.take(i as int);
            self.raise(victims[i].run_id);
            proof {
                let more = victims@.take(i + 1);
                assert(more =~= before.push(victims@[i as int]));
                assert forall|id: u64| ids(more).contains(id) <==> ids(before).contains(id) || id
                    == victims@[i as int].run_id by {
                    if ids(before).contains(id) {
                        let k = choose|k: int| 0 <= k < before.len() && (#[trigger]
                            before[k]).run_id == id;
                        assert(more[k].run_id == id);
                    }
                    if ids(more).contains(id) {
                        let k = choose|k: int| 0 <= k < more.len() && (#[trigger] more[k]).run_id
                            == id;
                        if k < i {
                            assert(before[k].run_id == id);
                        }
                    }
                    assert(more[i as int].run_id == victims@[i as int].run_id);
                }
                assert(was.aborted.union(ids(before)).insert(victims@[i as int].run_id)
                    =~= was.aborted.union(ids(more)));
            }
            i = i + 1;
        }
        proof {
            assert(victims@.take(victims@.len() as int) =~= victims@);
        }
    }

    /// A run id that was not given out before.
    pub fn next_id(&mut self) -> (r: u64)
        requires
            old(self)@.next < u64::MAX,
        ensures
            r == old(self)@.next,
            final(self)@ == (TasksView { next: (old(self)@.next + 1) as u64, ..old(self)@ }),
            old(self)@.wf() ==> final(self)@.wf() && !final(self)@.aborted.contains(r),
    {
        let id: u64 = self.next;
        self.next = id + 1;
        id
    }

    /// Note a run, in place of one with the same id.
    pub fn register(&mut self, run_id: u64, pane: u32)
        ensures
            final(self)@ == (TasksView {
                running: match place(old(self)@.running, run_id) {
                    Some(i) => old(self)@.running.remove(i),
                    None => old(self)@.running,
                }.push(Task { run_id, pane, probe_timeout: None }),
                ..old(self)@
            }),
            old(self)@.wf() && run_id < old(self)@.next ==> final(self)@.wf(),
    {
        proof {
            place_is_last(self.running@, run_id);
        }
        if let Some(i) = self.find(run_id) {
            let _ = self.running.remove(i);
        }
        self.running.push(Task { run_id, pane, probe_timeout: None });
    }

    fn find(&self, run_id: u64) -> (r: Option<usize>)
        ensures
            match r {
                Some(i) => place(self@.running, run_id) == Some(i as int) && i < self@.running.len(),
                None => place(self@.running, run_id) is None,
            },
    {
        let mut i: usize = self.running.len();
        proof {
            assert(self.running@.take(i as int) =~= self.running@);
        }
        while i > 0
            invariant
                i <= self.running@.len(),
                place(self.running@, run_id) == place(self.running@.take(i as int), run_id),
            decreases i,
        {
            proof {
                assert(self.running@.take(i as int).drop_last() =~= self.running@.take(i - 1));
            }
            i = i - 1;
            if self.running[i].run_id == run_id {
                return Some(i);
            }
        }
        None
    }

    /// Record the probe-deadline timer armed for this run, so that `finish` and
    /// the abort paths below can clear it. A run whose entry is already gone
    /// (finished or aborted between arming and this call) means the timer was
    /// already cleared, so this is a no-op rather than resurrecting the entry.
    pub fn set_probe_timeout(&mut self, run_id: u64, id: i32)
        ensures
            match place(old(self)@.running, run_id) {
                Some(i) => final(self)@ == (TasksView {
                    running: old(self)@.running.update(
                        i,
                        Task { probe_timeout: Some(id), ..old(self)@.running[i] },
                    ),
                    ..old(self)@
                }),
                None => final(self)@ == old(self)@,
            },
            old(self)@.wf() ==> final(self)@.wf(),
    {
        if let Some(i) = self.find(run_id) {
            let mut task = self.running[i];
            task.probe_timeout = Some(id);
            self.running.set(i, task);
        }
    }

    /// Is the run in flight?
    pub fn is_active(&self, run_id: u64) -> (r: bool)
        ensures
            r == (place(self@.running, run_id) is Some),
    {
        self.find(run_id).is_some()
    }

    /// The run ended. Returns its timer, which is to be cleared.
    pub fn finish(&mut self, run_id: u64) -> (r: Option<i32>)
        ensures
            match place(old(self)@.running, run_id) {
                Some(i) => r == old(self)@.running[i].probe_timeout && final(self)@ == (TasksView {
                    running: old(self)@.running.remove(i),
                    ..old(self)@
                }),
                None => r is None && final(self)@ == old(self)@,
            },
            old(self)@.wf() ==> final(self)@.wf(),
    {
        match self.find(run_id) {
            Some(i) => {
                let task = self.running.remove(i);
                task.probe_timeout
            },
            None => None,
        }
    }

    /// Any run still in flight for this pane?
    pub fn pane_busy(&self, pane: u32) -> (r: bool)
        ensures
            r == busy(self@.running, pane),
    {
        let mut i: usize = 0;
        while i < self.running.len()
            invariant
                i <= self.running@.len(),
                forall|k: int| 0 <= k < i ==> (#[trigger] self.running@[k]).pane != pane,
            decreases self.running@.len() - i,
        {
            if self.running[i].pane == pane {
                return true;
            }
            i = i + 1;
        }
        false
    }

    /// Abort every run in a pane (Ctrl-C): their flags are raised. Returns the
    /// runs, with the timers to clear.
    pub fn abort_pane(&mut self, pane: u32) -> (r: Vec<Task>)
        ensures
            r@ == of_pane(old(self)@.running, pane),
            final(self)@ == (TasksView {
                running: elsewhere(old(self)@.running, pane),
                aborted: old(self)@.aborted.union(ids(of_pane(old(self)@.running, pane))),
                ..old(self)@
            }),
            old(self)@.wf() ==> final(self)@.wf(),
    {
        let ghost was = self.running@;
        let mut victims: Vec<Task> = Vec::new();
        let mut left: Vec<Task> = Vec::new();
        let mut i: usize = 0;
        while i < self.running.len()
            invariant
                i <= self.running@.len(),
                was == self.running@,
                victims@ == of_pane(was.take(i as int), pane),
                left@ == elsewhere(was.take(i as int), pane),
            decreases self.running@.len() - i,
        {
            let task = self.running[i];
            proof {
                assert(was.take(i + 1).drop_last() =~= was.take(i as int));
            }
            if task.pane == pane {
                victims.push(task);
            } else {
                left.push(task);
            }
            i = i + 1;
        }
        proof {
            assert(was.take(was.len() as int) =~= was);
        }
        self.running = left;
        self.raise_all(&victims);
        proof {
            elsewhere_is(was, pane);
            if old(self)@.wf() {
                elsewhere_lists_once(was, pane);
                assert forall|i: int| 0 <= i < self@.running.len() implies (
                #[trigger] self@.running[i]).run_id < self@.next by {
                    assert(elsewhere(was, pane).contains(self@.running[i]));
                }
                assert forall|id: u64| #[trigger] self@.aborted.contains(id) implies id
                    < self@.next by {
                    if ids(victims@).contains(id) {
                        let i = choose|i: int| 0 <= i < victims@.len() && (#[trigger]
                            victims@[i]).run_id == id;
                        assert(of_pane(was, pane).contains(victims@[i]));
                    }
                }
            }
        }
        victims
    }

    /// Abort every run in each listed pane (panes that were closed).
    pub fn abort_panes(&mut self, panes: &Vec<u32>) -> (r: Vec<Task>)
        ensures
            (r@, final(self)@.running) == of_panes(old(self)@.running, panes@),
            final(self)@.next == old(self)@.next,
            final(self)@.aborted == old(self)@.aborted.union(ids(r@)),
            old(self)@.wf() ==> final(self)@.wf(),
    {
        let ghost was = self@;
        let mut victims: Vec<Task> = Vec::new();
        let mut i: usize = 0;
        proof {
            assert(was.aborted.union(ids(victims@)) =~= was.aborted);
        }
        while i < panes.len()
            invariant
                i <= panes@.len(),
                (victims@, self@.running) == of_panes(was.running, panes@.take(i as int)),
                self@.next == was.next,
                self@.aborted == was.aborted.union(ids(victims@)),
                was.wf() ==> self@.wf(),
            decreases panes@.len() - i,
        {
            proof {
                assert(panes@.take(i + 1).drop_last() =~= panes@.take(i as int));
            }
            let ghost before = victims@;
            let mut more = self.abort_pane(panes[i]);
            proof {
                ids_of_both(before, more@);
                assert(was.aborted.union(ids(before)).union(ids(more@)) =~= was.aborted.union(
                    ids(before + more@),
                ));
            }
            victims.append(&mut more);
            i = i + 1;
        }
        proof {
            assert(panes@.take(panes@.len() as int) =~= panes@);
        }
        victims
    }

    /// Abort everything.
    pub fn abort_all(&mut self) -> (r: Vec<Task>)
        ensures
            r@ == old(self)@.running,
            final(self)@ == (TasksView {
                running: Seq::empty(),
                aborted: old(self)@.aborted.union(ids(old(self)@.running)),
                ..old(self)@
            }),
            old(self)@.wf() ==> final(self)@.wf(),
    {
        let mut victims: Vec<Task> = Vec::new();
        std::mem::swap(&mut victims, &mut self.running);
        proof {
            assert(self@.running =~= Seq::empty());
        }
        self.raise_all(&victims);
        victims
    }
}

} // verus!
