//! Starting a list of programs one after the other, each after the
//! programs that it depends on are ready.
//!
//! The list decides which program is next; the caller spawns it and
//! asks the running programs whether they are ready. A program stays
//! pending until the caller reports that it was spawned, so one that
//! could not be spawned is still there. A disabled program is never
//! spawned and counts as ready for those that depend on it.

use crate::config::{clone_programs, program_views, Program, ProgramView, System};
use crate::execution::{info_views, ProgramInfo, ProgramInfoView};
use crate::graph::{find_program, position};
use crate::text::holds_text;
use vstd::prelude::*;

verus! {

/// What the caller does after a poll.
#[derive(Debug, PartialEq, Eq)]
pub enum PollStep {
    /// Nothing is to be started now; the flag says whether all programs
    /// are started and ready.
    Idle(bool),
    /// Spawn this program and report it with `launched`; it stays
    /// pending until then.
    Launch(Program),
}

/// Mathematical value of a [`PollStep`].
pub ghost enum PollStepView {
    Idle(bool),
    Launch(ProgramView),
}

impl View for PollStep {
    type V = PollStepView;

    open spec fn view(&self) -> PollStepView {
        match self {
            PollStep::Idle(done) => PollStepView::Idle(*done),
            PollStep::Launch(prog) => PollStepView::Launch(prog@),
        }
    }
}

/// Mathematical value of an [`ExecutionList`].
pub ghost struct ExecutionListView {
    pub running: Seq<ProgramInfoView>,
    pub pending: Seq<ProgramView>,
    pub ready: Seq<Seq<char>>,
}

/// The names that are ready after the first `n` running programs were
/// looked at: a program that was not ready and is reported ready now is
/// added.
pub open spec fn absorbed(
    running: Seq<ProgramInfoView>,
    ready: Seq<Seq<char>>,
    ready_now: Seq<Seq<char>>,
    n: int,
) -> Seq<Seq<char>>
    decreases n,
{
    if n <= 0 {
        ready
    } else {
        let so_far = absorbed(running, ready, ready_now, n - 1);
        let name = running[n - 1].name;
        if !so_far.contains(name) && ready_now.contains(name) {
            so_far.push(name)
        } else {
            so_far
        }
    }
}

/// Whether every dependency of a program is ready.
pub open spec fn startable(prog: ProgramView, ready: Seq<Seq<char>>) -> bool {
    forall|k: int| 0 <= k < prog.depends.len() ==> ready.contains(#[trigger] prog.depends[k])
}

/// Whether a pending program can leave the list: it is disabled, or it
/// can be started.
pub open spec fn actionable(prog: ProgramView, ready: Seq<Seq<char>>) -> bool {
    prog.disabled || startable(prog, ready)
}

/// The position of the first pending program at or after `from` that
/// can leave the list; the number of pending programs if there is none.
pub open spec fn first_actionable(pending: Seq<ProgramView>, ready: Seq<Seq<char>>, from: int) -> int
    decreases pending.len() - from,
{
    if from >= pending.len() {
        pending.len() as int
    } else if actionable(pending[from], ready) {
        from
    } else {
        first_actionable(pending, ready, from + 1)
    }
}

/// Whether each of the first `n` running programs is ready.
pub open spec fn ready_upto(l: ExecutionListView, n: int) -> bool {
    forall|i: int| 0 <= i < n ==> l.ready.contains(#[trigger] l.running[i].name)
}

/// Whether all programs are started and ready: none is pending, and
/// every running program is ready.
pub open spec fn complete(l: ExecutionListView) -> bool {
    l.pending.len() == 0 && ready_upto(l, l.running.len() as int)
}

/// The ready names with one more, unless it is among them already.
pub open spec fn with_name(ready: Seq<Seq<char>>, name: Seq<char>) -> Seq<Seq<char>> {
    if ready.contains(name) {
        ready
    } else {
        ready.push(name)
    }
}

/// One poll: the running programs that are reported ready become
/// ready; then the first pending program that is disabled or has all
/// its dependencies ready is dealt with. A disabled one leaves the list
/// and is ready from then on; any other is handed out to be spawned and
/// stays pending.
pub open spec fn spec_poll(l: ExecutionListView, ready_now: Seq<Seq<char>>) -> (
    ExecutionListView,
    PollStepView,
) {
    let ready = absorbed(l.running, l.ready, ready_now, l.running.len() as int);
    let at = first_actionable(l.pending, ready, 0);
    if at >= l.pending.len() {
        let next = ExecutionListView { ready, ..l };
        (next, PollStepView::Idle(complete(next)))
    } else if l.pending[at].disabled {
        let next = ExecutionListView {
            ready: with_name(ready, l.pending[at].name),
            pending: l.pending.remove(at),
            ..l
        };
        (next, PollStepView::Idle(complete(next)))
    } else {
        (ExecutionListView { ready, ..l }, PollStepView::Launch(l.pending[at]))
    }
}

/// A program was spawned: it runs, and the first pending program of
/// its name is pending no more.
pub open spec fn spec_launched(l: ExecutionListView, info: ProgramInfoView) -> ExecutionListView {
    let at = position(l.pending, info.name);
    ExecutionListView {
        running: l.running.push(info),
        pending: if at < l.pending.len() {
            l.pending.remove(at)
        } else {
            l.pending
        },
        ..l
    }
}

/// The position of the pending program that a poll deals with; the
/// number of pending programs if it deals with none.
pub open spec fn chosen(l: ExecutionListView, ready_now: Seq<Seq<char>>) -> int {
    first_actionable(
        l.pending,
        absorbed(l.running, l.ready, ready_now, l.running.len() as int),
        0,
    )
}

/// A disabled program that a poll deals with is ready after the poll,
/// and pending no more: a program that was waiting for it alone can be
/// started.
pub proof fn lemma_disabled_counts_as_ready(l: ExecutionListView, ready_now: Seq<Seq<char>>)
    requires
        0 <= chosen(l, ready_now) < l.pending.len(),
        l.pending[chosen(l, ready_now)].disabled,
    ensures
        spec_poll(l, ready_now).0.ready.contains(l.pending[chosen(l, ready_now)].name),
        spec_poll(l, ready_now).0.pending == l.pending.remove(chosen(l, ready_now)),
        spec_poll(l, ready_now).0.running == l.running,
{
    let ready = absorbed(l.running, l.ready, ready_now, l.running.len() as int);
    let name = l.pending[chosen(l, ready_now)].name;
    if !ready.contains(name) {
        assert(ready.push(name)[ready.len() as int] == name);
    }
}

/// A poll that hands out a program to be spawned keeps it pending, and
/// the same poll comes again until the program is reported spawned: a
/// failed spawn loses no program.
pub proof fn lemma_launch_keeps_pending(l: ExecutionListView, ready_now: Seq<Seq<char>>)
    requires
        spec_poll(l, ready_now).1 is Launch,
    ensures
        spec_poll(l, ready_now).0.pending == l.pending,
        spec_poll(l, ready_now).0.running == l.running,
        l.pending.contains(spec_poll(l, ready_now).1->Launch_0),
{
    let ready = absorbed(l.running, l.ready, ready_now, l.running.len() as int);
    let at = first_actionable(l.pending, ready, 0);
    lemma_first_actionable(l.pending, ready, 0);
    assert(l.pending[at] == spec_poll(l, ready_now).1->Launch_0);
}

/// The first actionable position lies at or after `from` and within
/// the list or at its end.
pub proof fn lemma_first_actionable(pending: Seq<ProgramView>, ready: Seq<Seq<char>>, from: int)
    requires
        0 <= from <= pending.len(),
    ensures
        from <= first_actionable(pending, ready, from) <= pending.len(),
    decreases pending.len() - from,
{
    if from < pending.len() && !actionable(pending[from], ready) {
        lemma_first_actionable(pending, ready, from + 1);
    }
}

/// The programs to start, those that run, and the names of those that
/// are ready.
#[derive(Debug)]
pub struct ExecutionList {
    running: Vec<ProgramInfo>,
    pending: Vec<Program>,
    ready: Vec<String>,
}

impl View for ExecutionList {
    type V = ExecutionListView;

    closed spec fn view(&self) -> ExecutionListView {
        ExecutionListView {
            running: info_views(self.running@),
            pending: program_views(self.pending@),
            ready: Seq::new(self.ready@.len(), |i: int| self.ready@[i]@),
        }
    }
}

impl ExecutionList {
    /// The list of a system: every program is pending, in the order of
    /// the configuration.
    pub fn from_system(cfg: &System) -> (list: ExecutionList)
        ensures
            list@ == (ExecutionListView {
                running: Seq::empty(),
                pending: cfg@.program,
                ready: Seq::empty(),
            }),
    {
        let list = ExecutionList {
            running: Vec::new(),
            pending: clone_programs(&cfg.program),
            ready: Vec::new(),
        };
        assert(list@.running =~= Seq::empty());
        assert(list@.ready =~= Seq::empty());
        list
    }

    /// Whether every dependency of a program is ready.
    pub fn is_startable(&self, prog: &Program) -> (yes: bool)
        ensures
            yes == startable(prog@, self@.ready),
    {
        let mut k: usize = 0;
        while k < prog.depends.len()
            invariant
                k <= prog.depends.len(),
                forall|j: int| 0 <= j < k ==> self@.ready.contains(#[trigger] prog@.depends[j]),
            decreases prog.depends.len() - k,
        {
            assert(prog@.depends[k as int] == prog.depends[k as int]@);
            if !holds_text(&self.ready, prog.depends[k].as_str()) {
                return false;
            }
            k += 1;
        }
        true
    }

    /// Whether all programs are started and ready.
    pub fn is_complete(&self) -> (done: bool)
        ensures
            done == complete(self@),
    {
        if self.pending.len() != 0 {
            return false;
        }
        let mut i: usize = 0;
        while i < self.running.len()
            invariant
                i <= self.running.len(),
                self@.pending.len() == 0,
                ready_upto(self@, i as int),
            decreases self.running.len() - i,
        {
            assert(self@.running[i as int].name == self.running[i as int].name@);
            if !holds_text(&self.ready, self.running[i].name.as_str()) {
                return false;
            }
            i += 1;
        }
        true
    }

    /// One poll. The names are those of the running programs that the
    /// caller found ready.
    pub fn poll(&mut self, ready_now: &Vec<String>) -> (step: PollStep)
        ensures
            (final(self)@, step@) == spec_poll(
                old(self)@,
                Seq::new(ready_now@.len(), |i: int| ready_now@[i]@),
            ),
    {
        let ghost now = Seq::new(ready_now@.len(), |i: int| ready_now@[i]@);
        let ghost before = self@;
        let mut i: usize = 0;
        while i < self.running.len()
            invariant
                i <= self.running.len(),
                now == Seq::new(ready_now@.len(), |i: int| ready_now@[i]@),
                before == old(self)@,
                self@.running == before.running,
                self@.pending == before.pending,
                self@.ready == absorbed(before.running, before.ready, now, i as int),
            decreases self.running.len() - i,
        {
            let name = &self.running[i].name;
            assert(before.running[i as int].name == name@);
            if !holds_text(&self.ready, name.as_str()) && holds_text(ready_now, name.as_str()) {
                let ghost so_far = self@.ready;
                let copy = name.clone();
                self.ready.push(copy);
                assert(self@.ready =~= so_far.push(name@));
                assert(self@.running == before.running);
                assert(self@.pending == before.pending);
            }
            i += 1;
        }
        let ghost ready = self@.ready;
        let mut at: usize = 0;
        while at < self.pending.len()
            invariant
                at <= self.pending.len(),
                now == Seq::new(ready_now@.len(), |i: int| ready_now@[i]@),
                before == old(self)@,
                ready == absorbed(before.running, before.ready, now, before.running.len() as int),
                self@.running == before.running,
                self@.pending == before.pending,
                self@.ready == ready,
                first_actionable(before.pending, ready, 0) == first_actionable(
                    before.pending,
                    ready,
                    at as int,
                ),
            decreases self.pending.len() - at,
        {
            assert(before.pending[at as int] == self.pending[at as int]@);
            let disabled = self.pending[at].disabled;
            let can_start = self.is_startable(&self.pending[at]);
            if disabled || can_start {
                assert(first_actionable(before.pending, ready, 0) == at);
                if disabled {
                    let ghost chosen = self.pending[at as int]@;
                    let prog = self.pending.remove(at);
                    assert(prog@ == chosen);
                    assert(self@.pending =~= before.pending.remove(at as int));
                    if !holds_text(&self.ready, prog.name.as_str()) {
                        self.ready.push(prog.name);
                        assert(self@.ready =~= ready.push(chosen.name));
                    }
                    assert(self@.running == before.running);
                    assert(self@.ready == with_name(ready, chosen.name));
                    return PollStep::Idle(self.is_complete());
                }
                return PollStep::Launch(self.pending[at].clone());
            }
            at += 1;
        }
        PollStep::Idle(self.is_complete())
    }

    /// Takes note of a program that the caller spawned: it runs and is
    /// pending no more. Says whether all programs are started and
    /// ready.
    pub fn launched(&mut self, info: ProgramInfo) -> (done: bool)
        ensures
            final(self)@ == spec_launched(old(self)@, info@),
            done == complete(final(self)@),
    {
        match find_program(&self.pending, &info.name) {
            Some(at) => {
                self.pending.remove(at);
                assert(self@.pending =~= old(self)@.pending.remove(at as int));
            },
            None => {},
        }
        assert(self@.ready == old(self)@.ready);
        self.running.push(info);
        assert(self@.running =~= old(self)@.running.push(info@));
        self.is_complete()
    }

    /// Hands out the programs that run, in the order in which they were
    /// started, and keeps none of them.
    pub fn reap(&mut self) -> (programs: Vec<ProgramInfo>)
        ensures
            info_views(programs@) == old(self)@.running,
            final(self)@ == (ExecutionListView { running: Seq::empty(), ..old(self)@ }),
    {
        let mut programs: Vec<ProgramInfo> = Vec::new();
        std::mem::swap(&mut programs, &mut self.running);
        assert(self@.running =~= Seq::empty());
        programs
    }
}

} // verus!
