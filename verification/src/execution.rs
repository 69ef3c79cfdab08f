//! Supervision of children that were started one after the other.
//!
//! This is the plain supervisor: it keeps the children in the order in
//! which they were started, forgets those that died, and stops what is
//! left in the reverse order. The caller watches the signals and the
//! children, and performs the stop of each child.

use crate::process::info_text;
use crate::text::{concat3, decimal};
use vstd::prelude::*;

verus! {

/// Name and process id of a started program.
#[derive(Debug, PartialEq, Eq)]
pub struct ProgramInfo {
    pub name: String,
    pub pid: u32,
}

/// Mathematical value of a [`ProgramInfo`].
pub ghost struct ProgramInfoView {
    pub name: Seq<char>,
    pub pid: u32,
}

impl View for ProgramInfo {
    type V = ProgramInfoView;

    open spec fn view(&self) -> ProgramInfoView {
        ProgramInfoView { name: self.name@, pid: self.pid }
    }
}

impl Clone for ProgramInfo {
    fn clone(&self) -> (copy: ProgramInfo)
        ensures
            copy@ == self@,
    {
        ProgramInfo { name: self.name.clone(), pid: self.pid }
    }
}

impl ProgramInfo {
    /// The program as it is named in log lines: `name:pid`.
    pub fn to_text(&self) -> (text: String)
        ensures
            text@ == info_text(self.name@, self.pid),
    {
        proof {
            reveal_strlit(":");
            assert(":"@ =~= seq![':']);
        }
        let digits = decimal(self.pid as u64);
        concat3(self.name.as_str(), ":", digits.as_str())
    }
}

/// The values of a list of started programs.
pub open spec fn info_views(list: Seq<ProgramInfo>) -> Seq<ProgramInfoView> {
    Seq::new(list.len(), |i: int| list[i]@)
}

/// The signals that the supervisor waits for.
#[derive(Debug, Clone, Copy, PartialEq, Eq, Structural)]
pub enum Signal {
    /// A child changed state.
    Child,
    /// The operator interrupted the supervisor.
    Interrupt,
    /// The supervisor was asked to terminate.
    Terminate,
}

/// What the supervisor does after a signal.
#[derive(Debug, Clone, Copy, PartialEq, Eq, Structural)]
pub enum WaitStep {
    /// Some child still runs: go on waiting.
    Continue,
    /// No child is left: the execution is over.
    Finished,
    /// Stop every child, then the execution is over.
    StopAll,
}

/// Whether the wait for the children to become ready has lasted too
/// long: it has, once the time waited reaches a limit that is set.
pub fn start_timed_out(waited: u64, start_timeout: Option<u64>) -> (late: bool)
    ensures
        late == match start_timeout {
            Some(limit) => waited >= limit,
            None => false,
        },
{
    match start_timeout {
        Some(limit) => waited >= limit,
        None => false,
    }
}

/// The programs of a list whose flag is not set, in their order.
pub open spec fn survivors(programs: Seq<ProgramInfoView>, died: Seq<bool>, n: int) -> Seq<
    ProgramInfoView,
>
    decreases n,
{
    if n <= 0 {
        Seq::empty()
    } else if died[n - 1] {
        survivors(programs, died, n - 1)
    } else {
        survivors(programs, died, n - 1).push(programs[n - 1])
    }
}

/// The children under supervision, in the order in which they were
/// started.
#[derive(Debug)]
pub struct Execution {
    pub programs: Vec<ProgramInfo>,
    /// Milliseconds between terminate and kill.
    pub terminate_timeout: u64,
}

impl Execution {
    /// The supervision of the given children.
    pub fn new(programs: Vec<ProgramInfo>, terminate_timeout: u64) -> (execution: Execution)
        ensures
            execution.programs == programs,
            execution.terminate_timeout == terminate_timeout,
    {
        Execution { programs, terminate_timeout }
    }

    /// Forgets the children that died, and says whether any is left.
    /// The flags say of each child, in order, whether it has died.
    pub fn check_alive(&mut self, died: &Vec<bool>) -> (any: bool)
        requires
            died.len() == old(self).programs.len(),
        ensures
            info_views(final(self).programs@) == survivors(
                info_views(old(self).programs@),
                died@,
                died.len() as int,
            ),
            final(self).terminate_timeout == old(self).terminate_timeout,
            any == (final(self).programs.len() > 0),
    {
        let mut left: Vec<ProgramInfo> = Vec::new();
        let mut i: usize = 0;
        assert(info_views(left@) =~= survivors(info_views(self.programs@), died@, 0));
        while i < self.programs.len()
            invariant
                i <= self.programs.len(),
                died.len() == self.programs.len(),
                *self == *old(self),
                info_views(left@) == survivors(info_views(self.programs@), died@, i as int),
            decreases self.programs.len() - i,
        {
            if !died[i] {
                let ghost before = info_views(left@);
                left.push(self.programs[i].clone());
                assert(info_views(left@) =~= before.push(info_views(self.programs@)[i as int]));
            }
            i += 1;
        }
        self.programs = left;
        self.programs.len() > 0
    }

    /// What to do after a signal: after the death of a child the
    /// execution is over when no child is left, and any other signal has
    /// every child stopped.
    pub fn wait(&self, signal: Signal) -> (step: WaitStep)
        ensures
            step == match signal {
                Signal::Child => if self.programs.len() > 0 {
                    WaitStep::Continue
                } else {
                    WaitStep::Finished
                },
                _ => WaitStep::StopAll,
            },
    {
        match signal {
            Signal::Child => {
                if self.programs.len() > 0 {
                    WaitStep::Continue
                } else {
                    WaitStep::Finished
                }
            },
            _ => WaitStep::StopAll,
        }
    }

    /// Hands out the children to stop, the one started last first, and
    /// keeps none.
    pub fn stop(&mut self) -> (order: Vec<ProgramInfo>)
        ensures
            final(self).programs.len() == 0,
            final(self).terminate_timeout == old(self).terminate_timeout,
            info_views(order@) == info_views(old(self).programs@).reverse(),
    {
        let mut order: Vec<ProgramInfo> = Vec::new();
        let ghost all = info_views(self.programs@);
        while self.programs.len() > 0
            invariant
                self.terminate_timeout == old(self).terminate_timeout,
                all == info_views(old(self).programs@),
                order.len() + self.programs.len() == all.len(),
                forall|k: int| 0 <= k < self.programs.len() ==> self.programs[k]@ == all[k],
                forall|k: int| 0 <= k < order.len() ==> order[k]@ == all[all.len() - 1 - k],
            decreases self.programs.len(),
        {
            let last = self.programs.pop();
            match last {
                Some(info) => {
                    order.push(info);
                },
                None => {},
            }
        }
        assert(info_views(order@) =~= all.reverse());
        order
    }
}

} // verus!
