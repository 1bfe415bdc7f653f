//! The tracer's state and the step it takes for each reply.

use std::collections::HashMap;
use vstd::prelude::*;
use vstd::std_specs::hash::*;
use crate::trace::decode::{
    entry_fragment,
    entry_text,
    exit_fragment,
    label,
    names_path,
    syscall_label,
    takes_path,
    trace_posthook,
};
use crate::trace::error::{read_text, ReadError, TraceError};
use crate::trace::event::{
    optional_line,
    Action,
    LineModel,
    Reply,
    ReplyModel,
    Step,
    SyscallEvent,
    TraceLine,
};
use crate::trace::filter::{FilterModel, TraceOption};
use crate::trace::process::{Phase, ProcessModel, ProcessState};
use crate::trace::registers::RegisterSnapshot;

verus! {

broadcast use group_hash_axioms;

/// The tracer as plain values: the filter, the processes under trace with
/// their state, and what the tracer has asked for and waits to be answered.
pub struct SupervisorModel {
    pub filter: FilterModel,
    pub processes: Map<i32, ProcessModel>,
    pub request: Action,
}

/// Whether `fragment` is the entry fragment of a call named `name`.
pub open spec fn is_entry_fragment(name: Seq<char>, fragment: Seq<char>) -> bool {
    exists|read: Option<Result<Seq<char>, ReadError>>|
        fragment == #[trigger] entry_fragment(name, read)
}

/// Whether `fragment` is the exit fragment of some result.
pub open spec fn is_exit_fragment(fragment: Seq<char>) -> bool {
    exists|value: i64| fragment == #[trigger] exit_fragment(value)
}

/// The least of the processes `pids`.
#[verifier::opaque]
pub open spec fn least(pids: Set<i32>) -> i32 {
    choose|p: i32| pids.contains(p) && forall|q: i32| pids.contains(q) ==> p <= q
}

/// What the tracer asks for when it is letting go of the processes
/// `pids`: to release the least of them, or nothing more when none is left.
pub open spec fn release_next(pids: Set<i32>) -> Action {
    if pids.is_empty() {
        Action::Finished
    } else {
        Action::Release { pid: least(pids) }
    }
}

impl SupervisorModel {
    /// The tracer when the first process, `child`, stands at its first
    /// stop: it asks for the process to be resumed.
    pub open spec fn start(child: i32, filter: FilterModel) -> SupervisorModel {
        SupervisorModel {
            filter,
            processes: Map::<i32, ProcessModel>::empty().insert(child, ProcessModel::fresh(child)),
            request: Action::Resume { pid: child },
        }
    }

    /// The state of `pid`: what is kept for it, or that of a process not
    /// seen before.
    pub open spec fn state_of(self, pid: i32) -> ProcessModel {
        if self.processes.contains_key(pid) {
            self.processes[pid]
        } else {
            ProcessModel::fresh(pid)
        }
    }

    /// What holds of every state that the tracer can reach.
    pub open spec fn wf(self) -> bool {
        &&& self.processes.dom().finite()
        &&& forall|pid: i32| #[trigger]
            self.processes.contains_key(pid) ==> {
                &&& self.processes[pid].pid == pid
                &&& self.processes[pid].wf()
                &&& self.processes[pid].phase == Phase::AwaitingExit ==> is_entry_fragment(
                    self.processes[pid].name,
                    self.processes[pid].pending[0],
                )
            }
        &&& self.request.continues() ==> !self.processes.dom().is_empty()
        &&& match self.request {
            Action::ReadRegisters { pid } => self.processes.contains_key(pid),
            Action::Release { pid } => self.processes.contains_key(pid),
            Action::ReadString { pid, address } => {
                &&& self.processes.contains_key(pid)
                &&& self.processes[pid].phase == Phase::AwaitingEntry
                &&& takes_path(self.processes[pid].name)
            },
            _ => true,
        }
    }

    /// Whether `reply` answers what the tracer asked for.
    pub open spec fn answers(self, reply: ReplyModel) -> bool {
        match self.request {
            Action::Resume { .. } | Action::Wait => reply is Event || reply is WaitFailed
                || reply is ResumeFailed || reply is Cancelled,
            Action::ReadRegisters { .. } => reply is Registers || reply is Cancelled,
            Action::ReadString { .. } => reply is Text || reply is Cancelled,
            Action::Release { .. } => reply is Released,
            Action::Finished | Action::Failed(_) => false,
        }
    }

    /// The tracer after it was told to give the trace up: it lets go of
    /// the processes under trace, the least first.
    pub open spec fn after_cancel(self) -> SupervisorModel {
        SupervisorModel { request: release_next(self.processes.dom()), ..self }
    }

    /// The tracer after it has let go of `pid`: the process is no longer
    /// under trace, and the next one is let go of.
    pub open spec fn after_release(self, pid: i32) -> SupervisorModel {
        let left = self.processes.remove(pid);
        SupervisorModel { processes: left, request: release_next(left.dom()), ..self }
    }

    /// The tracer after the event `event` came while it waited for one.
    pub open spec fn after_event(self, event: SyscallEvent) -> SupervisorModel {
        match event {
            SyscallEvent::NormalExit { pid, .. } => {
                let left = self.processes.remove(pid);
                SupervisorModel {
                    processes: left,
                    request: if left.dom().is_empty() {
                        Action::Finished
                    } else {
                        Action::Wait
                    },
                    ..self
                }
            },
            SyscallEvent::Signaled { .. }
            | SyscallEvent::Continued { .. }
            | SyscallEvent::StillAlive => SupervisorModel { request: Action::Finished, ..self },
            SyscallEvent::TraceEvent { pid, .. } | SyscallEvent::OtherStop { pid, .. } => {
                SupervisorModel { request: Action::Resume { pid }, ..self }
            },
            SyscallEvent::SyscallStop { pid } => SupervisorModel {
                processes: self.processes.insert(pid, self.state_of(pid)),
                request: Action::ReadRegisters { pid },
                ..self
            },
        }
    }

    /// The line that the event `event` completes.
    pub open spec fn line_of_event(self, event: SyscallEvent) -> Option<LineModel> {
        match event {
            SyscallEvent::NormalExit { pid, .. } => Some(
                LineModel::Finished { pid, pending: self.state_of(pid).pending },
            ),
            _ => None,
        }
    }

    /// The tracer after the registers of the stopped process `pid` were
    /// read. At the entry of a call that takes a path the tracer asks for
    /// the path; at any other entry it makes the entry fragment; at an
    /// exit it ends the line. Then the process's phase has changed.
    pub open spec fn after_registers(self, pid: i32, regs: RegisterSnapshot) -> SupervisorModel {
        let state = self.state_of(pid);
        match state.phase {
            Phase::AwaitingEntry => {
                let name = syscall_label(regs.syscall_number);
                if takes_path(name) {
                    SupervisorModel {
                        processes: self.processes.insert(pid, ProcessModel { name, ..state }),
                        request: Action::ReadString { pid, address: regs.arguments[0] },
                        ..self
                    }
                } else {
                    SupervisorModel {
                        processes: self.processes.insert(
                            pid,
                            ProcessModel {
                                pid,
                                phase: Phase::AwaitingExit,
                                name,
                                pending: seq![entry_fragment(name, None)],
                            },
                        ),
                        request: Action::Resume { pid },
                        ..self
                    }
                }
            },
            Phase::AwaitingExit => SupervisorModel {
                processes: self.processes.insert(pid, ProcessModel::fresh(pid)),
                request: Action::Resume { pid },
                ..self
            },
        }
    }

    /// The line that the registers of the stopped process `pid` complete:
    /// at the exit of a call that the filter admits, the call's line.
    pub open spec fn line_of_registers(self, pid: i32, regs: RegisterSnapshot) -> Option<
        LineModel,
    > {
        let state = self.state_of(pid);
        if state.phase == Phase::AwaitingExit && self.filter.admits(state.name) {
            Some(
                LineModel::Call {
                    pid,
                    name: state.name,
                    entry: state.pending[0],
                    exit: exit_fragment(regs.return_value),
                },
            )
        } else {
            None
        }
    }

    /// The tracer after the path of the call that `pid` is entering was
    /// read, or could not be.
    pub open spec fn after_text(self, pid: i32, text: Result<Seq<char>, ReadError>) -> SupervisorModel {
        let state = self.state_of(pid);
        SupervisorModel {
            processes: self.processes.insert(
                pid,
                ProcessModel {
                    pid,
                    phase: Phase::AwaitingExit,
                    name: state.name,
                    pending: seq![entry_fragment(state.name, Some(text))],
                },
            ),
            request: Action::Resume { pid },
            ..self
        }
    }

    /// The tracer after `reply`. A reply that does not answer what was
    /// asked for changes nothing, and so does any reply once the trace is
    /// over. To be told to give the trace up answers everything but a
    /// release.
    pub open spec fn after(self, reply: ReplyModel) -> SupervisorModel {
        match (self.request, reply) {
            (Action::Resume { .. }, ReplyModel::Cancelled)
            | (Action::Wait, ReplyModel::Cancelled)
            | (Action::ReadRegisters { .. }, ReplyModel::Cancelled)
            | (Action::ReadString { .. }, ReplyModel::Cancelled) => self.after_cancel(),
            (Action::Release { pid }, ReplyModel::Released) => self.after_release(pid),
            (Action::Resume { .. }, ReplyModel::Event(event))
            | (Action::Wait, ReplyModel::Event(event)) => self.after_event(event),
            (Action::Resume { .. }, ReplyModel::WaitFailed)
            | (Action::Wait, ReplyModel::WaitFailed) => SupervisorModel {
                request: Action::Failed(TraceError::Wait),
                ..self
            },
            (Action::Resume { .. }, ReplyModel::ResumeFailed)
            | (Action::Wait, ReplyModel::ResumeFailed) => SupervisorModel {
                request: Action::Failed(TraceError::Resume),
                ..self
            },
            (Action::ReadRegisters { pid }, ReplyModel::Registers(regs)) => self.after_registers(
                pid,
                regs,
            ),
            (Action::ReadString { pid, .. }, ReplyModel::Text(text)) => self.after_text(pid, text),
            _ => self,
        }
    }

    /// The line that `reply` completes, if it completes one.
    pub open spec fn emitted(self, reply: ReplyModel) -> Option<LineModel> {
        match (self.request, reply) {
            (Action::Resume { .. }, ReplyModel::Event(event))
            | (Action::Wait, ReplyModel::Event(event)) => self.line_of_event(event),
            (Action::ReadRegisters { pid }, ReplyModel::Registers(regs)) => self.line_of_registers(
                pid,
                regs,
            ),
            _ => None,
        }
    }

    /// The tracer after each of `replies` in turn.
    pub open spec fn after_all(self, replies: Seq<ReplyModel>) -> SupervisorModel
        decreases replies.len(),
    {
        if replies.len() == 0 {
            self
        } else {
            self.after(replies[0]).after_all(replies.drop_first())
        }
    }

    /// The lines that `replies` complete, in order.
    pub open spec fn emitted_all(self, replies: Seq<ReplyModel>) -> Seq<LineModel>
        decreases replies.len(),
    {
        if replies.len() == 0 {
            Seq::empty()
        } else {
            let rest = self.after(replies[0]).emitted_all(replies.drop_first());
            match self.emitted(replies[0]) {
                Some(line) => seq![line] + rest,
                None => rest,
            }
        }
    }
}

/// The tracer. It is told what came of each thing it asked for and says
/// what to do next; it never touches a process itself.
pub struct TraceSupervisor {
    filter: TraceOption,
    processes: HashMap<i32, ProcessState>,
    request: Action,
}

impl View for TraceSupervisor {
    type V = SupervisorModel;

    closed spec fn view(&self) -> SupervisorModel {
        SupervisorModel {
            filter: self.filter@,
            processes: self.processes@.map_values(|state: ProcessState| state@),
            request: self.request,
        }
    }
}

/// The replies as plain values.
pub open spec fn reply_views(replies: Seq<Reply>) -> Seq<ReplyModel> {
    Seq::new(replies.len(), |i: int| replies[i]@)
}

/// The lines as plain values.
pub open spec fn line_views(lines: Seq<TraceLine>) -> Seq<LineModel> {
    Seq::new(lines.len(), |i: int| lines[i]@)
}

/// What a whole trace came to.
#[derive(Debug, PartialEq, Eq)]
pub struct TraceRecord {
    /// The lines that were completed, in order.
    pub lines: Vec<TraceLine>,
    /// What the tracer asked for last: [`Action::Finished`] or
    /// [`Action::Failed`] where the trace ended.
    pub last: Action,
}

impl TraceSupervisor {
    /// The tracer for a trace that begins with `child`, which stands at
    /// its first stop.
    pub fn new(child: i32, filter: TraceOption) -> (tracer: TraceSupervisor)
        ensures
            tracer@ == SupervisorModel::start(child, filter@),
            tracer@.wf(),
    {
        let mut processes: HashMap<i32, ProcessState> = HashMap::new();
        processes.insert(child, ProcessState::new(child));
        let tracer = TraceSupervisor { filter, processes, request: Action::Resume { pid: child } };
        proof {
            assert(tracer@.processes =~= SupervisorModel::start(child, filter@).processes);
            assert(tracer@.processes.contains_key(child));
        }
        tracer
    }

    /// What the tracer has asked for and waits to be answered.
    pub fn request(&self) -> (action: Action)
        ensures
            action == self@.request,
    {
        self.request
    }

    /// How many processes are under trace.
    pub fn live(&self) -> (count: usize)
        ensures
            count == self@.processes.dom().len(),
    {
        proof {
            assert(self@.processes.dom() =~= self.processes@.dom());
        }
        self.processes.len()
    }

    /// The phase of `pid`, if it is under trace.
    pub fn phase_of(&self, pid: i32) -> (phase: Option<Phase>)
        ensures
            phase is Some <==> self@.processes.contains_key(pid),
            phase matches Some(p) ==> p == self@.processes[pid].phase,
    {
        match self.processes.get(&pid) {
            Some(state) => Some(state.phase),
            None => None,
        }
    }

    fn repeat(&self) -> (step: Step)
        ensures
            step.line is None,
            step.action == self@.request,
    {
        Step { line: None, action: self.request }
    }

    fn take(&mut self, pid: i32) -> (state: ProcessState)
        ensures
            state@ == old(self)@.state_of(pid),
            final(self).processes@ == old(self).processes@.remove(pid),
            final(self).filter == old(self).filter,
            final(self).request == old(self).request,
    {
        match self.processes.remove(&pid) {
            Some(state) => state,
            None => ProcessState::new(pid),
        }
    }

    fn let_go_of_next(&mut self) -> (step: Step)
        requires
            old(self)@.processes.dom().finite(),
        ensures
            final(self)@ == (SupervisorModel {
                request: release_next(old(self)@.processes.dom()),
                ..old(self)@
            }),
            step.line is None,
            step.action == final(self)@.request,
            final(self)@.request matches Action::Release { pid }
                ==> final(self)@.processes.contains_key(pid),
    {
        let ghost pids = self.processes@.dom();
        proof {
            assert(self@.processes.dom() =~= pids);
        }
        let mut found: Option<i32> = None;
        for pid in it: self.processes.keys()
            invariant
                pids == self.processes@.dom(),
                it.seq().unref().to_set() == pids,
                match found {
                    Some(lowest) => pids.contains(lowest) && forall|j: int|
                        0 <= j < it.index() ==> lowest <= *#[trigger] it.seq()[j],
                    None => it.index() == 0,
                },
        {
            proof {
                assert(it.seq().unref()[it.index() as int] == *pid);
                assert(it.seq().unref().to_set().contains(*pid));
            }
            match found {
                Some(lowest) => {
                    if *pid < lowest {
                        found = Some(*pid);
                    }
                },
                None => {
                    found = Some(*pid);
                },
            }
        }
        self.request = match found {
            Some(pid) => {
                proof {
                    reveal(least);
                    assert(forall|q: i32| pids.contains(q) ==> pid <= q);
                    let chosen = least(pids);
                    assert(pids.contains(chosen) && chosen <= pid);
                }
                Action::Release { pid }
            },
            None => {
                proof {
                    assert(pids =~= Set::<i32>::empty());
                }
                Action::Finished
            },
        };
        Step { line: None, action: self.request }
    }

    fn on_event(&mut self, event: SyscallEvent) -> (step: Step)
        requires
            old(self)@.wf(),
            old(self)@.request.awaits_event(),
        ensures
            final(self)@.wf(),
            final(self)@ == old(self)@.after_event(event),
            optional_line(step.line) == old(self)@.line_of_event(event),
            step.action == final(self)@.request,
    {
        let ghost before = self@;
        match event {
            SyscallEvent::NormalExit { pid, code } => {
                let state = self.take(pid);
                self.request = if self.processes.is_empty() {
                    Action::Finished
                } else {
                    Action::Wait
                };
                proof {
                    assert(self@.processes =~= before.processes.remove(pid));
                    assert(self@.processes.dom() =~= self.processes@.dom());
                }
                Step {
                    line: Some(TraceLine::Finished { pid, pending: state.pending_line }),
                    action: self.request,
                }
            },
            SyscallEvent::Signaled { .. } | SyscallEvent::Continued { .. } | SyscallEvent::StillAlive => {
                self.request = Action::Finished;
                Step { line: None, action: self.request }
            },
            SyscallEvent::TraceEvent { pid, .. } | SyscallEvent::OtherStop { pid, .. } => {
                self.request = Action::Resume { pid };
                Step { line: None, action: self.request }
            },
            SyscallEvent::SyscallStop { pid } => {
                let state = self.take(pid);
                self.processes.insert(pid, state);
                self.request = Action::ReadRegisters { pid };
                proof {
                    assert(self@.processes =~= before.processes.insert(pid, before.state_of(pid)));
                    assert(self@.processes.contains_key(pid));
                }
                Step { line: None, action: self.request }
            },
        }
    }

    fn on_registers(&mut self, pid: i32, regs: &RegisterSnapshot) -> (step: Step)
        requires
            old(self)@.wf(),
            old(self)@.request == (Action::ReadRegisters { pid }),
        ensures
            final(self)@.wf(),
            final(self)@ == old(self)@.after_registers(pid, *regs),
            optional_line(step.line) == old(self)@.line_of_registers(pid, *regs),
            step.action == final(self)@.request,
    {
        let ghost before = self@;
        assert(before.processes.contains_key(pid));
        let mut state = self.take(pid);
        match state.phase {
            Phase::AwaitingEntry => {
                let name = label(regs.syscall_number);
                if names_path(name.as_str()) {
                    state.name = name;
                    self.processes.insert(pid, state);
                    self.request = Action::ReadString { pid, address: regs.first_argument() };
                    proof {
                        assert(self@.processes =~= before.after_registers(pid, *regs).processes);
                        assert(self@.processes.contains_key(pid));
                    }
                    Step { line: None, action: self.request }
                } else {
                    let fragment = entry_text(name.as_str(), None);
                    state.name = name;
                    state.phase = Phase::AwaitingExit;
                    state.pending_line.push(fragment);
                    proof {
                        assert(state@.pending =~= seq![
                            entry_fragment(syscall_label(regs.syscall_number), None),
                        ]);
                    }
                    self.processes.insert(pid, state);
                    self.request = Action::Resume { pid };
                    proof {
                        assert(self@.processes =~= before.after_registers(pid, *regs).processes);
                        assert(self@.processes.contains_key(pid));
                    }
                    Step { line: None, action: self.request }
                }
            },
            Phase::AwaitingExit => {
                let exit = trace_posthook(regs);
                let shown = self.filter.admits(state.name.as_str());
                let entry = match state.pending_line.pop() {
                    Some(fragment) => fragment,
                    None => String::new(),
                };
                self.processes.insert(pid, ProcessState::new(pid));
                self.request = Action::Resume { pid };
                proof {
                    assert(self@.processes =~= before.after_registers(pid, *regs).processes);
                    assert(self@.processes.contains_key(pid));
                }
                if shown {
                    Step {
                        line: Some(TraceLine::Call { pid, name: state.name, entry, exit }),
                        action: self.request,
                    }
                } else {
                    Step { line: None, action: self.request }
                }
            },
        }
    }

    fn on_text(&mut self, pid: i32, text: &Result<String, ReadError>) -> (step: Step)
        requires
            old(self)@.wf(),
            old(self)@.request matches Action::ReadString { pid: p, .. } && p == pid,
        ensures
            final(self)@.wf(),
            final(self)@ == old(self)@.after_text(pid, read_text(*text)),
            step.line is None,
            step.action == final(self)@.request,
    {
        let ghost before = self@;
        assert(before.processes.contains_key(pid));
        let mut state = self.take(pid);
        let fragment = entry_text(state.name.as_str(), Some(text));
        state.phase = Phase::AwaitingExit;
        state.pending_line.push(fragment);
        proof {
            assert(state@.pending =~= seq![
                entry_fragment(state@.name, Some(read_text(*text))),
            ]);
        }
        self.processes.insert(pid, state);
        self.request = Action::Resume { pid };
        proof {
            assert(self@.processes =~= before.after_text(
                pid,
                read_text(*text),
            ).processes);
            assert(self@.processes.contains_key(pid));
        }
        Step { line: None, action: self.request }
    }

    /// Takes what came of the action asked for, and says what to do next
    /// and which line, if any, is now complete.
    pub fn step(&mut self, reply: &Reply) -> (step: Step)
        requires
            old(self)@.wf(),
        ensures
            final(self)@.wf(),
            final(self)@ == old(self)@.after(reply@),
            optional_line(step.line) == old(self)@.emitted(reply@),
            step.action == final(self)@.request,
    {
        match self.request {
            Action::Resume { .. } | Action::Wait => match reply {
                Reply::Cancelled => self.let_go_of_next(),
                Reply::Event(event) => self.on_event(*event),
                Reply::WaitFailed => {
                    self.request = Action::Failed(TraceError::Wait);
                    Step { line: None, action: self.request }
                },
                Reply::ResumeFailed => {
                    self.request = Action::Failed(TraceError::Resume);
                    Step { line: None, action: self.request }
                },
                _ => self.repeat(),
            },
            Action::ReadRegisters { pid } => match reply {
                Reply::Cancelled => self.let_go_of_next(),
                Reply::Registers(regs) => self.on_registers(pid, regs),
                _ => self.repeat(),
            },
            Action::ReadString { pid, .. } => match reply {
                Reply::Cancelled => self.let_go_of_next(),
                Reply::Text(text) => self.on_text(pid, text),
                _ => self.repeat(),
            },
            Action::Release { pid } => match reply {
                Reply::Released => {
                    let ghost before = self@;
                    let _state = self.take(pid);
                    proof {
                        assert(self@.processes =~= before.processes.remove(pid));
                    }
                    self.let_go_of_next()
                },
                _ => self.repeat(),
            },
            _ => self.repeat(),
        }
    }
}

/// Runs a whole trace from the replies that it got, in order: the trace
/// of `child` under `filter`. The lines come out as the replies complete
/// them; replies after the end of the trace change nothing.
pub fn trace(child: i32, filter: TraceOption, replies: &Vec<Reply>) -> (record: TraceRecord)
    ensures
        line_views(record.lines@) == SupervisorModel::start(child, filter@).emitted_all(
            reply_views(replies@),
        ),
        record.last == SupervisorModel::start(child, filter@).after_all(
            reply_views(replies@),
        ).request,
{
    let ghost begin = SupervisorModel::start(child, filter@);
    let ghost all = reply_views(replies@);
    let mut tracer = TraceSupervisor::new(child, filter);
    let mut lines: Vec<TraceLine> = Vec::new();
    let mut i: usize = 0;
    proof {
        assert(all.skip(0) =~= all);
        assert(line_views(lines@) + tracer@.emitted_all(all.skip(0)) =~= begin.emitted_all(all));
    }
    while i < replies.len()
        invariant
            i <= replies.len(),
            all == reply_views(replies@),
            tracer@.wf(),
            tracer@.after_all(all.skip(i as int)) == begin.after_all(all),
            line_views(lines@) + tracer@.emitted_all(all.skip(i as int)) == begin.emitted_all(all),
        decreases replies.len() - i,
    {
        let ghost before = tracer@;
        let ghost shown = line_views(lines@);
        let step = tracer.step(&replies[i]);
        proof {
            assert(all.skip(i as int)[0] == replies[i as int]@);
            assert(all.skip(i as int).drop_first() =~= all.skip(i + 1));
        }
        match step.line {
            Some(line) => {
                lines.push(line);
                proof {
                    assert(line_views(lines@) =~= shown + seq![line@]);
                    assert(line_views(lines@) + tracer@.emitted_all(all.skip(i + 1)) =~= shown
                        + before.emitted_all(all.skip(i as int)));
                }
            },
            None => {},
        }
        i += 1;
    }
    proof {
        assert(all.skip(replies.len() as int) =~= Seq::<ReplyModel>::empty());
        assert(line_views(lines@) + Seq::<LineModel>::empty() =~= line_views(lines@));
    }
    TraceRecord { lines, last: tracer.request() }
}

} // verus!
