//! What holds of every trace.

use vstd::prelude::*;
use crate::trace::decode::{entry_fragment, exit_fragment};
use crate::trace::error::ReadError;
use crate::trace::event::{
    fragment_separator,
    line_prefix,
    Action,
    LineModel,
    ReplyModel,
    SyscallEvent,
};
use crate::trace::filter::FilterModel;
use crate::trace::process::Phase;
use crate::trace::supervisor::{
    is_entry_fragment,
    is_exit_fragment,
    least,
    SupervisorModel,
};
use crate::text::joined;

verus! {

/// Whether `reply` tells that `pid` ended by itself.
pub open spec fn is_exit_of(reply: ReplyModel, pid: i32) -> bool {
    reply matches ReplyModel::Event(SyscallEvent::NormalExit { pid: p, .. }) && p == pid
}

/// Whether `reply` ends the trace whatever the state of the group: a
/// process killed by a signal or continued, nothing to report, or a
/// failure to wait or to resume.
pub open spec fn ends_trace(reply: ReplyModel) -> bool {
    match reply {
        ReplyModel::Event(event) => event.is_terminal(),
        ReplyModel::WaitFailed | ReplyModel::ResumeFailed => true,
        _ => false,
    }
}

/// Whether `reply` is about no process but `pid` and neither ends the
/// trace nor tells that `pid` ended.
pub open spec fn concerns_only(reply: ReplyModel, pid: i32) -> bool {
    match reply {
        ReplyModel::Event(SyscallEvent::SyscallStop { pid: p }) => p == pid,
        ReplyModel::Event(SyscallEvent::TraceEvent { pid: p, .. }) => p == pid,
        ReplyModel::Event(SyscallEvent::OtherStop { pid: p, .. }) => p == pid,
        ReplyModel::Registers(_) | ReplyModel::Text(_) => true,
        _ => false,
    }
}

impl SupervisorModel {
    /// Whether the tracer takes `reply` as a stop of `pid` at a syscall
    /// boundary.
    pub open spec fn sees_stop(self, reply: ReplyModel, pid: i32) -> bool {
        self.request.awaits_event() && reply == ReplyModel::Event(
            SyscallEvent::SyscallStop { pid },
        )
    }

    /// The phases in which the stops of `pid` at syscall boundaries find
    /// it, in order, as `replies` come in.
    pub open spec fn observed_phases(self, replies: Seq<ReplyModel>, pid: i32) -> Seq<Phase>
        decreases replies.len(),
    {
        if replies.len() == 0 {
            Seq::empty()
        } else {
            let rest = self.after(replies[0]).observed_phases(replies.drop_first(), pid);
            if self.sees_stop(replies[0], pid) {
                seq![self.state_of(pid).phase] + rest
            } else {
                rest
            }
        }
    }

    /// Whether the tracer is in the middle of handling a stop of `pid`.
    pub open spec fn handles_stop_of(self, pid: i32) -> bool {
        match self.request {
            Action::ReadRegisters { pid: p } => p == pid,
            Action::ReadString { pid: p, .. } => p == pid,
            _ => false,
        }
    }

    /// The phase in which the next stop of `pid` at a syscall boundary
    /// will find it.
    pub open spec fn next_phase(self, pid: i32) -> Phase {
        if self.handles_stop_of(pid) {
            self.state_of(pid).phase.flipped()
        } else {
            self.state_of(pid).phase
        }
    }
}

/// The phase that comes `turns` stops after `first`.
pub open spec fn phase_in_turn(first: Phase, turns: int) -> Phase {
    if turns % 2 == 0 {
        first
    } else {
        first.flipped()
    }
}

/// A reply that does not answer what the tracer asked for changes
/// nothing and completes no line.
pub proof fn lemma_stray_reply_changes_nothing(s: SupervisorModel, reply: ReplyModel)
    requires
        !s.answers(reply),
    ensures
        s.after(reply) == s,
        s.emitted(reply) is None,
{
}

/// Among processes, finitely many and at least one, there is a least.
pub proof fn lemma_least(pids: Set<i32>)
    requires
        pids.finite(),
        !pids.is_empty(),
    ensures
        pids.contains(least(pids)),
        forall|q: i32| pids.contains(q) ==> least(pids) <= q,
    decreases pids.len(),
{
    reveal(least);
    let x = pids.choose();
    let rest = pids.remove(x);
    assert(pids.contains(x));
    if rest.is_empty() {
        assert forall|q: i32| pids.contains(q) implies x <= q by {
            if q != x {
                assert(rest.contains(q));
            }
        }
    } else {
        lemma_least(rest);
        let m = least(rest);
        let w = if x <= m {
            x
        } else {
            m
        };
        assert(pids.contains(w));
        assert forall|q: i32| pids.contains(q) implies w <= q by {
            if q != x {
                assert(rest.contains(q));
            }
        }
    }
}

/// A step keeps the tracer's state well formed.
pub proof fn lemma_step_keeps_wf(s: SupervisorModel, reply: ReplyModel)
    requires
        s.wf(),
    ensures
        s.after(reply).wf(),
        s.after(reply).filter == s.filter,
{
    let t = s.after(reply);
    if !t.processes.dom().is_empty() {
        assert(t.processes.dom().finite()) by {
            match (s.request, reply) {
                (Action::Release { pid }, ReplyModel::Released) => {
                    assert(t.processes.dom() =~= s.processes.dom().remove(pid));
                },
                _ => {},
            }
        }
        if t.request is Release {
            lemma_least(t.processes.dom());
        }
    }
    match (s.request, reply) {
        (Action::Release { pid }, ReplyModel::Released) => {
            assert(t.processes.dom() =~= s.processes.dom().remove(pid));
        },
        (Action::ReadRegisters { pid }, ReplyModel::Registers(regs)) => {
            assert(t.processes.contains_key(pid));
            assert(t.processes.dom() =~= s.processes.dom().insert(pid));
        },
        (Action::ReadString { pid, .. }, ReplyModel::Text(text)) => {
            assert(t.processes.contains_key(pid));
            assert(t.processes.dom() =~= s.processes.dom().insert(pid));
        },
        (Action::Resume { .. }, ReplyModel::Event(event))
        | (Action::Wait, ReplyModel::Event(event)) => {
            match event {
                SyscallEvent::SyscallStop { pid } => {
                    assert(t.processes.contains_key(pid));
                    assert(t.processes.dom() =~= s.processes.dom().insert(pid));
                },
                SyscallEvent::NormalExit { pid, .. } => {
                    assert(t.processes.dom() =~= s.processes.dom().remove(pid));
                },
                _ => {},
            }
        },
        _ => {},
    }
}

/// Taking the replies one more at a time: the tracer after `replies` and
/// then `last` is the tracer after `replies`, after `last`.
pub proof fn lemma_after_all_push(s: SupervisorModel, replies: Seq<ReplyModel>, last: ReplyModel)
    ensures
        s.after_all(replies.push(last)) == s.after_all(replies).after(last),
    decreases replies.len(),
{
    let longer = replies.push(last);
    if replies.len() == 0 {
        assert(longer.drop_first() =~= Seq::<ReplyModel>::empty());
        assert(s.after(last).after_all(longer.drop_first()) == s.after(last));
    } else {
        assert(longer[0] == replies[0]);
        assert(longer.drop_first() =~= replies.drop_first().push(last));
        lemma_after_all_push(s.after(replies[0]), replies.drop_first(), last);
    }
}

/// What holds throughout. Across any replies the tracer's state stays
/// well formed and its filter stays the one that the trace began with: so
/// some process is under trace for as long as the trace goes on, and
/// between two stops a line in the making holds the entry fragment alone.
pub proof fn lemma_run_keeps_wf(s: SupervisorModel, replies: Seq<ReplyModel>)
    requires
        s.wf(),
    ensures
        s.after_all(replies).wf(),
        s.after_all(replies).filter == s.filter,
    decreases replies.len(),
{
    if replies.len() > 0 {
        lemma_step_keeps_wf(s, replies[0]);
        lemma_run_keeps_wf(s.after(replies[0]), replies.drop_first());
    }
}

/// While the tracer lets go of the processes, and when the trace is over,
/// no stop is taken any more.
pub proof fn lemma_no_stops_at_the_end(s: SupervisorModel, replies: Seq<ReplyModel>, pid: i32)
    requires
        s.request is Release || !s.request.continues(),
    ensures
        s.observed_phases(replies, pid) == Seq::<Phase>::empty(),
    decreases replies.len(),
{
    if replies.len() > 0 {
        lemma_no_stops_at_the_end(s.after(replies[0]), replies.drop_first(), pid);
    }
}

/// Phase alternation, from any state. As long as `pid` does not end, its
/// stops at syscall boundaries find it by turns in the phase that its
/// next stop is due in and in the other one.
pub proof fn lemma_phases_alternate_from(s: SupervisorModel, replies: Seq<ReplyModel>, pid: i32)
    requires
        s.wf(),
        forall|i: int| 0 <= i < replies.len() ==> !is_exit_of(#[trigger] replies[i], pid),
    ensures
        forall|i: int|
            0 <= i < s.observed_phases(replies, pid).len() ==> #[trigger] s.observed_phases(
                replies,
                pid,
            )[i] == phase_in_turn(s.next_phase(pid), i),
    decreases replies.len(),
{
    if replies.len() > 0 {
        let t = s.after(replies[0]);
        let rest = replies.drop_first();
        lemma_step_keeps_wf(s, replies[0]);
        assert forall|i: int| 0 <= i < rest.len() implies !is_exit_of(#[trigger] rest[i], pid) by {
            assert(rest[i] == replies[i + 1]);
        }
        lemma_phases_alternate_from(t, rest, pid);
        assert(!is_exit_of(replies[0], pid));
        let seen = s.observed_phases(replies, pid);
        let later = t.observed_phases(rest, pid);
        if s.sees_stop(replies[0], pid) {
            assert(t.next_phase(pid) == s.next_phase(pid).flipped());
            assert forall|i: int| 0 <= i < seen.len() implies #[trigger] seen[i] == phase_in_turn(
                s.next_phase(pid),
                i,
            ) by {
                if i > 0 {
                    assert(seen[i] == later[i - 1]);
                }
            }
        } else if t.request is Release || !t.request.continues() {
            lemma_no_stops_at_the_end(t, rest, pid);
        } else {
            assert(t.next_phase(pid) == s.next_phase(pid));
        }
    }
}

/// Phase alternation. In a trace from its start, the stops of a process
/// at syscall boundaries find it by turns awaiting an entry and awaiting
/// an exit, an entry first, for as long as the process does not end; so
/// no two stops in a row find it in the same phase.
pub proof fn lemma_phases_alternate(
    child: i32,
    filter: FilterModel,
    replies: Seq<ReplyModel>,
    pid: i32,
)
    requires
        forall|i: int| 0 <= i < replies.len() ==> !is_exit_of(#[trigger] replies[i], pid),
    ensures
        ({
            let seen = SupervisorModel::start(child, filter).observed_phases(replies, pid);
            &&& forall|i: int|
                0 <= i < seen.len() ==> #[trigger] seen[i] == if i % 2 == 0 {
                    Phase::AwaitingEntry
                } else {
                    Phase::AwaitingExit
                }
            &&& forall|i: int| 0 <= i < seen.len() - 1 ==> #[trigger] seen[i] != seen[i + 1]
        }),
{
    let s = SupervisorModel::start(child, filter);
    lemma_start_wf(child, filter);
    lemma_phases_alternate_from(s, replies, pid);
    let seen = s.observed_phases(replies, pid);
    assert(s.next_phase(pid) == Phase::AwaitingEntry);
    assert forall|i: int| 0 <= i < seen.len() - 1 implies #[trigger] seen[i] != seen[i + 1] by {
        assert(seen[i] == phase_in_turn(Phase::AwaitingEntry, i));
        assert(seen[i + 1] == phase_in_turn(Phase::AwaitingEntry, i + 1));
    }
}

/// The tracer at the start of a trace is well formed.
pub proof fn lemma_start_wf(child: i32, filter: FilterModel)
    ensures
        SupervisorModel::start(child, filter).wf(),
{
    let s = SupervisorModel::start(child, filter);
    assert(s.processes.contains_key(child));
    assert(s.processes.dom() =~= Set::<i32>::empty().insert(child));
}

/// Filter soundness. Every line of a call that a trace gives out is of a
/// call that the filter admits: under a deny list no line is of a call
/// on the list, under an allow list every line is.
pub proof fn lemma_filter_sound(s: SupervisorModel, replies: Seq<ReplyModel>)
    ensures
        forall|i: int|
            0 <= i < s.emitted_all(replies).len() ==> (#[trigger] s.emitted_all(
                replies,
            )[i] matches LineModel::Call { name, .. } ==> s.filter.admits(name)),
    decreases replies.len(),
{
    if replies.len() > 0 {
        let t = s.after(replies[0]);
        lemma_filter_sound(t, replies.drop_first());
        assert(t.filter == s.filter);
        let lines = s.emitted_all(replies);
        let later = t.emitted_all(replies.drop_first());
        assert forall|i: int| 0 <= i < lines.len() implies (#[trigger] lines[i] matches LineModel::Call {
            name,
            ..
        } ==> s.filter.admits(name)) by {
            match s.emitted(replies[0]) {
                Some(line) => {
                    if i > 0 {
                        assert(lines[i] == later[i - 1]);
                    }
                },
                None => {},
            }
        }
    }
}

/// The entry fragment of a call begins with the call's name and an
/// opening bracket, and ends with a closing bracket.
pub proof fn lemma_entry_fragment_names_call(name: Seq<char>, fragment: Seq<char>)
    requires
        is_entry_fragment(name, fragment),
    ensures
        fragment.len() >= name.len() + 2,
        fragment.take(name.len() as int) == name,
        fragment[name.len() as int] == '(',
        fragment.last() == ')',
{
    let read = choose|read: Option<Result<Seq<char>, ReadError>>|
        fragment == #[trigger] entry_fragment(name, read);
    assert(fragment.take(name.len() as int) =~= name);
}

/// Filter soundness under a deny list: no line that a trace gives out is
/// of a call whose name is on the list.
pub proof fn lemma_deny_list_hides(
    s: SupervisorModel,
    names: Set<Seq<char>>,
    replies: Seq<ReplyModel>,
)
    requires
        s.filter == FilterModel::Deny(names),
    ensures
        forall|i: int|
            0 <= i < s.emitted_all(replies).len() ==> (#[trigger] s.emitted_all(
                replies,
            )[i] matches LineModel::Call { name, .. } ==> !names.contains(name)),
{
    lemma_filter_sound(s, replies);
}

/// Filter soundness under an allow list: every line of a call that a
/// trace gives out is of a call whose name is on the list.
pub proof fn lemma_allow_list_shows_only(
    s: SupervisorModel,
    names: Set<Seq<char>>,
    replies: Seq<ReplyModel>,
)
    requires
        s.filter == FilterModel::Allow(names),
    ensures
        forall|i: int|
            0 <= i < s.emitted_all(replies).len() ==> (#[trigger] s.emitted_all(
                replies,
            )[i] matches LineModel::Call { name, .. } ==> names.contains(name)),
{
    lemma_filter_sound(s, replies);
}

/// Pairing. Every line of a call that a trace gives out holds the entry
/// fragment of the call named, then the exit fragment of some result,
/// and is written as the two with ` = ` between them after the process
/// in brackets.
pub proof fn lemma_lines_pair(s: SupervisorModel, replies: Seq<ReplyModel>)
    requires
        s.wf(),
    ensures
        forall|i: int|
            0 <= i < s.emitted_all(replies).len() ==> (#[trigger] s.emitted_all(
                replies,
            )[i] matches LineModel::Call { pid, name, entry, exit } ==> {
                &&& is_entry_fragment(name, entry)
                &&& is_exit_fragment(exit)
                &&& s.emitted_all(replies)[i].fragments() == seq![entry, exit]
                &&& s.emitted_all(replies)[i].text() == line_prefix(pid) + entry
                    + fragment_separator() + exit
            }),
    decreases replies.len(),
{
    if replies.len() > 0 {
        let t = s.after(replies[0]);
        lemma_step_keeps_wf(s, replies[0]);
        lemma_lines_pair(t, replies.drop_first());
        let lines = s.emitted_all(replies);
        let later = t.emitted_all(replies.drop_first());
        assert forall|i: int| 0 <= i < lines.len() implies (#[trigger] lines[i] matches LineModel::Call {
            pid,
            name,
            entry,
            exit,
        } ==> {
            &&& is_entry_fragment(name, entry)
            &&& is_exit_fragment(exit)
            &&& lines[i].fragments() == seq![entry, exit]
            &&& lines[i].text() == line_prefix(pid) + entry + fragment_separator() + exit
        }) by {
            match s.emitted(replies[0]) {
                Some(line) => {
                    if i > 0 {
                        assert(lines[i] == later[i - 1]);
                    } else {
                        assert(lines[0] == line);
                        lemma_call_line(s, replies[0]);
                    }
                },
                None => {},
            }
        }
    }
}

/// The line of a call that one step gives out is a pair of an entry and
/// an exit fragment.
pub proof fn lemma_call_line(s: SupervisorModel, reply: ReplyModel)
    requires
        s.wf(),
    ensures
        s.emitted(reply) matches Some(LineModel::Call { pid, name, entry, exit }) ==> {
            &&& is_entry_fragment(name, entry)
            &&& is_exit_fragment(exit)
            &&& s.filter.admits(name)
            &&& s.emitted(reply)->Some_0.text() == line_prefix(pid) + entry + fragment_separator()
                + exit
        },
{
    match s.emitted(reply) {
        Some(LineModel::Call { pid, name, entry, exit }) => {
            match (s.request, reply) {
                (Action::ReadRegisters { pid: p }, ReplyModel::Registers(regs)) => {
                    assert(s.processes.contains_key(p));
                    assert(exit == exit_fragment(regs.return_value));
                },
                _ => {},
            }
            let parts = seq![entry, exit];
            assert(parts.drop_last() =~= seq![entry]);
            assert(parts.drop_last().drop_last() =~= Seq::<Seq<char>>::empty());
            assert(joined(parts.drop_last(), fragment_separator()) == entry);
            assert(joined(parts, fragment_separator()) =~= entry + fragment_separator() + exit);
            assert(line_prefix(pid) + joined(parts, fragment_separator()) =~= line_prefix(pid)
                + entry + fragment_separator() + exit);
        },
        _ => {},
    }
}

/// Termination. While a trace goes on, some process is under trace. A
/// reply that does not by itself end the trace ends it exactly when it
/// leaves no process under trace, and then the trace has not failed.
pub proof fn lemma_ends_when_group_empties(s: SupervisorModel, reply: ReplyModel)
    requires
        s.wf(),
        s.request.continues(),
        !ends_trace(reply),
    ensures
        !s.processes.dom().is_empty(),
        s.after(reply).request.continues() <==> !s.after(reply).processes.dom().is_empty(),
        !s.after(reply).request.continues() ==> s.after(reply).request == Action::Finished,
{
    let t = s.after(reply);
    lemma_step_keeps_wf(s, reply);
    match (s.request, reply) {
        (Action::ReadRegisters { pid }, ReplyModel::Registers(regs)) => {
            assert(t.processes.contains_key(pid));
        },
        (Action::ReadString { pid, .. }, ReplyModel::Text(text)) => {
            assert(t.processes.contains_key(pid));
        },
        (Action::Resume { .. }, ReplyModel::Event(event))
        | (Action::Wait, ReplyModel::Event(event)) => {
            match event {
                SyscallEvent::SyscallStop { pid } => {
                    assert(t.processes.contains_key(pid));
                },
                _ => {},
            }
        },
        _ => {},
    }
}

/// As long as the replies are about `child` alone, `child` alone is
/// under trace and the trace goes on.
pub proof fn lemma_child_stays_alone(child: i32, s: SupervisorModel, replies: Seq<ReplyModel>)
    requires
        s.wf(),
        s.request.continues(),
        s.handles_stop_of(child) || s.request.awaits_event(),
        s.processes.dom() =~= Set::<i32>::empty().insert(child),
        forall|i: int| 0 <= i < replies.len() ==> concerns_only(#[trigger] replies[i], child),
    ensures
        s.after_all(replies).wf(),
        s.after_all(replies).request.continues(),
        s.after_all(replies).processes.dom() =~= Set::<i32>::empty().insert(child),
    decreases replies.len(),
{
    if replies.len() > 0 {
        let t = s.after(replies[0]);
        let rest = replies.drop_first();
        lemma_step_keeps_wf(s, replies[0]);
        assert(concerns_only(replies[0], child));
        assert forall|i: int| 0 <= i < rest.len() implies concerns_only(#[trigger] rest[i], child) by {
            assert(rest[i] == replies[i + 1]);
        }
        assert(s.processes.contains_key(child));
        assert(t.processes.dom() =~= Set::<i32>::empty().insert(child));
        lemma_child_stays_alone(child, t, rest);
    }
}

/// Termination of a trace of one process. Where every reply is about
/// the first process alone, so that no other process comes under trace,
/// the trace goes on until that process ends by itself, and is over
/// when the tracer, waiting for an event, is told so.
pub proof fn lemma_single_process_ends(
    child: i32,
    filter: FilterModel,
    replies: Seq<ReplyModel>,
    code: i32,
)
    requires
        forall|i: int| 0 <= i < replies.len() ==> concerns_only(#[trigger] replies[i], child),
        SupervisorModel::start(child, filter).after_all(replies).request.awaits_event(),
    ensures
        SupervisorModel::start(child, filter).after_all(replies).request.continues(),
        SupervisorModel::start(child, filter).after_all(
            replies.push(ReplyModel::Event(SyscallEvent::NormalExit { pid: child, code })),
        ).request == Action::Finished,
{
    let s = SupervisorModel::start(child, filter);
    let last = ReplyModel::Event(SyscallEvent::NormalExit { pid: child, code });
    lemma_start_wf(child, filter);
    assert(s.processes.dom() =~= Set::<i32>::empty().insert(child));
    lemma_child_stays_alone(child, s, replies);
    lemma_after_all_push(s, replies, last);
    let t = s.after_all(replies);
    assert(t.processes.remove(child).dom() =~= Set::<i32>::empty());
}

/// As many times the reply that a process was let go of.
pub open spec fn releases(count: nat) -> Seq<ReplyModel> {
    Seq::new(count, |i: int| ReplyModel::Released)
}

/// Once the trace is over, no reply changes anything.
pub proof fn lemma_over_stays_over(s: SupervisorModel, replies: Seq<ReplyModel>)
    requires
        !s.request.continues(),
    ensures
        s.after_all(replies) == s,
    decreases replies.len(),
{
    if replies.len() > 0 {
        lemma_over_stays_over(s.after(replies[0]), replies.drop_first());
    }
}

/// A tracer that lets go of the processes is done when it has let go of
/// each of them.
pub proof fn lemma_releases_end(s: SupervisorModel)
    requires
        s.wf(),
        s.request is Release,
    ensures
        s.after_all(releases(s.processes.dom().len())).request == Action::Finished,
        s.after_all(releases(s.processes.dom().len())).processes.dom().is_empty(),
    decreases s.processes.dom().len(),
{
    let count = s.processes.dom().len();
    let pid = s.request->Release_pid;
    let t = s.after(ReplyModel::Released);
    assert(s.processes.contains_key(pid));
    assert(t.processes.dom() =~= s.processes.dom().remove(pid));
    lemma_step_keeps_wf(s, ReplyModel::Released);
    assert(count > 0);
    assert(releases(count)[0] == ReplyModel::Released);
    assert(releases(count).drop_first() =~= releases((count - 1) as nat));
    if t.processes.dom().is_empty() {
        assert(t.processes.dom().len() == 0);
        lemma_over_stays_over(t, releases(0));
    } else {
        lemma_releases_end(t);
    }
}

/// Cancellation. A tracer that is told to give the trace up while it
/// goes on asks for nothing but to let go of the processes under trace,
/// each once, and the trace is over without a failure when that was done
/// for each of them.
pub proof fn lemma_cancel_lets_all_go(s: SupervisorModel)
    requires
        s.wf(),
        s.request.continues(),
    ensures
        s.after(ReplyModel::Cancelled).request is Release,
        s.after(ReplyModel::Cancelled).processes == s.processes,
        s.after(ReplyModel::Cancelled).after_all(releases(s.processes.dom().len())).request
            == Action::Finished,
{
    let t = s.after(ReplyModel::Cancelled);
    lemma_step_keeps_wf(s, ReplyModel::Cancelled);
    lemma_releases_end(t);
}

} // verus!
