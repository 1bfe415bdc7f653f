//! What the tracer is told, what it asks for, and the lines it gives out.

use vstd::prelude::*;
use vstd::string::*;
use crate::text::{decimal, join_with, joined, render_decimal, texts};
use crate::trace::error::{read_text, ReadError, TraceError};
use crate::trace::registers::RegisterSnapshot;

verus! {

/// One notification about a traced process, as the system delivers it.
#[derive(Clone, Copy, Debug, PartialEq, Eq, Structural)]
pub enum SyscallEvent {
    /// The process ended by itself with the exit code `code`.
    NormalExit { pid: i32, code: i32 },
    /// The process was killed by the signal numbered `signal`.
    Signaled { pid: i32, signal: i32, core_dumped: bool },
    /// The process stopped at a fork, clone, exec or the like.
    TraceEvent { pid: i32, signal: i32, event_kind: i32 },
    /// The process stopped at the entry or at the exit of a call.
    SyscallStop { pid: i32 },
    /// The process stopped for a signal.
    OtherStop { pid: i32, signal: i32 },
    /// The process was continued.
    Continued { pid: i32 },
    /// Nothing has changed.
    StillAlive,
}

impl SyscallEvent {
    /// Whether the event ends the trace whatever the state of the group.
    pub open spec fn is_terminal(self) -> bool {
        self is Signaled || self is Continued || self is StillAlive
    }
}

/// The names of the trace events, each at the place of its number less one.
pub const TRACE_EVENT_NAMES: [(i32, &'static str); 7] = [
    (1, "PTRACE_EVENT_FORK"),
    (2, "PTRACE_EVENT_VFORK"),
    (3, "PTRACE_EVENT_CLONE"),
    (4, "PTRACE_EVENT_EXEC"),
    (5, "PTRACE_EVENT_VFORK_DONE"),
    (6, "PTRACE_EVENT_EXIT"),
    (7, "PTRACE_EVENT_SECCOMP"),
];

/// The name of the trace event numbered `kind`, for the events that have
/// one: fork, vfork, clone, exec, the end of a vfork, exit and seccomp.
pub fn trace_event_name(kind: i32) -> (name: Option<&'static str>)
    ensures
        name is Some <==> 1 <= kind <= 7,
        name matches Some(n) ==> TRACE_EVENT_NAMES[kind - 1] == (kind, n),
{
    if 1 <= kind && kind <= 7 {
        let row = TRACE_EVENT_NAMES[(kind - 1) as usize];
        Some(row.1)
    } else {
        None
    }
}

/// What the tracer asks to be done next.
#[derive(Clone, Copy, Debug, PartialEq, Eq, Structural)]
pub enum Action {
    /// Let `pid` run to its next syscall boundary, then wait for the next
    /// event of any traced process.
    Resume { pid: i32 },
    /// Wait for the next event of any traced process.
    Wait,
    /// Read the registers of the stopped process `pid`.
    ReadRegisters { pid: i32 },
    /// Read the string at `address` in the memory of the stopped process
    /// `pid`.
    ReadString { pid: i32, address: u64 },
    /// Let go of `pid`: detach from it so that it runs on untraced, or end
    /// it where that cannot be done.
    Release { pid: i32 },
    /// The trace is over.
    Finished,
    /// The trace was given up.
    Failed(TraceError),
}

impl Action {
    /// Whether the action is answered by an event.
    pub open spec fn awaits_event(self) -> bool {
        self is Resume || self is Wait
    }

    /// Whether the trace goes on.
    pub open spec fn continues(self) -> bool {
        !(self is Finished || self is Failed)
    }
}

/// What came of the action that the tracer asked for.
#[derive(Debug, PartialEq, Eq)]
pub enum Reply {
    /// The wait returned this event.
    Event(SyscallEvent),
    /// The registers that were read.
    Registers(RegisterSnapshot),
    /// The string that was read, or why it could not be.
    Text(Result<String, ReadError>),
    /// The wait failed.
    WaitFailed,
    /// The process could not be resumed.
    ResumeFailed,
    /// The trace is to be given up: whatever was asked for is dropped,
    /// and the tracer lets go of every process before it ends.
    Cancelled,
    /// The process was let go of.
    Released,
}

/// A reply as plain values.
pub enum ReplyModel {
    Event(SyscallEvent),
    Registers(RegisterSnapshot),
    Text(Result<Seq<char>, ReadError>),
    WaitFailed,
    ResumeFailed,
    Cancelled,
    Released,
}

impl View for Reply {
    type V = ReplyModel;

    open spec fn view(&self) -> ReplyModel {
        match self {
            Reply::Event(e) => ReplyModel::Event(*e),
            Reply::Registers(r) => ReplyModel::Registers(*r),
            Reply::Text(t) => ReplyModel::Text(read_text(*t)),
            Reply::WaitFailed => ReplyModel::WaitFailed,
            Reply::ResumeFailed => ReplyModel::ResumeFailed,
            Reply::Cancelled => ReplyModel::Cancelled,
            Reply::Released => ReplyModel::Released,
        }
    }
}

/// One line of the trace.
#[derive(Clone, Debug, PartialEq, Eq)]
pub enum TraceLine {
    /// A call that returned: its name, and the fragments made at its
    /// entry and at its exit.
    Call { pid: i32, name: String, entry: String, exit: String },
    /// A process that ended by itself. `pending` holds the entry fragment
    /// of the call that it was in, if it was in one.
    Finished { pid: i32, pending: Vec<String> },
}

/// A line as plain values.
pub enum LineModel {
    Call { pid: i32, name: Seq<char>, entry: Seq<char>, exit: Seq<char> },
    Finished { pid: i32, pending: Seq<Seq<char>> },
}

/// What follows the last fragment of a process that ended by itself.
pub open spec fn finished_mark() -> Seq<char> {
    seq!['P', 'r', 'o', 'c', 'e', 's', 's', ' ', 'f', 'i', 'n', 'i', 's', 'h', 'e', 'd', '!']
}

/// What stands between two fragments of a line.
pub open spec fn fragment_separator() -> Seq<char> {
    seq![' ', '=', ' ']
}

/// What opens each line: the process in square brackets, a colon and a space.
pub open spec fn line_prefix(pid: i32) -> Seq<char> {
    seq!['['] + decimal(pid as int) + seq![']', ':', ' ']
}

impl LineModel {
    /// The process that the line is about.
    pub open spec fn pid(self) -> i32 {
        match self {
            LineModel::Call { pid, .. } => pid,
            LineModel::Finished { pid, .. } => pid,
        }
    }

    /// The fragments of the line, in order.
    pub open spec fn fragments(self) -> Seq<Seq<char>> {
        match self {
            LineModel::Call { entry, exit, .. } => seq![entry, exit],
            LineModel::Finished { pending, .. } => pending.push(finished_mark()),
        }
    }

    /// The line as it is written.
    pub open spec fn text(self) -> Seq<char> {
        line_prefix(self.pid()) + joined(self.fragments(), fragment_separator())
    }
}

impl View for TraceLine {
    type V = LineModel;

    open spec fn view(&self) -> LineModel {
        match self {
            TraceLine::Call { pid, name, entry, exit } => LineModel::Call {
                pid: *pid,
                name: name@,
                entry: entry@,
                exit: exit@,
            },
            TraceLine::Finished { pid, pending } => LineModel::Finished {
                pid: *pid,
                pending: texts(pending@),
            },
        }
    }
}

/// The line that an optional line holds, as plain values.
pub open spec fn optional_line(line: Option<TraceLine>) -> Option<LineModel> {
    match line {
        Some(l) => Some(l@),
        None => None,
    }
}

impl TraceLine {
    /// The line as it is written: `[pid]: ` and the fragments with ` = `
    /// between them.
    pub fn render(&self) -> (text: String)
        ensures
            text@ == self@.text(),
    {
        proof {
            reveal_strlit("[");
            reveal_strlit("]: ");
            reveal_strlit(" = ");
            reveal_strlit("Process finished!");
            assert("]: "@ =~= seq![']', ':', ' ']);
            assert(" = "@ =~= fragment_separator());
            assert("Process finished!"@ =~= finished_mark());
        }
        let mut text = String::from_str("[");
        match self {
            TraceLine::Call { pid, name, entry, exit } => {
                let number = render_decimal(*pid as i64);
                text.append(number.as_str());
                text.append("]: ");
                assert(text@ =~= line_prefix(*pid));
                text.append(entry.as_str());
                text.append(" = ");
                text.append(exit.as_str());
                proof {
                    let parts = seq![entry@, exit@];
                    assert(parts.drop_last() =~= seq![entry@]);
                    assert(parts.drop_last().drop_last() =~= Seq::<Seq<char>>::empty());
                    assert(joined(parts.drop_last(), fragment_separator()) == entry@);
                    assert(joined(parts, fragment_separator()) =~= entry@ + fragment_separator()
                        + exit@);
                    assert(text@ =~= line_prefix(*pid) + joined(parts, fragment_separator()));
                }
            },
            TraceLine::Finished { pid, pending } => {
                let number = render_decimal(*pid as i64);
                text.append(number.as_str());
                text.append("]: ");
                assert(text@ =~= line_prefix(*pid));
                let before = join_with(pending, " = ");
                text.append(before.as_str());
                if pending.len() > 0 {
                    text.append(" = ");
                }
                text.append("Process finished!");
                proof {
                    let parts = texts(pending@).push(finished_mark());
                    assert(parts.drop_last() =~= texts(pending@));
                    assert(text@ =~= line_prefix(*pid) + joined(parts, fragment_separator()));
                }
            },
        }
        text
    }
}

/// What a step of the tracer gives back.
#[derive(Clone, Debug, PartialEq, Eq)]
pub struct Step {
    /// The line to write out, if the step completed one.
    pub line: Option<TraceLine>,
    /// What to do next.
    pub action: Action,
}

} // verus!
