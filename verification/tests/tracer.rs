use stracer::trace::error::ReadError;
use stracer::trace::registers::RegisterSnapshot;
use stracer::trace::{trace_posthook, trace_prehook};

fn regs(number: u64, first: u64, result: i64) -> RegisterSnapshot {
    RegisterSnapshot { syscall_number: number, arguments: [first, 0, 0, 0, 0, 0], return_value: result }
}

#[test]
fn prehook_of_a_call_without_a_path() {
    assert_eq!(trace_prehook(&regs(0, 3, 0), None), "read()");
    assert_eq!(trace_prehook(&regs(231, 0, 0), None), "exit_group()");
}

#[test]
fn prehook_of_a_call_with_a_path() {
    let path = Ok("/tmp/x".to_string());
    assert_eq!(trace_prehook(&regs(2, 4096, 0), Some(&path)), "open(\"/tmp/x\")");
    assert_eq!(trace_prehook(&regs(59, 4096, 0), Some(&path)), "execve(\"/tmp/x\")");
}

#[test]
fn prehook_of_an_unreadable_path() {
    let failed = Err(ReadError::Unreadable { address: 4096 });
    assert_eq!(trace_prehook(&regs(2, 4096, 0), Some(&failed)), "open(<unreadable>)");
    assert_eq!(trace_prehook(&regs(80, 4096, 0), None), "chdir(<unreadable>)");
}

#[test]
fn posthook_shows_small_results_in_decimal() {
    assert_eq!(trace_posthook(&regs(0, 0, 0)), "0");
    assert_eq!(trace_posthook(&regs(0, 0, 3)), "3");
    assert_eq!(trace_posthook(&regs(0, 0, -2)), "-2");
    assert_eq!(trace_posthook(&regs(0, 0, 10000)), "10000");
    assert_eq!(trace_posthook(&regs(0, 0, i64::MIN)), "-9223372036854775808");
}

#[test]
fn posthook_shows_large_results_in_hexadecimal() {
    assert_eq!(trace_posthook(&regs(0, 0, 10001)), "0x2711");
    assert_eq!(trace_posthook(&regs(9, 0, 0x7f12_3456_7000)), "0x7f1234567000");
    assert_eq!(trace_posthook(&regs(9, 0, i64::MAX)), "0x7fffffffffffffff");
}

use stracer::args::Opt;
use stracer::trace::error::{ConfigError, TraceError};
use stracer::trace::event::{trace_event_name, Action, Reply, Step, SyscallEvent, TraceLine};
use stracer::trace::memory::{read_c_string, CStringReader};
use stracer::trace::process::Phase;
use stracer::trace::supervisor::{trace, TraceSupervisor};
use stracer::trace::syscalls::syscall_name;
use stracer::trace::TraceOption;

fn stop(pid: i32) -> Reply {
    Reply::Event(SyscallEvent::SyscallStop { pid })
}

fn exit(pid: i32) -> Reply {
    Reply::Event(SyscallEvent::NormalExit { pid, code: 0 })
}

fn texts(lines: &[TraceLine]) -> Vec<String> {
    lines.iter().map(|line| line.render()).collect()
}

/// The replies of a process that opens `/tmp/x`, reads, and ends.
fn open_read_exit(pid: i32) -> Vec<Reply> {
    vec![
        stop(pid),
        Reply::Registers(regs(2, 0x7ffd_0000, 0)),
        Reply::Text(Ok("/tmp/x".to_string())),
        stop(pid),
        Reply::Registers(regs(2, 0x7ffd_0000, 3)),
        stop(pid),
        Reply::Registers(regs(0, 3, 0)),
        stop(pid),
        Reply::Registers(regs(0, 3, 42)),
        exit(pid),
    ]
}

#[test]
fn syscall_table_holds_the_usual_names() {
    assert_eq!(syscall_name(0), Some("read"));
    assert_eq!(syscall_name(1), Some("write"));
    assert_eq!(syscall_name(2), Some("open"));
    assert_eq!(syscall_name(59), Some("execve"));
    assert_eq!(syscall_name(231), Some("exit_group"));
    assert_eq!(syscall_name(257), Some("openat"));
    assert_eq!(syscall_name(334), Some("rseq"));
    assert_eq!(syscall_name(335), None);
    assert_eq!(syscall_name(423), None);
    assert_eq!(syscall_name(424), Some("pidfd_send_signal"));
    assert_eq!(syscall_name(435), Some("clone3"));
    assert_eq!(syscall_name(462), Some("mseal"));
    assert_eq!(syscall_name(463), None);
    assert_eq!(syscall_name(u64::MAX), None);
}

#[test]
fn prehook_of_a_number_without_a_name() {
    assert_eq!(trace_prehook(&regs(400, 0, 0), None), "syscall_400()");
    assert_eq!(trace_prehook(&regs(u64::MAX, 0, 0), None), "syscall_18446744073709551615()");
}

#[test]
fn trace_without_a_filter_shows_every_call() {
    let record = trace(100, TraceOption::all(), &open_read_exit(100));
    assert_eq!(
        texts(&record.lines),
        vec![
            "[100]: open(\"/tmp/x\") = 3".to_string(),
            "[100]: read() = 42".to_string(),
            "[100]: Process finished!".to_string(),
        ]
    );
    assert_eq!(record.last, Action::Finished);
}

#[test]
fn trace_with_a_deny_list_leaves_the_call_out() {
    let filter = TraceOption::Ignore(vec!["read".to_string()]);
    let record = trace(100, filter, &open_read_exit(100));
    assert_eq!(
        texts(&record.lines),
        vec!["[100]: open(\"/tmp/x\") = 3".to_string(), "[100]: Process finished!".to_string()]
    );
    assert_eq!(record.last, Action::Finished);
}

#[test]
fn trace_with_an_allow_list_shows_only_the_call() {
    let filter = TraceOption::Trace(vec!["read".to_string()]);
    let record = trace(100, filter, &open_read_exit(100));
    assert_eq!(
        texts(&record.lines),
        vec!["[100]: read() = 42".to_string(), "[100]: Process finished!".to_string()]
    );
    for line in &record.lines {
        if let TraceLine::Call { name, .. } = line {
            assert_eq!(name, "read");
        }
    }
}

#[test]
fn trace_shows_an_unreadable_path() {
    let replies = vec![
        stop(7),
        Reply::Registers(regs(2, 0xdead, 0)),
        Reply::Text(Err(ReadError::Unreadable { address: 0xdead })),
        stop(7),
        Reply::Registers(regs(2, 0xdead, -14)),
    ];
    let record = trace(7, TraceOption::all(), &replies);
    assert_eq!(texts(&record.lines), vec!["[7]: open(<unreadable>) = -14".to_string()]);
    assert_eq!(record.last, Action::Resume { pid: 7 });
}

#[test]
fn trace_of_a_process_that_forks() {
    let replies = vec![
        stop(10),
        Reply::Registers(regs(57, 0, 0)),
        Reply::Event(SyscallEvent::TraceEvent { pid: 10, signal: 5, event_kind: 1 }),
        Reply::Event(SyscallEvent::OtherStop { pid: 11, signal: 19 }),
        stop(11),
        Reply::Registers(regs(39, 0, 0)),
        stop(10),
        Reply::Registers(regs(57, 0, 11)),
        stop(11),
        Reply::Registers(regs(39, 0, 11)),
        stop(11),
        Reply::Registers(regs(231, 0, 0)),
        exit(11),
        stop(10),
        Reply::Registers(regs(231, 0, 0)),
        exit(10),
    ];
    let record = trace(10, TraceOption::all(), &replies);
    assert_eq!(
        texts(&record.lines),
        vec![
            "[10]: fork() = 11".to_string(),
            "[11]: getpid() = 11".to_string(),
            "[11]: exit_group() = Process finished!".to_string(),
            "[10]: exit_group() = Process finished!".to_string(),
        ]
    );
    assert_eq!(record.last, Action::Finished);
}

#[test]
fn tracer_goes_on_until_the_last_process_ends() {
    let mut tracer = TraceSupervisor::new(10, TraceOption::all());
    assert_eq!(tracer.request(), Action::Resume { pid: 10 });
    assert_eq!(tracer.live(), 1);
    assert_eq!(tracer.step(&stop(11)).action, Action::ReadRegisters { pid: 11 });
    assert_eq!(tracer.live(), 2);
    assert_eq!(tracer.step(&Reply::Registers(regs(39, 0, 0))).action, Action::Resume { pid: 11 });
    let step = tracer.step(&exit(10));
    assert_eq!(step.action, Action::Wait);
    assert_eq!(step.line, Some(TraceLine::Finished { pid: 10, pending: vec![] }));
    assert_eq!(tracer.live(), 1);
    let step = tracer.step(&exit(11));
    assert_eq!(step.action, Action::Finished);
    assert_eq!(
        step.line,
        Some(TraceLine::Finished { pid: 11, pending: vec!["getpid()".to_string()] })
    );
    assert_eq!(tracer.live(), 0);
    assert_eq!(tracer.step(&stop(11)), Step { line: None, action: Action::Finished });
}

#[test]
fn tracer_phases_alternate() {
    let mut tracer = TraceSupervisor::new(5, TraceOption::all());
    assert_eq!(tracer.phase_of(5), Some(Phase::AwaitingEntry));
    assert_eq!(tracer.phase_of(6), None);
    for round in 0..6 {
        let expected = if round % 2 == 0 { Phase::AwaitingEntry } else { Phase::AwaitingExit };
        assert_eq!(tracer.step(&stop(5)).action, Action::ReadRegisters { pid: 5 });
        assert_eq!(tracer.phase_of(5), Some(expected));
        assert_eq!(tracer.step(&Reply::Registers(regs(1, 1, 5))).action, Action::Resume { pid: 5 });
        assert_ne!(tracer.phase_of(5), Some(expected));
    }
}

#[test]
fn tracer_asks_for_the_path_of_a_call_that_takes_one() {
    let mut tracer = TraceSupervisor::new(5, TraceOption::all());
    tracer.step(&stop(5));
    let step = tracer.step(&Reply::Registers(regs(21, 0x1234, 0)));
    assert_eq!(step, Step { line: None, action: Action::ReadString { pid: 5, address: 0x1234 } });
    assert_eq!(tracer.phase_of(5), Some(Phase::AwaitingEntry));
    let step = tracer.step(&Reply::Text(Ok("/etc/ld.so.preload".to_string())));
    assert_eq!(step, Step { line: None, action: Action::Resume { pid: 5 } });
    assert_eq!(tracer.phase_of(5), Some(Phase::AwaitingExit));
    tracer.step(&stop(5));
    let step = tracer.step(&Reply::Registers(regs(21, 0x1234, -2)));
    assert_eq!(
        step.line.map(|line| line.render()),
        Some("[5]: access(\"/etc/ld.so.preload\") = -2".to_string())
    );
}

#[test]
fn tracer_ignores_a_reply_that_does_not_answer() {
    let mut tracer = TraceSupervisor::new(5, TraceOption::all());
    assert_eq!(
        tracer.step(&Reply::Registers(regs(0, 0, 0))),
        Step { line: None, action: Action::Resume { pid: 5 } }
    );
    tracer.step(&stop(5));
    assert_eq!(tracer.step(&stop(5)), Step { line: None, action: Action::ReadRegisters { pid: 5 } });
    assert_eq!(
        tracer.step(&Reply::WaitFailed),
        Step { line: None, action: Action::ReadRegisters { pid: 5 } }
    );
    assert_eq!(tracer.phase_of(5), Some(Phase::AwaitingEntry));
}

#[test]
fn tracer_ends_on_a_signal_and_on_failures() {
    let mut tracer = TraceSupervisor::new(5, TraceOption::all());
    let killed = Reply::Event(SyscallEvent::Signaled { pid: 5, signal: 9, core_dumped: false });
    assert_eq!(tracer.step(&killed), Step { line: None, action: Action::Finished });

    let mut tracer = TraceSupervisor::new(5, TraceOption::all());
    let continued = Reply::Event(SyscallEvent::Continued { pid: 5 });
    assert_eq!(tracer.step(&continued).action, Action::Finished);

    let mut tracer = TraceSupervisor::new(5, TraceOption::all());
    assert_eq!(tracer.step(&Reply::Event(SyscallEvent::StillAlive)).action, Action::Finished);

    let mut tracer = TraceSupervisor::new(5, TraceOption::all());
    assert_eq!(tracer.step(&Reply::WaitFailed).action, Action::Failed(TraceError::Wait));
    assert_eq!(tracer.step(&stop(5)).action, Action::Failed(TraceError::Wait));

    let mut tracer = TraceSupervisor::new(5, TraceOption::all());
    assert_eq!(tracer.step(&Reply::ResumeFailed).action, Action::Failed(TraceError::Resume));
}

#[test]
fn trace_errors_have_messages() {
    assert_eq!(TraceError::Spawn.message(), "could not start the traced process");
    assert_eq!(TraceError::Wait.message(), "waiting for the traced processes failed");
    assert_eq!(TraceError::Resume.message(), "could not resume the traced process");
    assert_eq!(
        ConfigError.message(),
        "the lists of calls to trace and of calls not to trace exclude each other"
    );
}

#[test]
fn line_of_a_process_with_a_negative_number() {
    let line = TraceLine::Call {
        pid: -1,
        name: "read".to_string(),
        entry: "read()".to_string(),
        exit: "0".to_string(),
    };
    assert_eq!(line.render(), "[-1]: read() = 0");
    let line = TraceLine::Finished { pid: i32::MIN, pending: vec![] };
    assert_eq!(line.render(), "[-2147483648]: Process finished!");
}

#[test]
fn filter_admits_by_name() {
    let deny = TraceOption::Ignore(vec!["read".to_string(), "write".to_string()]);
    assert!(!deny.admits("read"));
    assert!(!deny.admits("write"));
    assert!(deny.admits("open"));
    assert!(deny.admits("rea"));
    let allow = TraceOption::Trace(vec!["read".to_string()]);
    assert!(allow.admits("read"));
    assert!(!allow.admits("open"));
    assert!(!allow.admits(""));
    assert!(TraceOption::all().admits("anything"));
    assert!(!TraceOption::Trace(vec![]).admits("read"));
}

#[test]
fn filter_is_made_from_at_most_one_list() {
    let names = vec!["read".to_string()];
    assert_eq!(TraceOption::new(Some(names.clone()), Some(names.clone())), Err(ConfigError));
    assert_eq!(TraceOption::new(Some(names.clone()), None), Ok(TraceOption::Trace(names.clone())));
    assert_eq!(TraceOption::new(None, Some(names.clone())), Ok(TraceOption::Ignore(names)));
    assert_eq!(TraceOption::new(None, None), Ok(TraceOption::Ignore(vec![])));
}

#[test]
fn options_give_the_filter_and_the_arguments() {
    let opt = Opt {
        dont_trace: Some(vec!["mmap".to_string()]),
        to_trace: None,
        exe: "ls".to_string(),
        exe_args: vec!["-l".to_string(), "/".to_string()],
    };
    assert_eq!(opt.filter(), Ok(TraceOption::Ignore(vec!["mmap".to_string()])));
    assert_eq!(opt.argv(), vec!["ls".to_string(), "-l".to_string(), "/".to_string()]);
    let both = Opt { to_trace: Some(vec!["read".to_string()]), ..opt.clone() };
    assert_eq!(both.filter(), Err(ConfigError));
    let neither = Opt { dont_trace: None, exe_args: vec![], ..opt };
    assert_eq!(neither.filter(), Ok(TraceOption::Ignore(vec![])));
    assert_eq!(neither.argv(), vec!["ls".to_string()]);
}

fn chunk(bytes: &[u8]) -> Option<[u8; 8]> {
    let mut out = [0u8; 8];
    out[..bytes.len()].copy_from_slice(bytes);
    Some(out)
}

#[test]
fn reader_stops_at_the_terminator() {
    let chunks = vec![chunk(b"/tmp/som"), chunk(b"e/file\0x"), chunk(b"ignored\0")];
    assert_eq!(read_c_string(0x1000, &chunks), Ok("/tmp/some/file".to_string()));
    assert_eq!(read_c_string(0x1000, &vec![chunk(b"\0rest")]), Ok(String::new()));
    assert_eq!(read_c_string(0x1000, &vec![chunk(b"12345678"), chunk(b"")]), Ok("12345678".to_string()));
}

#[test]
fn reader_asks_for_one_chunk_after_the_other() {
    let mut reader = CStringReader::new(0x1000);
    assert_eq!(reader.request(), Some(0x1000));
    reader.supply(chunk(b"abcdefgh"));
    assert_eq!(reader.request(), Some(0x1008));
    reader.supply(chunk(b"ij"));
    assert_eq!(reader.request(), None);
    reader.supply(chunk(b"more"));
    assert_eq!(reader.finish(), Ok("abcdefghij".to_string()));
}

#[test]
fn reader_fails_where_a_chunk_cannot_be_read() {
    let chunks = vec![chunk(b"abcdefgh"), None, chunk(b"late\0")];
    assert_eq!(read_c_string(0x1000, &chunks), Err(ReadError::Unreadable { address: 0x1008 }));
    assert_eq!(read_c_string(0x1000, &vec![]), Err(ReadError::Unreadable { address: 0x1000 }));
    assert_eq!(
        read_c_string(0x1000, &vec![chunk(b"abcdefgh")]),
        Err(ReadError::Unreadable { address: 0x1008 })
    );
}

#[test]
fn reader_stops_at_the_longest_string() {
    let chunks: Vec<Option<[u8; 8]>> = (0..600).map(|_| chunk(b"aaaaaaaa")).collect();
    assert_eq!(read_c_string(0, &chunks), Ok("a".repeat(4096)));
}

#[test]
fn reader_fails_at_the_end_of_the_address_space() {
    let chunks = vec![chunk(b"abcdefgh"), chunk(b"z\0")];
    assert_eq!(read_c_string(u64::MAX - 7, &chunks), Err(ReadError::AddressOverflow));
    assert_eq!(read_c_string(u64::MAX - 8, &chunks), Ok("abcdefghz".to_string()));
}

#[test]
fn reader_replaces_what_is_not_text() {
    assert_eq!(read_c_string(0, &vec![chunk(b"a\xffb\0")]), Ok("a\u{fffd}b".to_string()));
    assert_eq!(read_c_string(0, &vec![chunk("é\0".as_bytes())]), Ok("é".to_string()));
}

#[test]
fn tracer_lets_go_of_every_process_when_cancelled() {
    let mut tracer = TraceSupervisor::new(30, TraceOption::all());
    tracer.step(&stop(20));
    tracer.step(&Reply::Registers(regs(39, 0, 0)));
    tracer.step(&stop(10));
    assert_eq!(tracer.live(), 3);
    assert_eq!(
        tracer.step(&Reply::Cancelled),
        Step { line: None, action: Action::Release { pid: 10 } }
    );
    assert_eq!(tracer.step(&stop(10)).action, Action::Release { pid: 10 });
    assert_eq!(tracer.step(&Reply::Cancelled).action, Action::Release { pid: 10 });
    assert_eq!(tracer.step(&Reply::Released).action, Action::Release { pid: 20 });
    assert_eq!(tracer.live(), 2);
    assert_eq!(tracer.step(&Reply::Released).action, Action::Release { pid: 30 });
    assert_eq!(tracer.step(&Reply::Released), Step { line: None, action: Action::Finished });
    assert_eq!(tracer.live(), 0);
    assert_eq!(tracer.step(&Reply::Released).action, Action::Finished);
    assert_eq!(tracer.step(&Reply::Cancelled).action, Action::Finished);
}

#[test]
fn tracer_is_not_released_unless_cancelled() {
    let mut tracer = TraceSupervisor::new(5, TraceOption::all());
    assert_eq!(tracer.step(&Reply::Released).action, Action::Resume { pid: 5 });
    assert_eq!(tracer.live(), 1);
    let mut tracer = TraceSupervisor::new(5, TraceOption::all());
    tracer.step(&Reply::WaitFailed);
    assert_eq!(tracer.step(&Reply::Cancelled).action, Action::Failed(TraceError::Wait));
}

#[test]
fn trace_that_is_cancelled_gives_no_more_lines() {
    let mut replies = open_read_exit(100);
    replies.truncate(6);
    replies.push(Reply::Cancelled);
    replies.push(Reply::Registers(regs(0, 3, 0)));
    replies.push(Reply::Released);
    replies.push(exit(100));
    let record = trace(100, TraceOption::all(), &replies);
    assert_eq!(texts(&record.lines), vec!["[100]: open(\"/tmp/x\") = 3".to_string()]);
    assert_eq!(record.last, Action::Finished);
}

#[test]
fn lines_of_calls_pair_an_entry_with_an_exit() {
    let record = trace(100, TraceOption::all(), &open_read_exit(100));
    let mut calls = 0;
    for line in &record.lines {
        if let TraceLine::Call { pid, name, entry, exit } = line {
            calls += 1;
            assert_eq!(line.render(), format!("[{}]: {} = {}", pid, entry, exit));
            assert!(entry.starts_with(&format!("{}(", name)));
            assert!(entry.ends_with(')'));
            assert!(exit.parse::<i64>().is_ok() || exit.starts_with("0x"));
            assert_eq!(line.render().matches(" = ").count(), 1);
        }
    }
    assert_eq!(calls, 2);
}

#[test]
fn trace_events_have_names() {
    assert_eq!(trace_event_name(1), Some("PTRACE_EVENT_FORK"));
    assert_eq!(trace_event_name(2), Some("PTRACE_EVENT_VFORK"));
    assert_eq!(trace_event_name(3), Some("PTRACE_EVENT_CLONE"));
    assert_eq!(trace_event_name(4), Some("PTRACE_EVENT_EXEC"));
    assert_eq!(trace_event_name(5), Some("PTRACE_EVENT_VFORK_DONE"));
    assert_eq!(trace_event_name(6), Some("PTRACE_EVENT_EXIT"));
    assert_eq!(trace_event_name(7), Some("PTRACE_EVENT_SECCOMP"));
    assert_eq!(trace_event_name(0), None);
    assert_eq!(trace_event_name(8), None);
    assert_eq!(trace_event_name(-1), None);
    assert_eq!(trace_event_name(i32::MIN), None);
}

#[test]
fn syscall_table_agrees_with_the_numbers_of_the_c_library() {
    let known = [
        (libc::SYS_read, "read"),
        (libc::SYS_write, "write"),
        (libc::SYS_open, "open"),
        (libc::SYS_close, "close"),
        (libc::SYS_stat, "stat"),
        (libc::SYS_lstat, "lstat"),
        (libc::SYS_mmap, "mmap"),
        (libc::SYS_brk, "brk"),
        (libc::SYS_access, "access"),
        (libc::SYS_getpid, "getpid"),
        (libc::SYS_clone, "clone"),
        (libc::SYS_fork, "fork"),
        (libc::SYS_execve, "execve"),
        (libc::SYS_exit, "exit"),
        (libc::SYS_wait4, "wait4"),
        (libc::SYS_chdir, "chdir"),
        (libc::SYS_arch_prctl, "arch_prctl"),
        (libc::SYS_gettid, "gettid"),
        (libc::SYS_futex, "futex"),
        (libc::SYS_exit_group, "exit_group"),
        (libc::SYS_openat, "openat"),
        (libc::SYS_newfstatat, "newfstatat"),
        (libc::SYS_prlimit64, "prlimit64"),
        (libc::SYS_getrandom, "getrandom"),
        (libc::SYS_statx, "statx"),
        (libc::SYS_rseq, "rseq"),
        (libc::SYS_pidfd_send_signal, "pidfd_send_signal"),
        (libc::SYS_clone3, "clone3"),
        (libc::SYS_close_range, "close_range"),
        (libc::SYS_faccessat2, "faccessat2"),
        (libc::SYS_mseal, "mseal"),
    ];
    for (number, name) in known {
        assert_eq!(syscall_name(number as u64), Some(name));
    }
}
