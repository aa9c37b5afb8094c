use deet::debugger::Debugger;
use deet::inferior::{
    address_of_word, align_down, done, end_of, pointers_from, pointers_read, splice_byte,
    status_of, waited, word_of, word_read, written, Inferior, Life, Operation, TraceError, EBUSY,
    EINVAL, ESRCH,
};
use deet::ptrace::StateChange;
use deet::protocol::{DebuggerCommand, Event, Next, Reply, Report, Request, Status};
use deet::session::Target;
use deet::symbols::SymbolResolver;

/// No process has this identifier: it lies above every limit that the
/// system sets for process identifiers.
const NOBODY: i32 = 0x7fff_fff0;

const ECHILD: i32 = 10;

fn session() -> Debugger {
    Debugger::new("samples/loop", SymbolResolver::new(Vec::new(), Vec::new()))
}

#[test]
fn aligns_an_address_down_to_its_word() {
    assert_eq!(align_down(0), 0);
    assert_eq!(align_down(7), 0);
    assert_eq!(align_down(8), 8);
    assert_eq!(align_down(0x401136), 0x401130);
    assert_eq!(align_down(usize::MAX), usize::MAX - 7);
}

#[test]
fn replaces_one_byte_of_a_word() {
    assert_eq!(splice_byte(0x1122_3344_5566_7788, 0, 0xcc), (0x1122_3344_5566_77cc, 0x88));
    assert_eq!(splice_byte(0x1122_3344_5566_7788, 1, 0xcc), (0x1122_3344_5566_cc88, 0x77));
    assert_eq!(splice_byte(0x1122_3344_5566_7788, 6, 0xcc), (0x11cc_3344_5566_7788, 0x22));
    assert_eq!(splice_byte(0x1122_3344_5566_7788, 7, 0xcc), (0xcc22_3344_5566_7788, 0x11));
    assert_eq!(splice_byte(u64::MAX, 3, 0), (0xffff_ffff_00ff_ffff, 0xff));
    assert_eq!(splice_byte(0, 7, 0xff), (0xff00_0000_0000_0000, 0));
}

#[test]
fn putting_the_displaced_byte_back_restores_the_word() {
    let word: u64 = 0x0123_4567_89ab_cdef;
    for offset in 0..8 {
        let (patched, displaced) = splice_byte(word, offset, 0xcc);
        assert_eq!(splice_byte(patched, offset, displaced), (word, 0xcc));
    }
}

#[test]
fn takes_a_word_as_an_address() {
    assert_eq!(address_of_word(0), Some(0));
    assert_eq!(address_of_word(0x7ffd_0000_1000), Some(0x7ffd_0000_1000));
    assert_eq!(address_of_word(u64::MAX), Some(usize::MAX));
}

#[test]
fn a_wait_tells_an_exit_a_kill_and_a_stop_apart() {
    let unread = Err(TraceError { operation: Operation::GetRegisters, errno: ESRCH });
    assert_eq!(status_of(StateChange::Exited(0), unread), Ok(Status::Exited(0)));
    assert_eq!(status_of(StateChange::Exited(139), Ok((1, 2))), Ok(Status::Exited(139)));
    assert_eq!(status_of(StateChange::Signaled(9), unread), Ok(Status::Signaled(9)));
    assert_eq!(
        status_of(StateChange::Stopped(5), Ok((0x401136, 0x7ffd_0000_1000))),
        Ok(Status::Stopped(5, 0x401136))
    );
    assert_eq!(
        status_of(StateChange::Stopped(19), Ok((0, usize::MAX))),
        Ok(Status::Stopped(19, 0))
    );
}

#[test]
fn a_stop_whose_registers_cannot_be_read_is_a_failure_of_that_reading() {
    let failure = TraceError { operation: Operation::GetRegisters, errno: 5 };
    assert_eq!(status_of(StateChange::Stopped(5), Err(failure)), Err(failure));
}

#[test]
fn a_change_that_is_neither_end_nor_stop_is_an_error_of_the_wait() {
    assert_eq!(
        status_of(StateChange::Other, Ok((1, 2))),
        Err(TraceError { operation: Operation::Wait, errno: EINVAL })
    );
}

#[test]
fn a_kill_ends_with_the_end_of_the_process_and_never_with_a_stop() {
    assert_eq!(end_of(Ok(Status::Signaled(9))), Ok(Status::Signaled(9)));
    assert_eq!(end_of(Ok(Status::Exited(3))), Ok(Status::Exited(3)));
    assert_eq!(
        end_of(Ok(Status::Stopped(5, 0x1000))),
        Err(TraceError { operation: Operation::Kill, errno: EBUSY })
    );
    let failure = TraceError { operation: Operation::Wait, errno: ECHILD };
    assert_eq!(end_of(Err(failure)), Err(failure));
    assert_eq!(EBUSY, 16);
}

#[test]
fn words_and_pointers_read_from_the_target_are_taken_as_they_are() {
    assert_eq!(word_of(0), Ok(0));
    assert_eq!(word_of(0xdead_beef), Ok(0xdead_beef));
    assert_eq!(word_of(u64::MAX), Ok(usize::MAX));
    assert_eq!(pointers_from(0x401136, 0x7ffd_0000_1000), Ok((0x401136, 0x7ffd_0000_1000)));
    assert_eq!(pointers_from(u64::MAX, 0), Ok((usize::MAX, 0)));
}

#[test]
fn tells_of_a_wait() {
    assert_eq!(waited(Ok(Status::Exited(3))), Reply::Waited(Status::Exited(3)));
    assert_eq!(
        waited(Err(TraceError { operation: Operation::Wait, errno: ECHILD })),
        Reply::Failed { errno: ECHILD }
    );
}

#[test]
fn every_operation_has_its_reply() {
    let failure = TraceError { operation: Operation::Poke, errno: 14 };
    assert_eq!(written(Ok(0x55)), Reply::Written(0x55));
    assert_eq!(written(Err(failure)), Reply::Failed { errno: 14 });
    assert_eq!(done(Ok(())), Reply::Done);
    assert_eq!(done(Err(failure)), Reply::Failed { errno: 14 });
    assert_eq!(
        pointers_read(Ok((0x401136, 0x7000))),
        Reply::Registers { instruction_pointer: 0x401136, frame_pointer: 0x7000 }
    );
    assert_eq!(pointers_read(Err(failure)), Reply::Failed { errno: 14 });
    assert_eq!(word_read(Ok(0xdead)), Reply::Word(0xdead));
    assert_eq!(word_read(Err(failure)), Reply::Failed { errno: 14 });
}

#[test]
fn a_process_that_is_not_suspended_refuses_what_needs_it_suspended() {
    let mut process = Inferior::new(NOBODY).unwrap();
    for request in [
        Request::WriteByte { address: 0x1000, value: 0xcc },
        Request::SetInstructionPointer { address: 0x1000 },
        Request::Step,
        Request::Continue,
        Request::ReadRegisters,
        Request::ReadWord { address: 0x1000 },
    ] {
        assert_eq!(process.perform(request), Reply::Failed { errno: ESRCH });
        assert_eq!(process.state(), Life::Running);
    }
    assert_eq!(process.perform(Request::Spawn), Reply::Failed { errno: EINVAL });
    assert_eq!(process.state(), Life::Running);
}

#[test]
fn a_process_identifier_must_be_positive() {
    assert_eq!(Inferior::new(0), None);
    assert_eq!(Inferior::new(-1), None);
    assert_eq!(Inferior::new(i32::MIN), None);
    assert_eq!(Inferior::new(1).map(|process| process.pid()), Some(1));
    assert_eq!(Inferior::new(NOBODY).map(|process| process.pid()), Some(NOBODY));
    assert_eq!(Inferior::suspended(0), None);
    assert_eq!(Inferior::suspended(NOBODY).map(|process| process.pid()), Some(NOBODY));
}

#[test]
fn a_process_begins_its_life_running_or_suspended() {
    assert_eq!(Inferior::new(NOBODY).unwrap().state(), Life::Running);
    assert_eq!(Inferior::suspended(NOBODY).unwrap().state(), Life::Stopped);
}

#[test]
fn a_process_that_is_not_suspended_is_left_alone() {
    let mut process = Inferior::new(NOBODY).unwrap();
    assert_eq!(
        process.read_registers(),
        Err(TraceError { operation: Operation::GetRegisters, errno: ESRCH })
    );
    assert_eq!(
        process.set_instruction_pointer(0x1000),
        Err(TraceError { operation: Operation::GetRegisters, errno: ESRCH })
    );
    assert_eq!(
        process.read_memory_word(0x1000),
        Err(TraceError { operation: Operation::Peek, errno: ESRCH })
    );
    assert_eq!(
        process.write_byte(0x1000, 0xcc),
        Err(TraceError { operation: Operation::Peek, errno: ESRCH })
    );
    assert_eq!(
        process
            .backtrace(&SymbolResolver::new(Vec::new(), Vec::new()))
            .map(|frames| frames.len()),
        Err(TraceError { operation: Operation::GetRegisters, errno: ESRCH })
    );
    assert_eq!(process.step(), Err(TraceError { operation: Operation::Step, errno: ESRCH }));
    assert_eq!(process.cont(), Err(TraceError { operation: Operation::Continue, errno: ESRCH }));
    assert_eq!(process.state(), Life::Running);
}

#[test]
fn operations_on_a_process_that_is_not_there_fail_with_the_error_of_the_system() {
    let mut process = Inferior::new(NOBODY).unwrap();
    assert_eq!(
        process.wait(),
        Err(TraceError { operation: Operation::Wait, errno: ECHILD })
    );
    assert_eq!(process.state(), Life::Running);
    let mut process = Inferior::suspended(NOBODY).unwrap();
    assert_eq!(
        process.read_registers(),
        Err(TraceError { operation: Operation::GetRegisters, errno: ESRCH })
    );
    assert_eq!(
        process.set_instruction_pointer(0x1000),
        Err(TraceError { operation: Operation::GetRegisters, errno: ESRCH })
    );
    assert_eq!(
        process.read_memory_word(0x1000),
        Err(TraceError { operation: Operation::Peek, errno: ESRCH })
    );
    assert_eq!(
        process.write_byte(0x1003, 0xcc),
        Err(TraceError { operation: Operation::Peek, errno: ESRCH })
    );
    assert_eq!(
        process
            .backtrace(&SymbolResolver::new(Vec::new(), Vec::new()))
            .map(|frames| frames.len()),
        Err(TraceError { operation: Operation::GetRegisters, errno: ESRCH })
    );
    assert_eq!(process.step(), Err(TraceError { operation: Operation::Step, errno: ESRCH }));
    assert_eq!(process.cont(), Err(TraceError { operation: Operation::Continue, errno: ESRCH }));
    assert_eq!(process.terminate(), Err(TraceError { operation: Operation::Kill, errno: ESRCH }));
    assert_eq!(process.state(), Life::Stopped);
}

#[test]
fn every_request_on_a_process_that_is_not_there_is_answered_with_a_failure() {
    let mut process = Inferior::new(NOBODY).unwrap();
    assert_eq!(process.perform(Request::Spawn), Reply::Failed { errno: EINVAL });
    assert_eq!(process.perform(Request::Wait), Reply::Failed { errno: ECHILD });
    let mut process = Inferior::suspended(NOBODY).unwrap();
    for request in [
        Request::WriteByte { address: 0x1000, value: 0xcc },
        Request::SetInstructionPointer { address: 0x1000 },
        Request::Step,
        Request::Continue,
        Request::Kill,
        Request::ReadRegisters,
        Request::ReadWord { address: 0x1000 },
    ] {
        assert_eq!(process.perform(request), Reply::Failed { errno: ESRCH });
    }
}

#[test]
fn driving_a_command_that_needs_no_target_answers_at_once() {
    let mut debugger = session();
    assert_eq!(
        debugger.drive(Event::Command(DebuggerCommand::Continue)),
        (vec![Report::NoActiveTarget], Next::AwaitCommand)
    );
    assert_eq!(
        debugger.drive(Event::Command(DebuggerCommand::Breakpoint("0x10".to_string()))),
        (
            vec![Report::BreakpointSet { number: 0, address: 0x10, patch_error: None }],
            Next::AwaitCommand
        )
    );
    assert_eq!(
        debugger.drive(Event::Command(DebuggerCommand::Breakpoint("zz".to_string()))),
        (vec![Report::InvalidAddress], Next::AwaitCommand)
    );
}

#[test]
fn driving_a_run_stops_where_a_target_has_to_be_started() {
    let mut debugger = session();
    assert_eq!(
        debugger.drive(Event::Command(DebuggerCommand::Run(Vec::new()))),
        (Vec::new(), Next::Perform(Request::Spawn))
    );
    assert_eq!(debugger.pending(), Some(Request::Spawn));
}

#[test]
fn driving_on_with_a_process_that_is_not_there_reports_that_the_start_failed() {
    let mut debugger = session();
    debugger.drive(Event::Command(DebuggerCommand::Breakpoint("0x1000".to_string())));
    debugger.drive(Event::Command(DebuggerCommand::Run(Vec::new())));
    assert_eq!(
        debugger.drive(Event::Reply(Reply::Spawned { pid: NOBODY })),
        (vec![Report::StartFailed], Next::AwaitCommand)
    );
    assert_eq!(debugger.inferior(), Target::Absent);
}

#[test]
fn driving_with_a_process_identifier_that_names_no_process_fails_without_a_call() {
    let mut debugger = session();
    debugger.drive(Event::Command(DebuggerCommand::Run(Vec::new())));
    assert_eq!(
        debugger.drive(Event::Reply(Reply::Spawned { pid: -1 })),
        (vec![Report::StartFailed], Next::AwaitCommand)
    );
}

#[test]
fn driving_a_resume_on_a_process_that_is_gone_reports_the_failed_operation() {
    let mut debugger = session();
    debugger.run(Event::Command(DebuggerCommand::Run(Vec::new())));
    debugger.run(Event::Reply(Reply::Spawned { pid: NOBODY }));
    debugger.run(Event::Reply(Reply::Waited(Status::Stopped(5, 0x1000))));
    assert_eq!(debugger.pending(), Some(Request::Continue));
    debugger.run(Event::Reply(Reply::Waited(Status::Stopped(5, 0x1004))));
    assert_eq!(
        debugger.drive(Event::Command(DebuggerCommand::Continue)),
        (
            vec![Report::TraceFailed { request: Request::Continue, errno: ESRCH }],
            Next::AwaitCommand
        )
    );
    assert_eq!(
        debugger.drive(Event::Command(DebuggerCommand::BackTrace)),
        (
            vec![Report::TraceFailed { request: Request::ReadRegisters, errno: ESRCH }],
            Next::AwaitCommand
        )
    );
    assert_eq!(
        debugger.drive(Event::Command(DebuggerCommand::Breakpoint("0x1008".to_string()))),
        (
            vec![Report::BreakpointSet { number: 0, address: 0x1008, patch_error: Some(ESRCH) }],
            Next::AwaitCommand
        )
    );
    assert_eq!(
        debugger.drive(Event::Command(DebuggerCommand::Quit)),
        (vec![Report::TraceFailed { request: Request::Kill, errno: ESRCH }], Next::Exit)
    );
}
