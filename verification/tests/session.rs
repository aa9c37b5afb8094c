use std::collections::HashMap;

use deet::breakpoints::BreakpointEntry;
use deet::debugger::Debugger;
use deet::protocol::{DebuggerCommand, Event, Next, Outcome, Reply, Report, Request, Status};
use deet::session::{Phase, Target};
use deet::stack::MAX_FRAMES;
use deet::symbols::{Function, Line, SymbolResolver};

const SIGTRAP: i32 = 5;
const SIGKILL: i32 = 9;
const EIO: i32 = 5;

/// A target that exists in the test only: its memory, the path that its
/// execution takes, and a record of what it was asked and what it executed.
struct Simulated {
    memory: HashMap<usize, u8>,
    path: Vec<usize>,
    position: usize,
    instruction_pointer: usize,
    frame_pointer: usize,
    stack: HashMap<usize, usize>,
    executed: Vec<usize>,
    asked: Vec<Request>,
    spawned: usize,
    alive: bool,
}

impl Simulated {
    fn new(path: Vec<usize>) -> Simulated {
        Simulated {
            memory: HashMap::new(),
            path,
            position: 0,
            instruction_pointer: 0,
            frame_pointer: 0,
            stack: HashMap::new(),
            executed: Vec::new(),
            asked: Vec::new(),
            spawned: 0,
            alive: false,
        }
    }

    fn byte(&self, address: usize) -> u8 {
        *self.memory.get(&address).unwrap_or(&0x90)
    }

    fn stop(&self) -> Reply {
        Reply::Waited(Status::Stopped(SIGTRAP, self.instruction_pointer))
    }

    /// Executes the instruction under the instruction pointer. A trap stops
    /// the target one byte behind it.
    fn execute_one(&mut self) -> Option<Reply> {
        if self.position == self.path.len() {
            self.alive = false;
            return Some(Reply::Waited(Status::Exited(0)));
        }
        let address = self.path[self.position];
        assert_eq!(self.instruction_pointer, address);
        if self.byte(address) == 0xcc {
            self.instruction_pointer = address + 1;
            return Some(self.stop());
        }
        self.executed.push(address);
        self.position += 1;
        if self.position < self.path.len() {
            self.instruction_pointer = self.path[self.position];
        }
        None
    }

    fn perform(&mut self, request: Request) -> Reply {
        self.asked.push(request);
        match request {
            Request::Spawn => {
                assert!(!self.alive, "a target was started while another was alive");
                self.memory.clear();
                self.position = 0;
                self.instruction_pointer = self.path[0];
                self.executed.clear();
                self.spawned += 1;
                self.alive = true;
                Reply::Spawned { pid: 4000 + self.spawned as i32 }
            }
            Request::Wait => self.stop(),
            Request::WriteByte { address, value } => {
                if address >= 0x8000_0000 {
                    return Reply::Failed { errno: EIO };
                }
                let displaced = self.byte(address);
                self.memory.insert(address, value);
                Reply::Written(displaced)
            }
            Request::SetInstructionPointer { address } => {
                self.instruction_pointer = address;
                Reply::Done
            }
            Request::Step => match self.execute_one() {
                Some(reply) => reply,
                None => {
                    if self.position == self.path.len() {
                        self.alive = false;
                        Reply::Waited(Status::Exited(0))
                    } else {
                        self.stop()
                    }
                }
            },
            Request::Continue => loop {
                if let Some(reply) = self.execute_one() {
                    return reply;
                }
            },
            Request::Kill => {
                self.alive = false;
                Reply::Waited(Status::Signaled(SIGKILL))
            }
            Request::ReadRegisters => Reply::Registers {
                instruction_pointer: self.instruction_pointer,
                frame_pointer: self.frame_pointer,
            },
            Request::ReadWord { address } => match self.stack.get(&address) {
                Some(word) => Reply::Word(*word),
                None => Reply::Failed { errno: EIO },
            },
        }
    }
}

/// Hands the event to the session and carries out what it asks for, until
/// it asks for a command or ends. Gives all that was reported.
fn play(debugger: &mut Debugger, target: &mut Simulated, event: Event) -> (Vec<Report>, Next) {
    let mut reports = Vec::new();
    let mut outcome = debugger.run(event);
    loop {
        if let Some(report) = outcome.report {
            reports.push(report);
        }
        match outcome.next {
            Next::Perform(request) => {
                assert_eq!(debugger.pending(), Some(request));
                let reply = target.perform(request);
                outcome = debugger.run(Event::Reply(reply));
            }
            next => {
                assert_eq!(debugger.pending(), None);
                return (reports, next);
            }
        }
    }
}

fn command(debugger: &mut Debugger, target: &mut Simulated, command: DebuggerCommand) -> Vec<Report> {
    let (reports, next) = play(debugger, target, Event::Command(command));
    assert_eq!(next, Next::AwaitCommand);
    reports
}

fn symbols() -> SymbolResolver {
    let function = |name: &str, address: usize, length: usize| Function {
        name: name.to_string(),
        address,
        length,
    };
    let line = |number: usize, address: usize| Line {
        file: "loop.c".to_string(),
        number,
        address,
    };
    SymbolResolver::new(
        vec![function("f", 0x1000, 0x20), function("g", 0x1020, 0x20), function("main", 0x1040, 0x40)],
        vec![line(2, 0x1000), line(3, 0x1008), line(7, 0x1020), line(12, 0x1040), line(13, 0x1050)],
    )
}

fn session() -> Debugger {
    Debugger::new("samples/loop", symbols())
}

fn run() -> DebuggerCommand {
    DebuggerCommand::Run(Vec::new())
}

fn breakpoint(text: &str) -> DebuggerCommand {
    DebuggerCommand::Breakpoint(text.to_string())
}

#[test]
fn a_new_session_waits_for_a_command() {
    let debugger = session();
    assert_eq!(debugger.phase(), Phase::Idle);
    assert_eq!(debugger.inferior(), Target::Absent);
    assert_eq!(debugger.pending(), None);
    assert_eq!(debugger.breakpoints().len(), 0);
    assert_eq!(debugger.target(), "samples/loop");
    assert!(debugger.arguments().is_empty());
    assert_eq!(debugger.debug_data().address_of_function("main"), Some(0x1040));
}

#[test]
fn a_breakpoint_in_a_loop_is_hit_on_every_pass() {
    let mut debugger = session();
    // main calls f twice; the body of f is two instructions.
    let mut target = Simulated::new(vec![0x1040, 0x1000, 0x1008, 0x1044, 0x1000, 0x1008, 0x1048]);
    assert_eq!(
        command(&mut debugger, &mut target, breakpoint("0x1000")),
        vec![Report::BreakpointSet { number: 0, address: 0x1000, patch_error: None }]
    );
    assert_eq!(
        command(&mut debugger, &mut target, run()),
        vec![Report::Status(Status::Stopped(SIGTRAP, 0x1000))]
    );
    assert_eq!(target.executed, vec![0x1040]);
    assert_eq!(
        debugger.inferior(),
        Target::Stopped { pid: 4001, instruction_pointer: 0x1000, at_trap: true }
    );
    assert_eq!(
        command(&mut debugger, &mut target, DebuggerCommand::Continue),
        vec![Report::Status(Status::Stopped(SIGTRAP, 0x1000))]
    );
    // Between the two stops the instruction under the breakpoint ran once.
    assert_eq!(target.executed, vec![0x1040, 0x1000, 0x1008, 0x1044]);
    assert_eq!(target.byte(0x1000), 0xcc);
    assert_eq!(
        command(&mut debugger, &mut target, DebuggerCommand::Continue),
        vec![Report::Status(Status::Exited(0))]
    );
    assert_eq!(target.executed, vec![0x1040, 0x1000, 0x1008, 0x1044, 0x1000, 0x1008, 0x1048]);
    assert_eq!(debugger.inferior(), Target::Absent);
    assert_eq!(debugger.breakpoints().original_byte_at(0x1000), None);
}

#[test]
fn stepping_over_a_breakpoint_asks_for_these_operations_in_this_order() {
    let mut debugger = session();
    let mut target = Simulated::new(vec![0x1040, 0x1000, 0x1008, 0x1044, 0x1000, 0x1008]);
    command(&mut debugger, &mut target, breakpoint("1000"));
    command(&mut debugger, &mut target, run());
    assert_eq!(debugger.breakpoints().original_byte_at(0x1000), Some(0x90));
    target.asked.clear();
    command(&mut debugger, &mut target, DebuggerCommand::Continue);
    assert_eq!(
        target.asked,
        vec![
            Request::WriteByte { address: 0x1000, value: 0x90 },
            Request::SetInstructionPointer { address: 0x1000 },
            Request::Step,
            Request::WriteByte { address: 0x1000, value: 0xcc },
            Request::Continue,
        ]
    );
}

#[test]
fn a_breakpoint_set_before_the_run_stops_the_target_in_its_function() {
    let mut debugger = session();
    let mut target = Simulated::new(vec![0x1040, 0x1000, 0x1008, 0x1044]);
    command(&mut debugger, &mut target, breakpoint("0x1000"));
    assert_eq!(debugger.breakpoints().original_byte_at(0x1000), None);
    let reports = command(&mut debugger, &mut target, run());
    assert_eq!(reports, vec![Report::Status(Status::Stopped(SIGTRAP, 0x1000))]);
    assert_eq!(debugger.debug_data().function_containing(0x1000), Some("f".to_string()));
    let text = deet::render::render_status(
        Status::Stopped(SIGTRAP, 0x1000),
        "SIGTRAP",
        debugger.debug_data(),
    );
    assert_eq!(text, "target stopped at 0x1000 by signal SIGTRAP in f (loop.c:2)");
    assert_eq!(
        command(&mut debugger, &mut target, DebuggerCommand::Continue),
        vec![Report::Status(Status::Exited(0))]
    );
}

#[test]
fn a_second_run_ends_the_first_target_before_it_starts_the_second() {
    let mut debugger = session();
    let mut target = Simulated::new(vec![0x1040, 0x1000, 0x1008, 0x1044]);
    command(&mut debugger, &mut target, breakpoint("0x1008"));
    command(&mut debugger, &mut target, run());
    assert_eq!(target.spawned, 1);
    assert!(target.alive);
    target.asked.clear();
    let reports = command(&mut debugger, &mut target, run());
    assert_eq!(
        reports,
        vec![
            Report::Status(Status::Signaled(SIGKILL)),
            Report::Status(Status::Stopped(SIGTRAP, 0x1008)),
        ]
    );
    assert_eq!(target.spawned, 2);
    assert_eq!(target.asked[0], Request::Kill);
    assert_eq!(target.asked[1], Request::Spawn);
    assert_eq!(
        debugger.inferior(),
        Target::Stopped { pid: 4002, instruction_pointer: 0x1008, at_trap: true }
    );
}

#[test]
fn a_run_hands_on_its_arguments() {
    let mut debugger = session();
    let outcome = debugger.run(Event::Command(DebuggerCommand::Run(vec![
        "one".to_string(),
        "two".to_string(),
    ])));
    assert_eq!(outcome, Outcome { report: None, next: Next::Perform(Request::Spawn) });
    assert_eq!(debugger.arguments(), &vec!["one".to_string(), "two".to_string()]);
    assert_eq!(debugger.phase(), Phase::Spawning);
}

#[test]
fn a_target_that_cannot_be_started_is_reported() {
    let mut debugger = session();
    debugger.run(Event::Command(run()));
    let outcome = debugger.run(Event::Reply(Reply::Failed { errno: 2 }));
    assert_eq!(outcome, Outcome { report: Some(Report::StartFailed), next: Next::AwaitCommand });
    assert_eq!(debugger.inferior(), Target::Absent);
}

#[test]
fn a_target_that_ends_before_its_first_stop_is_reported() {
    let mut debugger = session();
    debugger.run(Event::Command(run()));
    assert_eq!(
        debugger.run(Event::Reply(Reply::Spawned { pid: 77 })),
        Outcome { report: None, next: Next::Perform(Request::Wait) }
    );
    assert_eq!(debugger.inferior(), Target::Starting { pid: 77 });
    let outcome = debugger.run(Event::Reply(Reply::Waited(Status::Exited(127))));
    assert_eq!(outcome, Outcome { report: Some(Report::StartFailed), next: Next::AwaitCommand });
    assert_eq!(debugger.inferior(), Target::Absent);
}

#[test]
fn a_breakpoint_that_cannot_be_installed_at_the_start_is_reported_and_the_run_goes_on() {
    let mut debugger = session();
    let mut target = Simulated::new(vec![0x1040, 0x1000, 0x1008]);
    command(&mut debugger, &mut target, breakpoint("0x90000000"));
    command(&mut debugger, &mut target, breakpoint("0x1008"));
    let reports = command(&mut debugger, &mut target, run());
    assert_eq!(
        reports,
        vec![
            Report::PatchFailed { address: 0x9000_0000, errno: EIO },
            Report::Status(Status::Stopped(SIGTRAP, 0x1008)),
        ]
    );
    assert_eq!(debugger.breakpoints().original_byte_at(0x9000_0000), None);
    assert_eq!(debugger.breakpoints().original_byte_at(0x1008), Some(0x90));
}

#[test]
fn an_address_registered_twice_is_patched_once() {
    let mut debugger = session();
    let mut target = Simulated::new(vec![0x1040, 0x1000, 0x1008]);
    command(&mut debugger, &mut target, breakpoint("0x1000"));
    command(&mut debugger, &mut target, breakpoint("0x1000"));
    command(&mut debugger, &mut target, run());
    let writes: Vec<&Request> = target
        .asked
        .iter()
        .filter(|request| matches!(request, Request::WriteByte { .. }))
        .collect();
    assert_eq!(writes, vec![&Request::WriteByte { address: 0x1000, value: 0xcc }]);
    assert_eq!(
        debugger.breakpoints().get(1),
        Some(BreakpointEntry { address: 0x1000, original_byte: Some(0x90) })
    );
}

#[test]
fn a_breakpoint_set_while_the_target_is_stopped_is_patched_at_once() {
    let mut debugger = session();
    let mut target = Simulated::new(vec![0x1040, 0x1000, 0x1008, 0x1044]);
    command(&mut debugger, &mut target, breakpoint("0x1000"));
    command(&mut debugger, &mut target, run());
    target.asked.clear();
    assert_eq!(
        command(&mut debugger, &mut target, breakpoint("0x1044")),
        vec![Report::BreakpointSet { number: 1, address: 0x1044, patch_error: None }]
    );
    assert_eq!(target.asked, vec![Request::WriteByte { address: 0x1044, value: 0xcc }]);
    assert_eq!(target.byte(0x1044), 0xcc);
    assert_eq!(debugger.breakpoints().original_byte_at(0x1044), Some(0x90));
    assert_eq!(
        command(&mut debugger, &mut target, DebuggerCommand::Continue),
        vec![Report::Status(Status::Stopped(SIGTRAP, 0x1044))]
    );
}

#[test]
fn a_breakpoint_that_cannot_be_patched_is_still_registered() {
    let mut debugger = session();
    let mut target = Simulated::new(vec![0x1040, 0x1000, 0x1008, 0x1044]);
    command(&mut debugger, &mut target, breakpoint("0x1000"));
    command(&mut debugger, &mut target, run());
    assert_eq!(
        command(&mut debugger, &mut target, breakpoint("0x90000000")),
        vec![Report::BreakpointSet { number: 1, address: 0x9000_0000, patch_error: Some(EIO) }]
    );
    assert_eq!(debugger.breakpoints().len(), 2);
    assert_eq!(debugger.breakpoints().original_byte_at(0x9000_0000), None);
}

#[test]
fn a_malformed_address_registers_nothing() {
    let mut debugger = session();
    let mut target = Simulated::new(vec![0x1040]);
    assert_eq!(
        command(&mut debugger, &mut target, breakpoint("main")),
        vec![Report::InvalidAddress]
    );
    assert_eq!(
        command(&mut debugger, &mut target, breakpoint("")),
        vec![Report::InvalidAddress]
    );
    assert_eq!(debugger.breakpoints().len(), 0);
    assert!(target.asked.is_empty());
}

#[test]
fn continuing_without_a_target_is_refused() {
    let mut debugger = session();
    let mut target = Simulated::new(vec![0x1040]);
    assert_eq!(
        command(&mut debugger, &mut target, DebuggerCommand::Continue),
        vec![Report::NoActiveTarget]
    );
    assert_eq!(
        command(&mut debugger, &mut target, DebuggerCommand::BackTrace),
        vec![Report::NoActiveTarget]
    );
    assert!(target.asked.is_empty());
}

#[test]
fn continuing_after_the_target_ended_is_refused() {
    let mut debugger = session();
    let mut target = Simulated::new(vec![0x1040, 0x1044]);
    assert_eq!(
        command(&mut debugger, &mut target, run()),
        vec![Report::Status(Status::Exited(0))]
    );
    assert_eq!(
        command(&mut debugger, &mut target, DebuggerCommand::Continue),
        vec![Report::NoActiveTarget]
    );
}

#[test]
fn a_backtrace_walks_from_the_innermost_frame_to_main() {
    let mut debugger = session();
    // Stopped in f, called from g, called from main.
    let mut target = Simulated::new(vec![0x1040, 0x1020, 0x1000, 0x1008]);
    command(&mut debugger, &mut target, breakpoint("0x1008"));
    command(&mut debugger, &mut target, run());
    target.frame_pointer = 0x7000;
    target.stack.insert(0x7008, 0x1024); // return into g
    target.stack.insert(0x7000, 0x7020); // frame of g
    target.stack.insert(0x7028, 0x1044); // return into main
    target.stack.insert(0x7020, 0x7040); // frame of main
    target.stack.insert(0x7048, 0x9999); // what lies beyond must not be read
    target.stack.insert(0x7040, 0x7060);
    target.asked.clear();
    let reports = command(&mut debugger, &mut target, DebuggerCommand::BackTrace);
    assert_eq!(
        reports,
        vec![
            Report::Frame { address: 0x1008 },
            Report::Frame { address: 0x1024 },
            Report::Frame { address: 0x1044 },
        ]
    );
    let names: Vec<Option<String>> = reports
        .iter()
        .map(|report| match report {
            Report::Frame { address } => debugger.debug_data().function_containing(*address),
            _ => None,
        })
        .collect();
    assert_eq!(
        names,
        vec![Some("f".to_string()), Some("g".to_string()), Some("main".to_string())]
    );
    assert_eq!(
        target.asked,
        vec![
            Request::ReadRegisters,
            Request::ReadWord { address: 0x7008 },
            Request::ReadWord { address: 0x7000 },
            Request::ReadWord { address: 0x7028 },
            Request::ReadWord { address: 0x7020 },
        ]
    );
}

#[test]
fn a_backtrace_in_main_shows_one_frame_and_reads_no_memory() {
    let mut debugger = session();
    let mut target = Simulated::new(vec![0x1040, 0x1044]);
    command(&mut debugger, &mut target, breakpoint("0x1044"));
    command(&mut debugger, &mut target, run());
    target.frame_pointer = 0x7000;
    target.asked.clear();
    assert_eq!(
        command(&mut debugger, &mut target, DebuggerCommand::BackTrace),
        vec![Report::Frame { address: 0x1044 }]
    );
    assert_eq!(target.asked, vec![Request::ReadRegisters]);
}

#[test]
fn a_backtrace_ends_at_a_frame_pointer_of_zero_or_an_unreadable_frame() {
    let mut debugger = session();
    let mut target = Simulated::new(vec![0x1040, 0x1000, 0x1008]);
    command(&mut debugger, &mut target, breakpoint("0x1008"));
    command(&mut debugger, &mut target, run());
    target.frame_pointer = 0;
    assert_eq!(
        command(&mut debugger, &mut target, DebuggerCommand::BackTrace),
        vec![Report::Frame { address: 0x1008 }]
    );
    target.frame_pointer = 0x7000;
    assert_eq!(
        command(&mut debugger, &mut target, DebuggerCommand::BackTrace),
        vec![Report::Frame { address: 0x1008 }]
    );
    target.stack.insert(0x7008, 0x1024);
    assert_eq!(
        command(&mut debugger, &mut target, DebuggerCommand::BackTrace),
        vec![Report::Frame { address: 0x1008 }]
    );
    target.frame_pointer = usize::MAX - 3;
    assert_eq!(
        command(&mut debugger, &mut target, DebuggerCommand::BackTrace),
        vec![Report::Frame { address: 0x1008 }]
    );
}

#[test]
fn a_backtrace_of_a_stack_that_never_ends_stops_at_the_frame_limit() {
    let mut debugger = session();
    let mut target = Simulated::new(vec![0x1040, 0x1000, 0x1008]);
    command(&mut debugger, &mut target, breakpoint("0x1008"));
    command(&mut debugger, &mut target, run());
    target.frame_pointer = 0x7000;
    target.stack.insert(0x7008, 0x1004); // returns into f for ever
    target.stack.insert(0x7000, 0x7000);
    let reports = command(&mut debugger, &mut target, DebuggerCommand::BackTrace);
    assert_eq!(reports.len(), MAX_FRAMES);
    assert_eq!(reports[0], Report::Frame { address: 0x1008 });
    assert_eq!(reports[MAX_FRAMES - 1], Report::Frame { address: 0x1004 });
}

#[test]
fn quitting_ends_a_live_target_first() {
    let mut debugger = session();
    let mut target = Simulated::new(vec![0x1040, 0x1000, 0x1008]);
    command(&mut debugger, &mut target, breakpoint("0x1000"));
    command(&mut debugger, &mut target, run());
    target.asked.clear();
    let (reports, next) = play(&mut debugger, &mut target, Event::Command(DebuggerCommand::Quit));
    assert_eq!(reports, vec![Report::Status(Status::Signaled(SIGKILL))]);
    assert_eq!(next, Next::Exit);
    assert_eq!(target.asked, vec![Request::Kill]);
    assert!(!target.alive);
    assert_eq!(debugger.phase(), Phase::Finished);
    assert_eq!(debugger.inferior(), Target::Absent);
}

#[test]
fn a_target_that_stops_where_it_was_to_end_is_kept() {
    let mut debugger = session();
    let mut target = Simulated::new(vec![0x1040, 0x1000, 0x1008]);
    command(&mut debugger, &mut target, breakpoint("0x1000"));
    command(&mut debugger, &mut target, run());
    // A quit whose kill is answered with a stop: the session goes on.
    assert_eq!(
        debugger.run(Event::Command(DebuggerCommand::Quit)),
        Outcome { report: None, next: Next::Perform(Request::Kill) }
    );
    assert_eq!(
        debugger.run(Event::Reply(Reply::Waited(Status::Stopped(SIGTRAP, 0x1044)))),
        Outcome {
            report: Some(Report::Status(Status::Stopped(SIGTRAP, 0x1044))),
            next: Next::AwaitCommand
        }
    );
    assert_eq!(debugger.phase(), Phase::Idle);
    assert_eq!(
        debugger.inferior(),
        Target::Stopped { pid: 4001, instruction_pointer: 0x1044, at_trap: false }
    );
    assert_eq!(debugger.breakpoints().original_byte_at(0x1000), Some(0x90));
    // A run whose kill is answered with a stop: no second target is started.
    assert_eq!(
        debugger.run(Event::Command(run())),
        Outcome { report: None, next: Next::Perform(Request::Kill) }
    );
    assert_eq!(
        debugger.run(Event::Reply(Reply::Waited(Status::Stopped(SIGTRAP, 0x1001)))),
        Outcome {
            report: Some(Report::Status(Status::Stopped(SIGTRAP, 0x1000))),
            next: Next::AwaitCommand
        }
    );
    assert_eq!(
        debugger.inferior(),
        Target::Stopped { pid: 4001, instruction_pointer: 0x1000, at_trap: true }
    );
    // The target is still there to be ended.
    let (reports, next) = play(&mut debugger, &mut target, Event::Command(DebuggerCommand::Quit));
    assert_eq!(reports, vec![Report::Status(Status::Signaled(SIGKILL))]);
    assert_eq!(next, Next::Exit);
}

#[test]
fn quitting_without_a_target_ends_the_session_at_once() {
    let mut debugger = session();
    let mut target = Simulated::new(vec![0x1040]);
    let (reports, next) = play(&mut debugger, &mut target, Event::Command(DebuggerCommand::Quit));
    assert!(reports.is_empty());
    assert_eq!(next, Next::Exit);
    assert!(target.asked.is_empty());
}

#[test]
fn a_session_that_is_over_stays_over() {
    let mut debugger = session();
    debugger.run(Event::Command(DebuggerCommand::Quit));
    assert_eq!(
        debugger.run(Event::Command(run())),
        Outcome { report: None, next: Next::Exit }
    );
    assert_eq!(
        debugger.run(Event::Reply(Reply::Done)),
        Outcome { report: None, next: Next::Exit }
    );
    assert_eq!(debugger.phase(), Phase::Finished);
}

#[test]
fn a_reply_that_nothing_asked_for_is_unexpected() {
    let mut debugger = session();
    assert_eq!(
        debugger.run(Event::Reply(Reply::Done)),
        Outcome { report: Some(Report::Unexpected), next: Next::AwaitCommand }
    );
    debugger.run(Event::Command(run()));
    assert_eq!(
        debugger.run(Event::Command(DebuggerCommand::Continue)),
        Outcome { report: Some(Report::Unexpected), next: Next::AwaitCommand }
    );
    assert_eq!(debugger.phase(), Phase::Idle);
    debugger.run(Event::Command(run()));
    debugger.run(Event::Reply(Reply::Spawned { pid: 9 }));
    assert_eq!(
        debugger.run(Event::Reply(Reply::Word(1))),
        Outcome { report: Some(Report::Unexpected), next: Next::AwaitCommand }
    );
    assert_eq!(debugger.inferior(), Target::Absent);
}

#[test]
fn a_failed_trace_operation_is_reported_with_the_request_and_the_error() {
    let mut debugger = session();
    let mut target = Simulated::new(vec![0x1040, 0x1000, 0x1008]);
    command(&mut debugger, &mut target, breakpoint("0x1000"));
    command(&mut debugger, &mut target, run());
    assert_eq!(
        debugger.run(Event::Command(DebuggerCommand::Continue)),
        Outcome {
            report: None,
            next: Next::Perform(Request::WriteByte { address: 0x1000, value: 0x90 })
        }
    );
    assert_eq!(
        debugger.run(Event::Reply(Reply::Failed { errno: 3 })),
        Outcome {
            report: Some(Report::TraceFailed {
                request: Request::WriteByte { address: 0x1000, value: 0x90 },
                errno: 3
            }),
            next: Next::AwaitCommand
        }
    );
    // Nothing was changed: the target still stands on the trap.
    assert_eq!(
        debugger.inferior(),
        Target::Stopped { pid: 4001, instruction_pointer: 0x1000, at_trap: true }
    );
    assert_eq!(debugger.breakpoints().original_byte_at(0x1000), Some(0x90));
}

#[test]
fn a_target_that_ends_during_the_single_step_gets_no_trap_written_again() {
    let mut debugger = session();
    let mut target = Simulated::new(vec![0x1040, 0x1000]);
    command(&mut debugger, &mut target, breakpoint("0x1000"));
    command(&mut debugger, &mut target, run());
    target.asked.clear();
    assert_eq!(
        command(&mut debugger, &mut target, DebuggerCommand::Continue),
        vec![Report::Status(Status::Exited(0))]
    );
    assert_eq!(
        target.asked,
        vec![
            Request::WriteByte { address: 0x1000, value: 0x90 },
            Request::SetInstructionPointer { address: 0x1000 },
            Request::Step,
        ]
    );
    assert_eq!(debugger.breakpoints().original_byte_at(0x1000), None);
    assert_eq!(debugger.breakpoints().len(), 1);
}

#[test]
fn a_stop_elsewhere_is_shown_where_it_is() {
    let mut debugger = session();
    debugger.run(Event::Command(breakpoint("0x1000")));
    debugger.run(Event::Command(run()));
    debugger.run(Event::Reply(Reply::Spawned { pid: 12 }));
    debugger.run(Event::Reply(Reply::Waited(Status::Stopped(SIGTRAP, 0x1040))));
    debugger.run(Event::Reply(Reply::Written(0x55)));
    assert_eq!(debugger.phase(), Phase::Continuing);
    // One byte behind an address that holds no trap.
    assert_eq!(
        debugger.run(Event::Reply(Reply::Waited(Status::Stopped(11, 0x1009)))),
        Outcome {
            report: Some(Report::Status(Status::Stopped(11, 0x1009))),
            next: Next::AwaitCommand
        }
    );
    assert_eq!(
        debugger.inferior(),
        Target::Stopped { pid: 12, instruction_pointer: 0x1009, at_trap: false }
    );
    assert_eq!(
        debugger.run(Event::Command(DebuggerCommand::Continue)),
        Outcome { report: None, next: Next::Perform(Request::Continue) }
    );
    assert_eq!(
        debugger.run(Event::Reply(Reply::Waited(Status::Stopped(SIGTRAP, 0)))),
        Outcome {
            report: Some(Report::Status(Status::Stopped(SIGTRAP, 0))),
            next: Next::AwaitCommand
        }
    );
}

/// A small generator of numbers that looks random and is the same on every
/// run.
struct Dice(u64);

impl Dice {
    fn roll(&mut self, sides: u64) -> u64 {
        self.0 = self.0.wrapping_mul(6364136223846793005).wrapping_add(1442695040888963407);
        (self.0 >> 33) % sides
    }

    fn address(&mut self) -> usize {
        [0, 1, 0x1000, 0x1001, 0x1008, 0x1009, 0x1040, usize::MAX - 8, usize::MAX][self.roll(9) as usize]
    }

    fn event(&mut self) -> Event {
        match self.roll(16) {
            0 => Event::Command(DebuggerCommand::Run(Vec::new())),
            1 => Event::Command(DebuggerCommand::Continue),
            2 => Event::Command(DebuggerCommand::BackTrace),
            3 => Event::Command(DebuggerCommand::Breakpoint(format!("{:#x}", self.address()))),
            4 => Event::Command(DebuggerCommand::Breakpoint("nowhere".to_string())),
            5 => Event::Reply(Reply::Spawned { pid: 1 + self.roll(5) as i32 }),
            6 => Event::Reply(Reply::Written(self.roll(256) as u8)),
            7 => Event::Reply(Reply::Done),
            8 => Event::Reply(Reply::Waited(Status::Stopped(SIGTRAP, self.address()))),
            9 => Event::Reply(Reply::Waited(Status::Exited(self.roll(3) as i32))),
            10 => Event::Reply(Reply::Waited(Status::Signaled(SIGKILL))),
            11 => Event::Reply(Reply::Registers {
                instruction_pointer: self.address(),
                frame_pointer: self.address(),
            }),
            12 => Event::Reply(Reply::Word(self.address())),
            13 => Event::Reply(Reply::Failed { errno: EIO }),
            _ => Event::Reply(Reply::Waited(Status::Stopped(SIGTRAP, self.address()))),
        }
    }
}

#[test]
fn whatever_happens_the_session_stays_in_order() {
    for seed in 0..200 {
        let mut dice = Dice(seed);
        let mut debugger = session();
        let mut registered = 0;
        for _ in 0..400 {
            let event = dice.event();
            let outcome = debugger.run(event);
            // What the session says comes next is what it waits for.
            match outcome.next {
                Next::Perform(request) => assert_eq!(debugger.pending(), Some(request)),
                Next::AwaitCommand => {
                    assert_eq!(debugger.pending(), None);
                    assert_eq!(debugger.phase(), Phase::Idle);
                }
                Next::Exit => unreachable!("no event of these ends the session"),
            }
            // Breakpoints are never lost and never renumbered.
            let table = debugger.breakpoints();
            assert!(table.len() >= registered);
            registered = table.len();
            // Patches exist only in the memory of a suspended target.
            if !matches!(debugger.inferior(), Target::Stopped { .. }) {
                for address in table.addresses() {
                    assert_eq!(table.original_byte_at(address), None);
                }
            }
            // Entries at one address agree on their patch.
            for number in 0..table.len() {
                let entry = table.get(number).unwrap();
                assert_eq!(table.original_byte_at(entry.address), entry.original_byte);
            }
            // A target that stands on a trap stands on a registered breakpoint.
            if let Target::Stopped { instruction_pointer, at_trap: true, .. } = debugger.inferior() {
                assert!(table.number_at(instruction_pointer).is_some());
            }
        }
    }
}
