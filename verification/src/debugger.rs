//! The debugger session in executable form.

use vstd::prelude::*;
use vstd::string::*;
use crate::address::{address_of, parse_address};
use crate::breakpoints::{BreakpointTable, TRAP_OPCODE};
use crate::protocol::{
    arguments_of, DebuggerCommand, Event, EventSpec, Next, Outcome, Reply, Report, Request,
    Status,
};
use crate::inferior::{Inferior, ESRCH};
use crate::laws::law_reply_spends_budget;
use crate::session;
use crate::session::{Phase, Session, Target};
use crate::stack::{MAX_FRAMES, WORD_SIZE};
use crate::symbols::SymbolResolver;

verus! {

/// One debugging session on one target executable: the registered
/// breakpoints, the target's symbols, and at most one traced process.
pub struct Debugger {
    target: String,
    debug_data: SymbolResolver,
    breakpoints: BreakpointTable,
    inferior: Target,
    phase: Phase,
    pending: Option<Request>,
    arguments: Vec<String>,
}

impl View for Debugger {
    type V = Session;

    closed spec fn view(&self) -> Session {
        Session {
            breakpoints: self.breakpoints@,
            symbols: self.debug_data@,
            target: self.inferior,
            phase: self.phase,
            pending: self.pending,
            arguments: arguments_of(self.arguments@),
        }
    }
}

impl Debugger {
    /// The session's invariant.
    pub open spec fn wf(&self) -> bool {
        session::valid(self@)
    }

    /// The path of the target executable.
    pub closed spec fn target_path(&self) -> Seq<char> {
        self.target@
    }

    /// A session on `target` with the symbols read from it: no breakpoint,
    /// no process, ready for the first command.
    pub fn new(target: &str, debug_data: SymbolResolver) -> (debugger: Debugger)
        ensures
            debugger.wf(),
            debugger.target_path() == target@,
            debugger@ == (Session {
                breakpoints: Seq::empty(),
                symbols: debug_data@,
                target: Target::Absent,
                phase: Phase::Idle,
                pending: None,
                arguments: Seq::empty(),
            }),
    {
        let debugger = Debugger {
            target: String::from_str(target),
            debug_data,
            breakpoints: BreakpointTable::new(),
            inferior: Target::Absent,
            phase: Phase::Idle,
            pending: None,
            arguments: Vec::new(),
        };
        assert(debugger@.arguments =~= Seq::empty());
        debugger
    }

    /// Parses the address text of a breakpoint command.
    pub fn parse_addr(addr: &str) -> (address: Option<usize>)
        ensures
            address == address_of(addr@),
    {
        parse_address(addr)
    }

    /// The path of the target executable.
    pub fn target(&self) -> (path: &String)
        ensures
            path@ == self.target_path(),
    {
        &self.target
    }

    /// The arguments of the latest run.
    pub fn arguments(&self) -> (args: &Vec<String>)
        ensures
            arguments_of(args@) == self@.arguments,
    {
        &self.arguments
    }

    /// The traced process, as the session knows it.
    pub fn inferior(&self) -> (target: Target)
        ensures
            target == self@.target,
    {
        self.inferior
    }

    /// What the session is in the middle of.
    pub fn phase(&self) -> (phase: Phase)
        ensures
            phase == self@.phase,
    {
        self.phase
    }

    /// The request whose reply the session waits for.
    pub fn pending(&self) -> (request: Option<Request>)
        ensures
            request == self@.pending,
    {
        self.pending
    }

    /// The registered breakpoints.
    pub fn breakpoints(&self) -> (table: &BreakpointTable)
        ensures
            table@ == self@.breakpoints,
    {
        &self.breakpoints
    }

    /// The target's symbols.
    pub fn debug_data(&self) -> (resolver: &SymbolResolver)
        ensures
            resolver@ == self@.symbols,
    {
        &self.debug_data
    }

    fn perform(&mut self, phase: Phase, request: Request, report: Option<Report>) -> (outcome:
        Outcome)
        ensures
            (final(self)@, outcome) == session::perform(old(self)@, phase, request, report),
            final(self).target_path() == old(self).target_path(),
    {
        self.phase = phase;
        self.pending = Some(request);
        Outcome { report, next: Next::Perform(request) }
    }

    fn settle(&mut self, report: Option<Report>) -> (outcome: Outcome)
        ensures
            (final(self)@, outcome) == session::settle(old(self)@, report),
            final(self).target_path() == old(self).target_path(),
    {
        self.phase = Phase::Idle;
        self.pending = None;
        Outcome { report, next: Next::AwaitCommand }
    }

    fn finish(&mut self, report: Option<Report>) -> (outcome: Outcome)
        ensures
            (final(self)@, outcome) == session::finish(old(self)@, report),
            final(self).target_path() == old(self).target_path(),
    {
        self.phase = Phase::Finished;
        self.pending = None;
        Outcome { report, next: Next::Exit }
    }

    fn drop_target(&mut self)
        ensures
            final(self)@ == session::without_target(old(self)@),
            final(self).target_path() == old(self).target_path(),
    {
        self.inferior = Target::Absent;
        self.breakpoints.clear_patches();
    }

    fn pid(&self) -> (pid: i32)
        ensures
            pid == session::pid_of(self@.target),
    {
        match self.inferior {
            Target::Absent => 0,
            Target::Starting { pid } => pid,
            Target::Stopped { pid, .. } => pid,
        }
    }

    fn is_stopped(&self) -> (stopped: bool)
        ensures
            stopped == (self@.target is Stopped),
    {
        match self.inferior {
            Target::Stopped { .. } => true,
            _ => false,
        }
    }

    fn failure(&self, errno: i32) -> (report: Option<Report>)
        ensures
            report == session::failure(self@, errno),
    {
        match self.pending {
            Some(request) => Some(Report::TraceFailed { request, errno }),
            None => Some(Report::Unexpected),
        }
    }

    fn abandon(&mut self) -> (outcome: Outcome)
        ensures
            (final(self)@, outcome) == session::abandon(old(self)@),
            final(self).target_path() == old(self).target_path(),
    {
        match self.inferior {
            Target::Starting { .. } => {
                self.drop_target();
            },
            _ => {},
        }
        self.settle(Some(Report::Unexpected))
    }

    fn fail(&mut self, errno: i32) -> (outcome: Outcome)
        ensures
            (final(self)@, outcome) == session::settle(
                old(self)@,
                session::failure(old(self)@, errno),
            ),
            final(self).target_path() == old(self).target_path(),
    {
        let report = self.failure(errno);
        self.settle(report)
    }

    fn install_from(&mut self, from: usize, report: Option<Report>) -> (outcome: Outcome)
        ensures
            (final(self)@, outcome) == session::install_from(old(self)@, from as int, report),
            final(self).target_path() == old(self).target_path(),
    {
        let mut k: usize = from;
        while k < self.breakpoints.len()
            invariant
                from <= k,
                *self == *old(self),
                session::next_unpatched(self@.breakpoints, k as int) == session::next_unpatched(
                    self@.breakpoints,
                    from as int,
                ),
            decreases self.breakpoints@.len() - k,
        {
            let address = match self.breakpoints.get(k) {
                Some(entry) => entry.address,
                None => 0,
            };
            if self.breakpoints.original_byte_at(address).is_none() {
                return self.perform(
                    Phase::Installing { number: k, address },
                    Request::WriteByte { address, value: TRAP_OPCODE },
                    report,
                );
            }
            k += 1;
        }
        self.perform(Phase::Continuing, Request::Continue, report)
    }

    fn begin_resume(&mut self) -> (outcome: Outcome)
        ensures
            (final(self)@, outcome) == session::begin_resume(old(self)@),
            final(self).target_path() == old(self).target_path(),
    {
        match self.inferior {
            Target::Stopped { instruction_pointer, at_trap, .. } => {
                if at_trap {
                    match self.breakpoints.original_byte_at(instruction_pointer) {
                        Some(byte) => self.perform(
                            Phase::Restoring { address: instruction_pointer },
                            Request::WriteByte { address: instruction_pointer, value: byte },
                            None,
                        ),
                        None => self.perform(
                            Phase::Rewinding { address: instruction_pointer },
                            Request::SetInstructionPointer { address: instruction_pointer },
                            None,
                        ),
                    }
                } else {
                    self.perform(Phase::Continuing, Request::Continue, None)
                }
            },
            _ => self.settle(Some(Report::NoActiveTarget)),
        }
    }

    fn observe(&mut self, status: Status) -> (outcome: Outcome)
        ensures
            (final(self)@, outcome) == session::observe(old(self)@, status),
            final(self).target_path() == old(self).target_path(),
    {
        match status {
            Status::Stopped(signal, instruction_pointer) => {
                let at_trap = instruction_pointer >= 1 && self.breakpoints.original_byte_at(
                    instruction_pointer - 1,
                ).is_some();
                let shown = if at_trap {
                    instruction_pointer - 1
                } else {
                    instruction_pointer
                };
                self.inferior =
                Target::Stopped { pid: self.pid(), instruction_pointer: shown, at_trap };
                self.settle(Some(Report::Status(Status::Stopped(signal, shown))))
            },
            _ => {
                self.drop_target();
                self.settle(Some(Report::Status(status)))
            },
        }
    }

    fn in_main(&self, address: usize) -> (found: bool)
        ensures
            found == crate::stack::in_main(self@.symbols, address),
    {
        match self.debug_data.function_containing(address) {
            Some(name) => {
                let main = String::from_str("main");
                name == main
            },
            None => false,
        }
    }

    fn walk(&mut self, instruction_pointer: usize, frame_pointer: usize, depth: usize) -> (outcome:
        Outcome)
        requires
            depth < MAX_FRAMES,
        ensures
            (final(self)@, outcome) == session::walk(
                old(self)@,
                instruction_pointer,
                frame_pointer,
                depth,
            ),
            final(self).target_path() == old(self).target_path(),
    {
        let frame = Some(Report::Frame { address: instruction_pointer });
        if self.in_main(instruction_pointer) || frame_pointer == 0 || depth + 1 >= MAX_FRAMES
            || frame_pointer > usize::MAX - WORD_SIZE {
            self.settle(frame)
        } else {
            self.perform(
                Phase::ReadingReturn { frame_pointer, depth },
                Request::ReadWord { address: frame_pointer + WORD_SIZE },
                frame,
            )
        }
    }

    fn on_command(&mut self, command: DebuggerCommand) -> (outcome: Outcome)
        requires
            old(self).wf(),
        ensures
            (final(self)@, outcome) == session::on_command(old(self)@, command@),
            final(self).target_path() == old(self).target_path(),
    {
        match command {
            DebuggerCommand::Run(arguments) => {
                self.arguments = arguments;
                if self.is_stopped() {
                    self.perform(Phase::Replacing, Request::Kill, None)
                } else {
                    self.perform(Phase::Spawning, Request::Spawn, None)
                }
            },
            DebuggerCommand::Continue => self.begin_resume(),
            DebuggerCommand::BackTrace => {
                if self.is_stopped() {
                    self.perform(Phase::Inspecting, Request::ReadRegisters, None)
                } else {
                    self.settle(Some(Report::NoActiveTarget))
                }
            },
            DebuggerCommand::Breakpoint(text) => {
                match parse_address(text.as_str()) {
                    None => self.settle(Some(Report::InvalidAddress)),
                    Some(address) => {
                        let patched = self.breakpoints.original_byte_at(address).is_some();
                        let number = self.breakpoints.register(address);
                        if self.is_stopped() && !patched {
                            self.perform(
                                Phase::Patching { number, address },
                                Request::WriteByte { address, value: TRAP_OPCODE },
                                None,
                            )
                        } else {
                            self.settle(
                                Some(Report::BreakpointSet { number, address, patch_error: None }),
                            )
                        }
                    },
                }
            },
            DebuggerCommand::Quit => {
                if self.is_stopped() {
                    self.perform(Phase::Quitting, Request::Kill, None)
                } else {
                    self.finish(None)
                }
            },
        }
    }

    fn on_reply(&mut self, reply: Reply) -> (outcome: Outcome)
        requires
            old(self).wf(),
        ensures
            (final(self)@, outcome) == session::on_reply(old(self)@, reply),
            final(self).target_path() == old(self).target_path(),
    {
        match self.phase {
            Phase::Replacing => match reply {
                Reply::Waited(Status::Stopped(signal, instruction_pointer)) => self.observe(
                    Status::Stopped(signal, instruction_pointer),
                ),
                Reply::Waited(status) => {
                    self.drop_target();
                    self.perform(Phase::Spawning, Request::Spawn, Some(Report::Status(status)))
                },
                Reply::Failed { errno } => {
                    let report = self.failure(errno);
                    self.drop_target();
                    self.perform(Phase::Spawning, Request::Spawn, report)
                },
                _ => self.abandon(),
            },
            Phase::Spawning => match reply {
                Reply::Spawned { pid } => {
                    self.inferior = Target::Starting { pid };
                    self.perform(Phase::Starting, Request::Wait, None)
                },
                Reply::Failed { .. } => self.settle(Some(Report::StartFailed)),
                _ => self.abandon(),
            },
            Phase::Starting => match reply {
                Reply::Waited(Status::Stopped(_, instruction_pointer)) => {
                    self.inferior =
                    Target::Stopped { pid: self.pid(), instruction_pointer, at_trap: false };
                    self.install_from(0, None)
                },
                Reply::Waited(_) => {
                    self.drop_target();
                    self.settle(Some(Report::StartFailed))
                },
                Reply::Failed { .. } => {
                    self.drop_target();
                    self.settle(Some(Report::StartFailed))
                },
                _ => self.abandon(),
            },
            Phase::Installing { number, address } => match reply {
                Reply::Written(byte) => {
                    proof {
                        self.breakpoints.lemma_numbers_fit();
                    }
                    self.breakpoints.mark_installed(address, byte);
                    self.install_from(number + 1, None)
                },
                Reply::Failed { errno } => {
                    proof {
                        self.breakpoints.lemma_numbers_fit();
                    }
                    self.install_from(number + 1, Some(Report::PatchFailed { address, errno }))
                },
                _ => self.abandon(),
            },
            Phase::Restoring { address } => match reply {
                Reply::Written(_) => {
                    self.breakpoints.mark_removed(address);
                    self.perform(
                        Phase::Rewinding { address },
                        Request::SetInstructionPointer { address },
                        None,
                    )
                },
                Reply::Failed { errno } => self.fail(errno),
                _ => self.abandon(),
            },
            Phase::Rewinding { address } => match reply {
                Reply::Done => {
                    self.inferior =
                    Target::Stopped {
                        pid: self.pid(),
                        instruction_pointer: address,
                        at_trap: false,
                    };
                    self.perform(Phase::Stepping { address }, Request::Step, None)
                },
                Reply::Failed { errno } => self.fail(errno),
                _ => self.abandon(),
            },
            Phase::Stepping { address } => match reply {
                Reply::Waited(Status::Stopped(_, instruction_pointer)) => {
                    self.inferior =
                    Target::Stopped { pid: self.pid(), instruction_pointer, at_trap: false };
                    self.perform(
                        Phase::Reinstalling { address },
                        Request::WriteByte { address, value: TRAP_OPCODE },
                        None,
                    )
                },
                Reply::Waited(status) => {
                    self.drop_target();
                    self.settle(Some(Report::Status(status)))
                },
                Reply::Failed { errno } => self.fail(errno),
                _ => self.abandon(),
            },
            Phase::Reinstalling { address } => match reply {
                Reply::Written(byte) => {
                    self.breakpoints.mark_installed(address, byte);
                    self.perform(Phase::Continuing, Request::Continue, None)
                },
                Reply::Failed { errno } => self.perform(
                    Phase::Continuing,
                    Request::Continue,
                    Some(Report::PatchFailed { address, errno }),
                ),
                _ => self.abandon(),
            },
            Phase::Continuing => match reply {
                Reply::Waited(status) => self.observe(status),
                Reply::Failed { errno } => self.fail(errno),
                _ => self.abandon(),
            },
            Phase::Patching { number, address } => match reply {
                Reply::Written(byte) => {
                    self.breakpoints.mark_installed(address, byte);
                    self.settle(Some(Report::BreakpointSet { number, address, patch_error: None }))
                },
                Reply::Failed { errno } => self.settle(
                    Some(Report::BreakpointSet { number, address, patch_error: Some(errno) }),
                ),
                _ => self.abandon(),
            },
            Phase::Inspecting => match reply {
                Reply::Registers { frame_pointer, .. } => {
                    let shown = match self.inferior {
                        Target::Stopped { instruction_pointer, .. } => instruction_pointer,
                        _ => 0,
                    };
                    self.walk(shown, frame_pointer, 0)
                },
                Reply::Failed { errno } => self.fail(errno),
                _ => self.abandon(),
            },
            Phase::ReadingReturn { frame_pointer, depth } => match reply {
                Reply::Word(word) => self.perform(
                    Phase::ReadingFrame { frame_pointer, return_address: word, depth },
                    Request::ReadWord { address: frame_pointer },
                    None,
                ),
                Reply::Failed { .. } => self.settle(None),
                _ => self.abandon(),
            },
            Phase::ReadingFrame { return_address, depth, .. } => match reply {
                Reply::Word(word) => self.walk(return_address, word, depth + 1),
                Reply::Failed { .. } => self.settle(None),
                _ => self.abandon(),
            },
            Phase::Quitting => match reply {
                Reply::Waited(Status::Stopped(signal, instruction_pointer)) => self.observe(
                    Status::Stopped(signal, instruction_pointer),
                ),
                Reply::Waited(status) => {
                    self.drop_target();
                    self.finish(Some(Report::Status(status)))
                },
                Reply::Failed { errno } => {
                    let report = self.failure(errno);
                    self.drop_target();
                    self.finish(report)
                },
                _ => self.abandon(),
            },
            _ => match reply {
                Reply::Failed { errno } => self.fail(errno),
                _ => self.abandon(),
            },
        }
    }

    /// One turn of the command loop: takes what happened, a command of the
    /// user or the reply to the request that the session last asked for, and
    /// says what to tell the user and what to do next.
    pub fn run(&mut self, event: Event) -> (outcome: Outcome)
        requires
            old(self).wf(),
        ensures
            final(self).wf(),
            (final(self)@, outcome) == session::react(old(self)@, event@),
            final(self).target_path() == old(self).target_path(),
    {
        let ghost before = self@;
        let ghost happened = event@;
        let outcome = match self.phase {
            Phase::Finished => Outcome { report: None, next: Next::Exit },
            Phase::Idle => match event {
                Event::Command(command) => self.on_command(command),
                Event::Reply(_) => self.abandon(),
            },
            _ => match event {
                Event::Reply(reply) => self.on_reply(reply),
                Event::Command(_) => self.abandon(),
            },
        };
        proof {
            reveal(session::react);
            self.breakpoints.lemma_numbers_fit();
            session::lemma_react_keeps_valid(before, happened);
        }
        outcome
    }

    /// Handles one event on the live process: takes the event as `run`
    /// does and then carries out, through the operating system's trace
    /// facility, every request that the session makes, handing each reply
    /// back in, until the session asks for a command or for a new target,
    /// or ends. Gives all that was reported on the way, in order, and what
    /// the session waits for at the end. Where the session holds no process
    /// that an identifier can name, nothing is asked of the system: the
    /// request is answered with `Failed { errno: ESRCH }`.
    pub fn drive(&mut self, event: Event) -> (progress: (Vec<Report>, Next))
        requires
            old(self).wf(),
        ensures
            final(self).wf(),
            final(self).target_path() == old(self).target_path(),
            progress.1 == session::expects(final(self)@),
            progress.1 is Perform ==> progress.1 == Next::Perform(Request::Spawn),
            session::reaches(old(self)@, event@, final(self)@, progress.0@),
    {
        let ghost opening_from = self@;
        let ghost opening_event = event@;
        let ghost opening = session::react(self@, event@);
        proof {
            session::lemma_react_tells_next(self@, event@);
        }
        let outcome = self.run(event);
        let mut reports: Vec<Report> = Vec::new();
        match outcome.report {
            Some(report) => {
                reports.push(report);
            },
            None => {},
        }
        let mut next = outcome.next;
        let mut request = mine(next);
        let ghost mut replies: Seq<Reply> = Seq::empty();
        assert(reports@ =~= session::said(outcome.report) + session::replay(
            opening.0,
            replies,
        ).1);
        while request.is_some()
            invariant
                self.wf(),
                self.target_path() == old(self).target_path(),
                next == session::expects(self@),
                request == mine_spec(next),
                opening == session::react(opening_from, opening_event),
                session::answered(opening.0, replies),
                self@ == session::replay(opening.0, replies).0,
                reports@ == session::said(opening.1.report) + session::replay(
                    opening.0,
                    replies,
                ).1,
            decreases
                    if request is Some {
                        session::budget(self@) + 1
                    } else {
                        0
                    },
        {
            let wanted = request.unwrap();
            let process = match self.inferior {
                Target::Absent => None,
                Target::Starting { pid } => Inferior::new(pid),
                Target::Stopped { pid, .. } => Inferior::suspended(pid),
            };
            let reply = match process {
                Some(mut process) => process.perform(wanted),
                None => Reply::Failed { errno: ESRCH },
            };
            proof {
                law_reply_spends_budget(self@, reply);
                session::lemma_react_tells_next(self@, EventSpec::Reply(reply));
                assert(replies.push(reply).drop_last() =~= replies);
                assert(reports@ + session::said(
                    session::react(self@, EventSpec::Reply(reply)).1.report,
                ) =~= session::said(opening.1.report) + (session::replay(opening.0, replies).1
                    + session::said(
                    session::react(self@, EventSpec::Reply(reply)).1.report,
                )));
                replies = replies.push(reply);
            }
            let ghost before = reports@;
            let outcome = self.run(Event::Reply(reply));
            match outcome.report {
                Some(report) => {
                    reports.push(report);
                },
                None => {},
            }
            assert(reports@ =~= before + session::said(outcome.report));
            next = outcome.next;
            request = mine(next);
        }
        assert(session::driven(opening_from, opening_event, replies, self@, reports@));
        (reports, next)
    }
}

/// The request in `next` that is carried out on the live process: any but
/// the start of a new target.
pub open spec fn mine_spec(next: Next) -> Option<Request> {
    match next {
        Next::Perform(Request::Spawn) => None,
        Next::Perform(request) => Some(request),
        _ => None,
    }
}

fn mine(next: Next) -> (request: Option<Request>)
    ensures
        request == mine_spec(next),
{
    match next {
        Next::Perform(Request::Spawn) => None,
        Next::Perform(request) => Some(request),
        _ => None,
    }
}

} // verus!
