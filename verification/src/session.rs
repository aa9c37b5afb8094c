//! The session as a transition system: what the debugger holds between two
//! events, and how a command or the reply to a request changes it.
//!
//! The session never touches the traced process itself. Each turn it says
//! which operation it wants carried out next, and the reply comes back as the
//! following event. A software breakpoint is the trap opcode written over
//! the first byte of an instruction; the session keeps the displaced byte and
//! puts it back for exactly one single step whenever the target is resumed
//! from the trap.

use vstd::prelude::*;
use crate::address::address_of;
use crate::breakpoints::{
    consistent, lemma_original_at, lemma_patch_reads_back, original_at, registered, unpatched,
    with_patch, without_patches, BreakpointEntry, TRAP_OPCODE,
};
use crate::protocol::{CommandSpec, EventSpec, Next, Outcome, Reply, Report, Request, Status};
use crate::stack::{walk_ends, MAX_FRAMES, WORD_SIZE};
use crate::symbols::SymbolTables;

verus! {

/// The traced process, as far as the session knows it.
#[derive(Clone, Copy, Debug, PartialEq, Eq)]
pub enum Target {
    /// No process: none was started yet, or the last one is gone.
    Absent,
    /// A process was spawned and has not reported its first stop.
    Starting { pid: i32 },
    /// The process is suspended. `instruction_pointer` is the address shown
    /// to the user; with `at_trap` it is the address of the breakpoint that
    /// stopped the process, whose trap has just been executed.
    Stopped { pid: i32, instruction_pointer: usize, at_trap: bool },
}

/// What the session is in the middle of.
#[derive(Clone, Copy, Debug, PartialEq, Eq)]
pub enum Phase {
    /// Between two commands.
    Idle,
    /// Killing the old target before a new run.
    Replacing,
    /// Waiting for the new target to be spawned.
    Spawning,
    /// Waiting for the new target's first stop.
    Starting,
    /// Installing the registered breakpoint `number` in the new target.
    Installing { number: usize, address: usize },
    /// Putting the original byte back at the breakpoint just hit.
    Restoring { address: usize },
    /// Moving the instruction pointer back onto the restored instruction.
    Rewinding { address: usize },
    /// Executing the restored instruction, alone.
    Stepping { address: usize },
    /// Writing the trap again behind the instruction pointer.
    Reinstalling { address: usize },
    /// The target runs freely.
    Continuing,
    /// Installing the breakpoint just registered in the live target.
    Patching { number: usize, address: usize },
    /// Reading the registers for a backtrace.
    Inspecting,
    /// Reading the return address saved in the frame at `frame_pointer`.
    ReadingReturn { frame_pointer: usize, depth: usize },
    /// Reading the caller's frame pointer saved at `frame_pointer`.
    ReadingFrame { frame_pointer: usize, return_address: usize, depth: usize },
    /// Killing the target before the session ends.
    Quitting,
    /// The session is over.
    Finished,
}

/// All that the session holds, as plain values.
pub struct Session {
    pub breakpoints: Seq<BreakpointEntry>,
    pub symbols: SymbolTables,
    pub target: Target,
    pub phase: Phase,
    pub pending: Option<Request>,
    pub arguments: Seq<Seq<char>>,
}

/// The error number that answers a request where there is no process to
/// carry it out on.
pub const NO_PROCESS: i32 = 3;

/// The process identifier of a target, zero where there is none.
pub open spec fn pid_of(target: Target) -> i32 {
    match target {
        Target::Absent => 0,
        Target::Starting { pid } => pid,
        Target::Stopped { pid, .. } => pid,
    }
}

/// The address shown for a target, zero where it is not suspended.
pub open spec fn shown_address(target: Target) -> usize {
    match target {
        Target::Stopped { instruction_pointer, .. } => instruction_pointer,
        _ => 0,
    }
}

/// In `phase` the session waits for the reply to `request`.
pub open spec fn awaits(phase: Phase, request: Request) -> bool {
    match phase {
        Phase::Idle => false,
        Phase::Finished => false,
        Phase::Replacing => request == Request::Kill,
        Phase::Quitting => request == Request::Kill,
        Phase::Spawning => request == Request::Spawn,
        Phase::Starting => request == Request::Wait,
        Phase::Installing { address, .. } => request == (Request::WriteByte {
            address,
            value: TRAP_OPCODE,
        }),
        Phase::Restoring { address } => request is WriteByte && request->WriteByte_address
            == address,
        Phase::Rewinding { address } => request == (Request::SetInstructionPointer { address }),
        Phase::Stepping { .. } => request == Request::Step,
        Phase::Reinstalling { address } => request == (Request::WriteByte {
            address,
            value: TRAP_OPCODE,
        }),
        Phase::Continuing => request == Request::Continue,
        Phase::Patching { address, .. } => request == (Request::WriteByte {
            address,
            value: TRAP_OPCODE,
        }),
        Phase::Inspecting => request == Request::ReadRegisters,
        Phase::ReadingReturn { frame_pointer, .. } => frame_pointer + WORD_SIZE <= usize::MAX
            && request == (Request::ReadWord { address: (frame_pointer + WORD_SIZE) as usize }),
        Phase::ReadingFrame { frame_pointer, .. } => request == (Request::ReadWord {
            address: frame_pointer,
        }),
    }
}

/// `reply` is an answer to `request`: its own kind of success, or a failure.
pub open spec fn fits(request: Request, reply: Reply) -> bool {
    reply is Failed || match request {
        Request::Spawn => reply is Spawned,
        Request::Wait => reply is Waited,
        Request::Step => reply is Waited,
        Request::Continue => reply is Waited,
        Request::Kill => reply is Waited,
        Request::WriteByte { .. } => reply is Written,
        Request::SetInstructionPointer { .. } => reply is Done,
        Request::ReadRegisters => reply is Registers,
        Request::ReadWord { .. } => reply is Word,
    }
}

/// How many more trace operations the session may ask for, at most, after
/// the one it waits on, before it turns to the user or to a new target.
pub open spec fn budget(m: Session) -> nat {
    match m.phase {
        Phase::Restoring { .. } => 4,
        Phase::Rewinding { .. } => 3,
        Phase::Stepping { .. } => 2,
        Phase::Reinstalling { .. } => 1,
        Phase::Spawning => m.breakpoints.len() + 2,
        Phase::Starting => m.breakpoints.len() + 1,
        Phase::Installing { number, .. } => (m.breakpoints.len() - number) as nat,
        Phase::Inspecting => (2 * MAX_FRAMES + 1) as nat,
        Phase::ReadingReturn { depth, .. } => (2 * (MAX_FRAMES - depth)) as nat,
        Phase::ReadingFrame { depth, .. } => (2 * (MAX_FRAMES - depth) - 1) as nat,
        _ => 0,
    }
}

/// The session's invariant: the registry is consistent and its numbers fit
/// a machine word, patches exist only in the memory of a suspended target,
/// and the phase fits the target and the pending request.
pub open spec fn valid(m: Session) -> bool {
    &&& consistent(m.breakpoints)
    &&& m.breakpoints.len() <= usize::MAX
    &&& (m.target is Stopped || unpatched(m.breakpoints))
    &&& (m.target is Stopped && m.target->Stopped_at_trap ==> registered(
        m.breakpoints,
        shown_address(m.target),
    ))
    &&& match m.pending {
        Some(request) => awaits(m.phase, request),
        None => m.phase is Idle || m.phase is Finished,
    }
    &&& match m.phase {
        Phase::Idle => !(m.target is Starting),
        Phase::Finished => m.target is Absent,
        Phase::Spawning => m.target is Absent,
        Phase::Starting => m.target is Starting,
        Phase::ReadingReturn { frame_pointer, depth } => m.target is Stopped && depth + 1
            < MAX_FRAMES,
        Phase::ReadingFrame { depth, .. } => m.target is Stopped && depth + 1 < MAX_FRAMES,
        Phase::Installing { number, address } => m.target is Stopped && being_patched(
            m.breakpoints,
            number,
            address,
        ),
        Phase::Patching { number, address } => m.target is Stopped && being_patched(
            m.breakpoints,
            number,
            address,
        ),
        Phase::Restoring { address } => {
            &&& m.target is Stopped
            &&& original_at(m.breakpoints, address) is Some
            &&& m.pending == Some(
                Request::WriteByte { address, value: original_at(m.breakpoints, address)->0 },
            )
        },
        Phase::Rewinding { address } => m.target is Stopped && laid_bare(m.breakpoints, address),
        Phase::Stepping { address } => m.target is Stopped && laid_bare(m.breakpoints, address),
        Phase::Reinstalling { address } => m.target is Stopped && laid_bare(
            m.breakpoints,
            address,
        ),
        _ => m.target is Stopped,
    }
}

/// The breakpoint `number` is at `address`, where no trap is installed yet.
pub open spec fn being_patched(s: Seq<BreakpointEntry>, number: usize, address: usize) -> bool {
    &&& number < s.len()
    &&& s[number as int].address == address
    &&& original_at(s, address) is None
}

/// `address` is a breakpoint's, and the original instruction stands there.
pub open spec fn laid_bare(s: Seq<BreakpointEntry>, address: usize) -> bool {
    registered(s, address) && original_at(s, address) is None
}

/// The session goes on with `request`.
pub open spec fn perform(m: Session, phase: Phase, request: Request, report: Option<Report>) -> (
    Session,
    Outcome,
) {
    (
        Session { phase, pending: Some(request), ..m },
        Outcome { report, next: Next::Perform(request) },
    )
}

/// The command is dealt with.
pub open spec fn settle(m: Session, report: Option<Report>) -> (Session, Outcome) {
    (
        Session { phase: Phase::Idle, pending: None, ..m },
        Outcome { report, next: Next::AwaitCommand },
    )
}

/// Whatever the session was doing is given up, and so is a target that has
/// not yet reported its first stop.
pub open spec fn abandon(m: Session) -> (Session, Outcome) {
    if m.target is Starting {
        settle(without_target(m), Some(Report::Unexpected))
    } else {
        settle(m, Some(Report::Unexpected))
    }
}

/// The session ends.
pub open spec fn finish(m: Session, report: Option<Report>) -> (Session, Outcome) {
    (
        Session { phase: Phase::Finished, pending: None, ..m },
        Outcome { report, next: Next::Exit },
    )
}

/// The session once its target is gone: no patch outlives the memory it
/// was made in.
pub open spec fn without_target(m: Session) -> Session {
    Session { target: Target::Absent, breakpoints: without_patches(m.breakpoints), ..m }
}

/// The number of the first breakpoint from `from` on at whose address no
/// trap is installed.
pub open spec fn next_unpatched(s: Seq<BreakpointEntry>, from: int) -> Option<int>
    decreases s.len() - from,
{
    if from < 0 || from >= s.len() {
        None
    } else if original_at(s, s[from].address) is None {
        Some(from)
    } else {
        next_unpatched(s, from + 1)
    }
}

/// Installing goes on with the breakpoints from `from` on; when none is
/// left, the target is let run.
pub open spec fn install_from(m: Session, from: int, report: Option<Report>) -> (
    Session,
    Outcome,
) {
    match next_unpatched(m.breakpoints, from) {
        Some(k) => perform(
            m,
            Phase::Installing { number: k as usize, address: m.breakpoints[k].address },
            Request::WriteByte { address: m.breakpoints[k].address, value: TRAP_OPCODE },
            report,
        ),
        None => perform(m, Phase::Continuing, Request::Continue, report),
    }
}

/// Resuming begins. From a trap the original instruction is restored first,
/// or, where it stands already, the instruction pointer is moved back onto
/// it; otherwise the target is let run at once.
pub open spec fn begin_resume(m: Session) -> (Session, Outcome) {
    match m.target {
        Target::Stopped { instruction_pointer, at_trap, .. } => if at_trap {
            match original_at(m.breakpoints, instruction_pointer) {
                Some(byte) => perform(
                    m,
                    Phase::Restoring { address: instruction_pointer },
                    Request::WriteByte { address: instruction_pointer, value: byte },
                    None,
                ),
                None => perform(
                    m,
                    Phase::Rewinding { address: instruction_pointer },
                    Request::SetInstructionPointer { address: instruction_pointer },
                    None,
                ),
            }
        } else {
            perform(m, Phase::Continuing, Request::Continue, None)
        },
        _ => settle(m, Some(Report::NoActiveTarget)),
    }
}

/// A stop one byte behind an installed trap is a stop at that breakpoint.
pub open spec fn trap_under(s: Seq<BreakpointEntry>, instruction_pointer: usize) -> bool {
    instruction_pointer >= 1 && original_at(s, (instruction_pointer - 1) as usize) is Some
}

/// The address to show for a stop: the breakpoint's own address where the
/// stop is due to its trap, else the instruction pointer as it is.
pub open spec fn shown_stop(s: Seq<BreakpointEntry>, instruction_pointer: usize) -> usize {
    if trap_under(s, instruction_pointer) {
        (instruction_pointer - 1) as usize
    } else {
        instruction_pointer
    }
}

/// The target has changed state after it was let run, or was seen to stop
/// where it was to end: a stop is shown at its address and the target is
/// kept, an end is shown and the target is gone.
pub open spec fn observe(m: Session, status: Status) -> (Session, Outcome) {
    match status {
        Status::Stopped(signal, instruction_pointer) => {
            let shown = shown_stop(m.breakpoints, instruction_pointer);
            settle(
                Session {
                    target: Target::Stopped {
                        pid: pid_of(m.target),
                        instruction_pointer: shown,
                        at_trap: trap_under(m.breakpoints, instruction_pointer),
                    },
                    ..m
                },
                Some(Report::Status(Status::Stopped(signal, shown))),
            )
        },
        _ => settle(without_target(m), Some(Report::Status(status))),
    }
}

/// One frame of the call chain is shown, and the walk goes on to its caller
/// unless it ends here.
pub open spec fn walk(m: Session, instruction_pointer: usize, frame_pointer: usize, depth: usize)
    -> (Session, Outcome) {
    let frame = Some(Report::Frame { address: instruction_pointer });
    if walk_ends(m.symbols, instruction_pointer, frame_pointer, depth) {
        settle(m, frame)
    } else {
        perform(
            m,
            Phase::ReadingReturn { frame_pointer, depth },
            Request::ReadWord { address: (frame_pointer + WORD_SIZE) as usize },
            frame,
        )
    }
}

/// The session takes a command. It does so only between two commands.
pub open spec fn on_command(m: Session, command: CommandSpec) -> (Session, Outcome) {
    match command {
        CommandSpec::Run(arguments) => {
            let m = Session { arguments, ..m };
            if m.target is Stopped {
                perform(m, Phase::Replacing, Request::Kill, None)
            } else {
                perform(m, Phase::Spawning, Request::Spawn, None)
            }
        },
        CommandSpec::Continue => begin_resume(m),
        CommandSpec::BackTrace => if m.target is Stopped {
            perform(m, Phase::Inspecting, Request::ReadRegisters, None)
        } else {
            settle(m, Some(Report::NoActiveTarget))
        },
        CommandSpec::Breakpoint(text) => match address_of(text) {
            None => settle(m, Some(Report::InvalidAddress)),
            Some(address) => {
                let number = m.breakpoints.len() as usize;
                let original_byte = original_at(m.breakpoints, address);
                let entry = BreakpointEntry { address, original_byte };
                let m = Session { breakpoints: m.breakpoints.push(entry), ..m };
                if m.target is Stopped && original_byte is None {
                    perform(
                        m,
                        Phase::Patching { number, address },
                        Request::WriteByte { address, value: TRAP_OPCODE },
                        None,
                    )
                } else {
                    settle(m, Some(Report::BreakpointSet { number, address, patch_error: None }))
                }
            },
        },
        CommandSpec::Quit => if m.target is Stopped {
            perform(m, Phase::Quitting, Request::Kill, None)
        } else {
            finish(m, None)
        },
    }
}

/// The report of a request that the operating system refused.
pub open spec fn failure(m: Session, errno: i32) -> Option<Report> {
    match m.pending {
        Some(request) => Some(Report::TraceFailed { request, errno }),
        None => Some(Report::Unexpected),
    }
}

/// The session takes the reply to the request it is waiting on. A target
/// counts as gone only when it was seen to end: a kill that is answered
/// with a stop leaves the target where it stopped, and neither is a new
/// target asked for nor does the session end.
pub open spec fn on_reply(m: Session, reply: Reply) -> (Session, Outcome) {
    match (m.phase, reply) {
        (Phase::Replacing, Reply::Waited(Status::Stopped(signal, instruction_pointer))) => observe(
            m,
            Status::Stopped(signal, instruction_pointer),
        ),
        (Phase::Replacing, Reply::Waited(status)) => perform(
            without_target(m),
            Phase::Spawning,
            Request::Spawn,
            Some(Report::Status(status)),
        ),
        (Phase::Replacing, Reply::Failed { errno }) => perform(
            without_target(m),
            Phase::Spawning,
            Request::Spawn,
            failure(m, errno),
        ),
        (Phase::Spawning, Reply::Spawned { pid }) => perform(
            Session { target: Target::Starting { pid }, ..m },
            Phase::Starting,
            Request::Wait,
            None,
        ),
        (Phase::Spawning, Reply::Failed { .. }) => settle(m, Some(Report::StartFailed)),
        (Phase::Starting, Reply::Waited(Status::Stopped(_, instruction_pointer))) => install_from(
            Session {
                target: Target::Stopped {
                    pid: pid_of(m.target),
                    instruction_pointer,
                    at_trap: false,
                },
                ..m
            },
            0,
            None,
        ),
        (Phase::Starting, Reply::Waited(_)) => settle(
            without_target(m),
            Some(Report::StartFailed),
        ),
        (Phase::Starting, Reply::Failed { .. }) => settle(
            without_target(m),
            Some(Report::StartFailed),
        ),
        (Phase::Installing { number, address }, Reply::Written(byte)) => install_from(
            Session { breakpoints: with_patch(m.breakpoints, address, Some(byte)), ..m },
            number + 1,
            None,
        ),
        (Phase::Installing { number, address }, Reply::Failed { errno }) => install_from(
            m,
            number + 1,
            Some(Report::PatchFailed { address, errno }),
        ),
        (Phase::Restoring { address }, Reply::Written(_)) => perform(
            Session { breakpoints: with_patch(m.breakpoints, address, None), ..m },
            Phase::Rewinding { address },
            Request::SetInstructionPointer { address },
            None,
        ),
        (Phase::Rewinding { address }, Reply::Done) => perform(
            Session {
                target: Target::Stopped {
                    pid: pid_of(m.target),
                    instruction_pointer: address,
                    at_trap: false,
                },
                ..m
            },
            Phase::Stepping { address },
            Request::Step,
            None,
        ),
        (Phase::Stepping { address }, Reply::Waited(Status::Stopped(_, instruction_pointer))) =>
            perform(
            Session {
                target: Target::Stopped {
                    pid: pid_of(m.target),
                    instruction_pointer,
                    at_trap: false,
                },
                ..m
            },
            Phase::Reinstalling { address },
            Request::WriteByte { address, value: TRAP_OPCODE },
            None,
        ),
        (Phase::Stepping { .. }, Reply::Waited(status)) => settle(
            without_target(m),
            Some(Report::Status(status)),
        ),
        (Phase::Reinstalling { address }, Reply::Written(byte)) => perform(
            Session { breakpoints: with_patch(m.breakpoints, address, Some(byte)), ..m },
            Phase::Continuing,
            Request::Continue,
            None,
        ),
        (Phase::Reinstalling { address }, Reply::Failed { errno }) => perform(
            m,
            Phase::Continuing,
            Request::Continue,
            Some(Report::PatchFailed { address, errno }),
        ),
        (Phase::Continuing, Reply::Waited(status)) => observe(m, status),
        (Phase::Patching { number, address }, Reply::Written(byte)) => settle(
            Session { breakpoints: with_patch(m.breakpoints, address, Some(byte)), ..m },
            Some(Report::BreakpointSet { number, address, patch_error: None }),
        ),
        (Phase::Patching { number, address }, Reply::Failed { errno }) => settle(
            m,
            Some(Report::BreakpointSet { number, address, patch_error: Some(errno) }),
        ),
        (Phase::Inspecting, Reply::Registers { frame_pointer, .. }) => walk(
            m,
            shown_address(m.target),
            frame_pointer,
            0,
        ),
        (Phase::ReadingReturn { frame_pointer, depth }, Reply::Word(word)) => perform(
            m,
            Phase::ReadingFrame { frame_pointer, return_address: word, depth },
            Request::ReadWord { address: frame_pointer },
            None,
        ),
        (Phase::ReadingReturn { .. }, Reply::Failed { .. }) => settle(m, None),
        (Phase::ReadingFrame { return_address, depth, .. }, Reply::Word(word)) => walk(
            m,
            return_address,
            word,
            (depth + 1) as usize,
        ),
        (Phase::ReadingFrame { .. }, Reply::Failed { .. }) => settle(m, None),
        (Phase::Quitting, Reply::Waited(Status::Stopped(signal, instruction_pointer))) => observe(
            m,
            Status::Stopped(signal, instruction_pointer),
        ),
        (Phase::Quitting, Reply::Waited(status)) => finish(
            without_target(m),
            Some(Report::Status(status)),
        ),
        (Phase::Quitting, Reply::Failed { errno }) => finish(
            without_target(m),
            failure(m, errno),
        ),
        (_, Reply::Failed { errno }) => settle(m, failure(m, errno)),
        _ => abandon(m),
    }
}

/// One turn of the session. Once over, it stays over. A command is taken
/// between two commands and a reply while one is awaited; anything else is
/// reported as unexpected and leaves the session between two commands.
#[verifier::opaque]
pub open spec fn react(m: Session, event: EventSpec) -> (Session, Outcome) {
    match (m.phase, event) {
        (Phase::Finished, _) => (m, Outcome { report: None, next: Next::Exit }),
        (Phase::Idle, EventSpec::Command(command)) => on_command(m, command),
        (Phase::Idle, EventSpec::Reply(_)) => abandon(m),
        (_, EventSpec::Reply(reply)) => on_reply(m, reply),
        (_, EventSpec::Command(_)) => abandon(m),
    }
}

} // verus!

verus! {

/// What the session waits for.
pub open spec fn expects(m: Session) -> Next {
    match m.pending {
        Some(request) => Next::Perform(request),
        None => if m.phase is Finished {
            Next::Exit
        } else {
            Next::AwaitCommand
        },
    }
}

/// A report, if there is one, as a sequence.
pub open spec fn said(report: Option<Report>) -> Seq<Report> {
    match report {
        Some(r) => seq![r],
        None => Seq::empty(),
    }
}

/// The session after it was handed `replies` one after the other, and what
/// it reported on the way.
pub open spec fn replay(m: Session, replies: Seq<Reply>) -> (Session, Seq<Report>)
    decreases replies.len(),
{
    if replies.len() == 0 {
        (m, Seq::empty())
    } else {
        let (before, reports) = replay(m, replies.drop_last());
        let (after, outcome) = react(before, EventSpec::Reply(replies.last()));
        (after, reports + said(outcome.report))
    }
}

/// Each of `replies` answers the request that the session waits on at its
/// turn, and none of those requests asks for a new target. Where the
/// session holds no process that an identifier can name, the answer is that
/// there is no such process.
pub open spec fn answered(m: Session, replies: Seq<Reply>) -> bool
    decreases replies.len(),
{
    replies.len() == 0 || {
        let before = replay(m, replies.drop_last()).0;
        &&& answered(m, replies.drop_last())
        &&& before.pending is Some
        &&& before.pending != Some(Request::Spawn)
        &&& fits(before.pending->0, replies.last())
        &&& pid_of(before.target) <= 0 ==> replies.last() == (Reply::Failed { errno: NO_PROCESS })
    }
}

/// From `m`, the event and then `replies`, each answering the request
/// pending at its turn, lead the session to `end`, with `reports` made on
/// the way.
pub open spec fn driven(
    m: Session,
    event: EventSpec,
    replies: Seq<Reply>,
    end: Session,
    reports: Seq<Report>,
) -> bool {
    let (first, outcome) = react(m, event);
    &&& answered(first, replies)
    &&& end == replay(first, replies).0
    &&& reports == said(outcome.report) + replay(first, replies).1
}

/// The event and then some run of replies, each answering the request
/// pending at its turn, lead the session from `m` to `end`, with `reports`
/// made on the way.
pub open spec fn reaches(m: Session, event: EventSpec, end: Session, reports: Seq<Report>) -> bool {
    exists|replies: Seq<Reply>| #[trigger] driven(m, event, replies, end, reports)
}

/// After every turn the session waits for what that turn said comes next.
pub proof fn lemma_react_tells_next(m: Session, event: EventSpec)
    requires
        valid(m),
    ensures
        react(m, event).1.next == expects(react(m, event).0),
{
    reveal(react);
}

/// Every turn keeps the session's invariant, as long as the numbers of the
/// breakpoints fit a machine word.
pub proof fn lemma_react_keeps_valid(m: Session, event: EventSpec)
    requires
        valid(m),
        react(m, event).0.breakpoints.len() <= usize::MAX,
    ensures
        valid(react(m, event).0),
{
    reveal(react);
    let gone = without_target(m);
    assert(consistent(gone.breakpoints) && unpatched(gone.breakpoints));
    match (m.phase, event) {
        (Phase::Idle, EventSpec::Command(CommandSpec::Breakpoint(text))) => {
            match address_of(text) {
                Some(address) => {
                    lemma_original_at(m.breakpoints, address);
                    let entry = BreakpointEntry {
                        address,
                        original_byte: original_at(m.breakpoints, address),
                    };
                    let grown = m.breakpoints.push(entry);
                    assert(consistent(grown));
                    assert(grown.drop_last() =~= m.breakpoints);
                    if !(m.target is Stopped) {
                        assert(unpatched(grown));
                    }
                    lemma_push_keeps_registered(m.breakpoints, entry, shown_address(m.target));
                },
                None => {},
            }
        },
        (Phase::Idle, EventSpec::Command(CommandSpec::Continue)) => {
            if m.target is Stopped {
                lemma_original_at(m.breakpoints, shown_address(m.target));
            }
        },
        (Phase::Starting, EventSpec::Reply(Reply::Waited(Status::Stopped(_, _)))) => {
            lemma_next_unpatched(m.breakpoints, 0);
        },
        (Phase::Installing { number, address }, EventSpec::Reply(Reply::Written(byte))) => {
            lemma_with_patch(m.breakpoints, address, Some(byte), shown_address(m.target));
            lemma_next_unpatched(with_patch(m.breakpoints, address, Some(byte)), number + 1);
        },
        (Phase::Installing { number, address }, EventSpec::Reply(Reply::Failed { .. })) => {
            lemma_next_unpatched(m.breakpoints, number + 1);
        },
        (Phase::Restoring { address }, EventSpec::Reply(Reply::Written(_))) => {
            lemma_with_patch(m.breakpoints, address, None, shown_address(m.target));
            lemma_original_at(m.breakpoints, address);
            lemma_with_patch(m.breakpoints, address, None, address);
            lemma_patch_reads_back(m.breakpoints, address, None, address);
        },
        (Phase::Reinstalling { address }, EventSpec::Reply(Reply::Written(byte))) => {
            lemma_with_patch(m.breakpoints, address, Some(byte), shown_address(m.target));
        },
        (Phase::Patching { address, .. }, EventSpec::Reply(Reply::Written(byte))) => {
            lemma_with_patch(m.breakpoints, address, Some(byte), shown_address(m.target));
        },
        (Phase::Continuing, EventSpec::Reply(Reply::Waited(Status::Stopped(_, at)))) => {
            if at >= 1 {
                lemma_original_at(m.breakpoints, (at - 1) as usize);
            }
        },
        (Phase::Replacing, EventSpec::Reply(Reply::Waited(Status::Stopped(_, at)))) => {
            if at >= 1 {
                lemma_original_at(m.breakpoints, (at - 1) as usize);
            }
        },
        (Phase::Quitting, EventSpec::Reply(Reply::Waited(Status::Stopped(_, at)))) => {
            if at >= 1 {
                lemma_original_at(m.breakpoints, (at - 1) as usize);
            }
        },
        _ => {},
    }
}

/// Marking the entries at one address keeps a registry consistent, keeps
/// its length and every entry's address, and so keeps registered what was.
pub proof fn lemma_with_patch(
    s: Seq<BreakpointEntry>,
    address: usize,
    byte: Option<u8>,
    other: usize,
)
    requires
        consistent(s),
    ensures
        consistent(with_patch(s, address, byte)),
        with_patch(s, address, byte).len() == s.len(),
        forall|i: int|
            0 <= i < s.len() ==> (#[trigger] with_patch(s, address, byte)[i]).address
                == s[i].address,
        registered(s, other) ==> registered(with_patch(s, address, byte), other),
        byte is None && unpatched(s) ==> unpatched(with_patch(s, address, byte)),
{
    if registered(s, other) {
        let i = choose|i: int| 0 <= i < s.len() && (#[trigger] s[i]).address == other;
        assert(with_patch(s, address, byte)[i].address == other);
    }
}

/// One more entry keeps registered what was.
pub proof fn lemma_push_keeps_registered(
    s: Seq<BreakpointEntry>,
    entry: BreakpointEntry,
    other: usize,
)
    ensures
        registered(s, other) ==> registered(s.push(entry), other),
        registered(s.push(entry), entry.address),
{
    if registered(s, other) {
        let i = choose|i: int| 0 <= i < s.len() && (#[trigger] s[i]).address == other;
        assert(s.push(entry)[i].address == other);
    }
    assert(s.push(entry)[s.len() as int].address == entry.address);
}

/// What `next_unpatched` finds lies in the registry, at or after `from`.
pub proof fn lemma_next_unpatched(s: Seq<BreakpointEntry>, from: int)
    ensures
        match next_unpatched(s, from) {
            Some(k) => from <= k < s.len() && 0 <= k && original_at(s, s[k].address) is None,
            None => true,
        },
    decreases s.len() - from,
{
    if 0 <= from < s.len() && original_at(s, s[from].address) is Some {
        lemma_next_unpatched(s, from + 1);
    }
}

} // verus!
