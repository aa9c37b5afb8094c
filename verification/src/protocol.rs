//! The vocabulary between the session and whoever carries out its requests:
//! commands that come in, trace operations that go out, their replies, and
//! what is reported to the user.

use vstd::prelude::*;

verus! {

/// What a wait on the traced process observed. `Exited` and `Signaled` end
/// the process's life; `Stopped` does not.
#[derive(Clone, Copy, Debug, PartialEq, Eq)]
pub enum Status {
    /// The process ended by itself, with this exit code.
    Exited(i32),
    /// The process was killed by the signal of this number.
    Signaled(i32),
    /// The process is suspended by the signal of this number, at this
    /// instruction pointer.
    Stopped(i32, usize),
}

impl Status {
    /// The process is no more.
    pub open spec fn is_terminal(self) -> bool {
        !(self is Stopped)
    }
}

/// A command of the user, already told apart by the command source.
#[derive(Debug, PartialEq, Eq)]
pub enum DebuggerCommand {
    Quit,
    Run(Vec<String>),
    Continue,
    BackTrace,
    Breakpoint(String),
}

/// A command, as plain values.
pub enum CommandSpec {
    Quit,
    Run(Seq<Seq<char>>),
    Continue,
    BackTrace,
    Breakpoint(Seq<char>),
}

/// The arguments of a run, as plain values.
pub open spec fn arguments_of(args: Seq<String>) -> Seq<Seq<char>> {
    Seq::new(args.len(), |i: int| args[i]@)
}

impl View for DebuggerCommand {
    type V = CommandSpec;

    open spec fn view(&self) -> CommandSpec {
        match self {
            DebuggerCommand::Quit => CommandSpec::Quit,
            DebuggerCommand::Run(args) => CommandSpec::Run(arguments_of(args@)),
            DebuggerCommand::Continue => CommandSpec::Continue,
            DebuggerCommand::BackTrace => CommandSpec::BackTrace,
            DebuggerCommand::Breakpoint(text) => CommandSpec::Breakpoint(text@),
        }
    }
}

/// One operation on the traced process that the session asks for.
#[derive(Clone, Copy, Debug, PartialEq, Eq)]
pub enum Request {
    /// Start the target under trace, suspended before its first instruction.
    Spawn,
    /// Block until the process changes state.
    Wait,
    /// Put `value` at `address` in the process's memory.
    WriteByte { address: usize, value: u8 },
    /// Make `address` the next instruction to execute.
    SetInstructionPointer { address: usize },
    /// Execute exactly one instruction, then block until the next state.
    Step,
    /// Let the process run, then block until the next state.
    Continue,
    /// Kill the process, then block until it is reaped.
    Kill,
    /// Read the instruction pointer and the frame pointer.
    ReadRegisters,
    /// Read the machine word at `address`.
    ReadWord { address: usize },
}

/// What came of a request.
#[derive(Clone, Copy, Debug, PartialEq, Eq)]
pub enum Reply {
    /// The target runs under trace, as the process of this identifier.
    Spawned { pid: i32 },
    /// The byte is written; this one stood there before.
    Written(u8),
    /// The operation is done and has nothing to tell.
    Done,
    /// The process changed state.
    Waited(Status),
    /// The registers of the suspended process.
    Registers { instruction_pointer: usize, frame_pointer: usize },
    /// The word that was read.
    Word(usize),
    /// The operating system refused, with this error number.
    Failed { errno: i32 },
}

/// What the session has to tell the user.
#[derive(Clone, Copy, Debug, PartialEq, Eq)]
pub enum Report {
    /// The target changed state.
    Status(Status),
    /// One frame of the call chain, innermost first.
    Frame { address: usize },
    /// A breakpoint was registered under `number`. `patch_error` is set when
    /// a live target could not be patched.
    BreakpointSet { number: usize, address: usize, patch_error: Option<i32> },
    /// A registered breakpoint could not be installed in the new target.
    PatchFailed { address: usize, errno: i32 },
    /// The address text of a breakpoint command is malformed.
    InvalidAddress,
    /// The command needs a suspended target and there is none.
    NoActiveTarget,
    /// The target could not be started.
    StartFailed,
    /// A trace operation failed in the operating system.
    TraceFailed { request: Request, errno: i32 },
    /// Something arrived that the session was not waiting for.
    Unexpected,
}

/// What the session expects next.
#[derive(Clone, Copy, Debug, PartialEq, Eq)]
pub enum Next {
    /// Carry out the request and hand in its reply.
    Perform(Request),
    /// Hand in the user's next command.
    AwaitCommand,
    /// The session is over.
    Exit,
}

/// The result of one turn of the session.
#[derive(Clone, Copy, Debug, PartialEq, Eq)]
pub struct Outcome {
    pub report: Option<Report>,
    pub next: Next,
}

/// Something that happens to the session.
#[derive(Debug, PartialEq, Eq)]
pub enum Event {
    Command(DebuggerCommand),
    Reply(Reply),
}

/// An event, as plain values.
pub enum EventSpec {
    Command(CommandSpec),
    Reply(Reply),
}

impl View for Event {
    type V = EventSpec;

    open spec fn view(&self) -> EventSpec {
        match self {
            Event::Command(c) => EventSpec::Command(c@),
            Event::Reply(r) => EventSpec::Reply(*r),
        }
    }
}

} // verus!
