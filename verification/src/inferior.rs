//! One child process under trace: the primitive operations on it, each made
//! of calls to the operating system's trace facility.

use vstd::prelude::*;
use crate::protocol::{Reply, Request, Status};
use crate::ptrace;
use crate::ptrace::StateChange;
use crate::session::{fits, NO_PROCESS};
use crate::stack::{shows, trace, Frame, MAX_FRAMES, WORD_SIZE};
use crate::symbols::SymbolResolver;

verus! {

/// No such process.
pub const ESRCH: i32 = NO_PROCESS;

/// The request makes no sense for this process.
pub const EINVAL: i32 = 22;

/// A process that was to be killed is still there.
pub const EBUSY: i32 = 16;

/// A value does not fit a machine word.
pub const EOVERFLOW: i32 = 75;

/// A system call of the trace facility.
#[derive(Clone, Copy, Debug, PartialEq, Eq)]
pub enum Operation {
    Wait,
    Peek,
    Poke,
    GetRegisters,
    SetRegisters,
    Step,
    Continue,
    Kill,
}

/// A failure of the trace facility: which call failed, and the error number
/// that the operating system gave.
#[derive(Clone, Copy, Debug, PartialEq, Eq)]
pub struct TraceError {
    pub operation: Operation,
    pub errno: i32,
}

/// The byte of `word` at `offset`, counting from the least significant.
pub open spec fn byte_at(word: u64, offset: u64) -> u8 {
    ((word >> (8 * offset)) & 0xff) as u8
}

/// `word` with the byte at `offset` replaced by `value`.
pub open spec fn with_byte(word: u64, offset: u64, value: u8) -> u64 {
    (word & !(0xffu64 << (8 * offset))) | ((value as u64) << (8 * offset))
}

/// Putting the displaced byte back gives the word as it was.
pub proof fn law_splice_undoes(word: u64, offset: u64, value: u8)
    requires
        offset < 8,
    ensures
        with_byte(with_byte(word, offset, value), offset, byte_at(word, offset)) == word,
{
    let wide = value as u64;
    let back = byte_at(word, offset) as u64;
    assert(back == (word >> (8 * offset)) & 0xff) by (bit_vector)
        requires
            back == (((word >> (8 * offset)) & 0xff) as u8) as u64,
    ;
    assert(((word & !(0xffu64 << (8 * offset))) | (wide << (8 * offset))) & !(0xffu64 << (8
        * offset)) | (((word >> (8 * offset)) & 0xff) << (8 * offset)) == word) by (bit_vector)
        requires
            offset < 8,
            wide <= 0xff,
    ;
}

/// The start of the word that holds `address`.
pub fn align_down(address: usize) -> (aligned: usize)
    ensures
        aligned <= address,
        address - aligned == address % WORD_SIZE,
        aligned % WORD_SIZE == 0,
{
    address - address % WORD_SIZE
}

/// Replaces one byte of a word: gives the new word and the byte that stood
/// at `offset` before. Every other byte stays.
pub fn splice_byte(word: u64, offset: u64, value: u8) -> (spliced: (u64, u8))
    requires
        offset < 8,
    ensures
        spliced.0 == with_byte(word, offset, value),
        spliced.1 == byte_at(word, offset),
        byte_at(spliced.0, offset) == value,
        forall|other: u64|
            other < 8 && other != offset ==> byte_at(spliced.0, other) == #[trigger] byte_at(
                word,
                other,
            ),
{
    let shift: u64 = 8 * offset;
    let wide: u64 = value as u64;
    let displaced: u64 = (word >> shift) & 0xff;
    let updated: u64 = (word & !(0xffu64 << shift)) | (wide << shift);
    assert(displaced <= 0xff) by (bit_vector)
        requires
            displaced == (word >> shift) & 0xff,
    ;
    assert(((updated >> shift) & 0xff) == wide) by (bit_vector)
        requires
            shift == 8 * offset,
            offset < 8,
            wide <= 0xff,
            updated == (word & !(0xffu64 << shift)) | (wide << shift),
    ;
    assert forall|other: u64| other < 8 && other != offset implies byte_at(updated, other)
        == #[trigger] byte_at(word, other) by {
        assert(((updated >> (8 * other)) & 0xff) == ((word >> (8 * other)) & 0xff))
            by (bit_vector)
            requires
                shift == 8 * offset,
                offset < 8,
                other < 8,
                other != offset,
                wide <= 0xff,
                updated == (word & !(0xffu64 << shift)) | (wide << shift),
        ;
    }
    (updated, displaced as u8)
}

/// A word read from the target, as an address.
pub fn address_of_word(word: u64) -> (address: Option<usize>)
    ensures
        address == if word <= usize::MAX {
            Some(word as usize)
        } else {
            None
        },
{
    if word <= usize::MAX as u64 {
        Some(word as usize)
    } else {
        None
    }
}

/// What reading a word of the target's memory gives, once the word is
/// there: the word, or an error where it does not fit a machine word.
pub open spec fn word_seen(word: u64) -> Result<usize, TraceError> {
    if word <= usize::MAX {
        Ok(word as usize)
    } else {
        Err(TraceError { operation: Operation::Peek, errno: EOVERFLOW })
    }
}

/// Makes the result of reading a word of the target's memory.
pub fn word_of(word: u64) -> (seen: Result<usize, TraceError>)
    ensures
        seen == word_seen(word),
{
    match address_of_word(word) {
        Some(word) => Ok(word),
        None => Err(TraceError { operation: Operation::Peek, errno: EOVERFLOW }),
    }
}

/// What reading the registers gives, once the two pointers are there: the
/// instruction pointer and the frame pointer, or an error where one of them
/// does not fit a machine word.
pub open spec fn pointers_seen(instruction: u64, frame: u64) -> Result<(usize, usize), TraceError> {
    if instruction <= usize::MAX && frame <= usize::MAX {
        Ok((instruction as usize, frame as usize))
    } else {
        Err(TraceError { operation: Operation::GetRegisters, errno: EOVERFLOW })
    }
}

/// Makes the result of reading the registers.
pub fn pointers_from(instruction: u64, frame: u64) -> (seen: Result<(usize, usize), TraceError>)
    ensures
        seen == pointers_seen(instruction, frame),
{
    match (address_of_word(instruction), address_of_word(frame)) {
        (Some(instruction_pointer), Some(frame_pointer)) => Ok(
            (instruction_pointer, frame_pointer),
        ),
        _ => Err(TraceError { operation: Operation::GetRegisters, errno: EOVERFLOW }),
    }
}

/// What a wait tells, given the change of state that the system reported
/// and, for a stop, what reading the registers gave: an exit with its
/// code, a kill with its signal, a stop with its signal and the instruction
/// pointer, or the failure to read that pointer. Any other change is none
/// that a traced process can show here, and an error.
pub open spec fn status_seen(
    change: StateChange,
    pointers: Result<(usize, usize), TraceError>,
) -> Result<Status, TraceError> {
    match change {
        StateChange::Exited(code) => Ok(Status::Exited(code)),
        StateChange::Signaled(signal) => Ok(Status::Signaled(signal)),
        StateChange::Stopped(signal) => match pointers {
            Ok((instruction_pointer, _)) => Ok(Status::Stopped(signal, instruction_pointer)),
            Err(failure) => Err(failure),
        },
        StateChange::Other => Err(TraceError { operation: Operation::Wait, errno: EINVAL }),
    }
}

/// Makes the status that a wait tells.
pub fn status_of(change: StateChange, pointers: Result<(usize, usize), TraceError>) -> (status:
    Result<Status, TraceError>)
    ensures
        status == status_seen(change, pointers),
{
    match change {
        StateChange::Exited(code) => Ok(Status::Exited(code)),
        StateChange::Signaled(signal) => Ok(Status::Signaled(signal)),
        StateChange::Stopped(signal) => match pointers {
            Ok((instruction_pointer, _)) => Ok(Status::Stopped(signal, instruction_pointer)),
            Err(failure) => Err(failure),
        },
        StateChange::Other => Err(TraceError { operation: Operation::Wait, errno: EINVAL }),
    }
}

/// What killing a process tells, given what the wait after the kill told:
/// the end of the process, or an error. A process that stopped instead of
/// ending is still there, which is an error of the kill.
pub open spec fn end_seen(waited: Result<Status, TraceError>) -> Result<Status, TraceError> {
    match waited {
        Ok(Status::Stopped(_, _)) => Err(TraceError { operation: Operation::Kill, errno: EBUSY }),
        Ok(status) => Ok(status),
        Err(failure) => Err(failure),
    }
}

/// Makes the result of killing a process.
pub fn end_of(waited: Result<Status, TraceError>) -> (end: Result<Status, TraceError>)
    ensures
        end == end_seen(waited),
        end is Ok ==> end->Ok_0.is_terminal(),
{
    match waited {
        Ok(Status::Stopped(_, _)) => Err(TraceError { operation: Operation::Kill, errno: EBUSY }),
        Ok(status) => Ok(status),
        Err(failure) => Err(failure),
    }
}

/// Where a traced process is in its life.
#[derive(Clone, Copy, Debug, PartialEq, Eq)]
pub enum Life {
    /// It runs, and has not been seen to stop since.
    Running,
    /// It is suspended: its memory and registers can be read and written.
    Stopped,
    /// It is no more: it ended by itself, with this exit code.
    Exited(i32),
    /// It is no more: the signal of this number killed it.
    Signaled(i32),
}

/// The life of a process after a wait that saw `status`.
pub open spec fn life_after(status: Status) -> Life {
    match status {
        Status::Exited(code) => Life::Exited(code),
        Status::Signaled(signal) => Life::Signaled(signal),
        Status::Stopped(_, _) => Life::Stopped,
    }
}

/// How a process ended, if it has.
pub open spec fn ended(life: Life) -> Option<Status> {
    match life {
        Life::Exited(code) => Some(Status::Exited(code)),
        Life::Signaled(signal) => Some(Status::Signaled(signal)),
        _ => None,
    }
}

/// What an operation answers that needs a suspended process and finds none.
pub open spec fn refused(operation: Operation) -> TraceError {
    TraceError { operation, errno: ESRCH }
}

/// A traced child process: its identifier, and where it is in its life as
/// far as the waits on it have shown.
#[derive(Clone, Copy, Debug, PartialEq, Eq)]
pub struct Inferior {
    pid: i32,
    life: Life,
}

impl Inferior {
    /// The identifier of the process.
    pub closed spec fn id(&self) -> i32 {
        self.pid
    }

    /// Where the process is in its life.
    pub closed spec fn life(&self) -> Life {
        self.life
    }

    /// The traced process of identifier `pid`, just started. An identifier
    /// that is not positive names no single process, and is refused.
    pub fn new(pid: i32) -> (inferior: Option<Inferior>)
        ensures
            match inferior {
                Some(process) => pid > 0 && process.id() == pid && process.life() == Life::Running,
                None => pid <= 0,
            },
    {
        if pid > 0 {
            Some(Inferior { pid, life: Life::Running })
        } else {
            None
        }
    }

    /// The traced process of identifier `pid`, known to be suspended.
    pub fn suspended(pid: i32) -> (inferior: Option<Inferior>)
        ensures
            match inferior {
                Some(process) => pid > 0 && process.id() == pid && process.life() == Life::Stopped,
                None => pid <= 0,
            },
    {
        if pid > 0 {
            Some(Inferior { pid, life: Life::Stopped })
        } else {
            None
        }
    }

    /// The identifier of the process.
    pub fn pid(&self) -> (pid: i32)
        ensures
            pid == self.id(),
    {
        self.pid
    }

    /// Where the process is in its life.
    pub fn state(&self) -> (life: Life)
        ensures
            life == self.life(),
    {
        self.life
    }

    fn is_stopped(&self) -> (stopped: bool)
        ensures
            stopped == (self.life() is Stopped),
    {
        match self.life {
            Life::Stopped => true,
            _ => false,
        }
    }

    fn how_it_ended(&self) -> (end: Option<Status>)
        ensures
            end == ended(self.life()),
    {
        match self.life {
            Life::Exited(code) => Some(Status::Exited(code)),
            Life::Signaled(signal) => Some(Status::Signaled(signal)),
            _ => None,
        }
    }

    fn remember(&mut self, status: Status)
        ensures
            final(self).id() == old(self).id(),
            final(self).life() == life_after(status),
    {
        self.life =
        match status {
            Status::Exited(code) => Life::Exited(code),
            Status::Signaled(signal) => Life::Signaled(signal),
            Status::Stopped(_, _) => Life::Stopped,
        };
    }

    fn failed(operation: Operation, error: nix::errno::Errno) -> (failure: TraceError)
        ensures
            failure.operation == operation,
    {
        TraceError { operation, errno: ptrace::errno_number(error) }
    }

    /// The instruction pointer and the frame pointer of the suspended
    /// process. A process that is not suspended has none to read.
    pub fn read_registers(&self) -> (pointers: Result<(usize, usize), TraceError>)
        ensures
            !(self.life() is Stopped) ==> pointers == Err::<(usize, usize), TraceError>(
                refused(Operation::GetRegisters),
            ),
            pointers is Err ==> pointers->Err_0.operation == Operation::GetRegisters,
    {
        if !self.is_stopped() {
            return Err(TraceError { operation: Operation::GetRegisters, errno: ESRCH });
        }
        match ptrace::get_registers(self.pid) {
            Err(error) => Err(Inferior::failed(Operation::GetRegisters, error)),
            Ok(registers) => {
                let (instruction, frame) = ptrace::pointers_of(&registers);
                pointers_from(instruction, frame)
            },
        }
    }

    /// Makes `address` the next instruction of the suspended process.
    pub fn set_instruction_pointer(&self, address: usize) -> (done: Result<(), TraceError>)
        ensures
            !(self.life() is Stopped) ==> done == Err::<(), TraceError>(
                refused(Operation::GetRegisters),
            ),
            done is Err ==> done->Err_0.operation == Operation::GetRegisters
                || done->Err_0.operation == Operation::SetRegisters,
    {
        if !self.is_stopped() {
            return Err(TraceError { operation: Operation::GetRegisters, errno: ESRCH });
        }
        match ptrace::get_registers(self.pid) {
            Err(error) => Err(Inferior::failed(Operation::GetRegisters, error)),
            Ok(registers) => match ptrace::set_registers(self.pid, registers, address as u64) {
                Err(error) => Err(Inferior::failed(Operation::SetRegisters, error)),
                Ok(()) => Ok(()),
            },
        }
    }

    /// The machine word at `address` in the memory of the suspended
    /// process.
    pub fn read_memory_word(&self, address: usize) -> (word: Result<usize, TraceError>)
        ensures
            !(self.life() is Stopped) ==> word == Err::<usize, TraceError>(
                refused(Operation::Peek),
            ),
            word is Err ==> word->Err_0.operation == Operation::Peek,
    {
        if !self.is_stopped() {
            return Err(TraceError { operation: Operation::Peek, errno: ESRCH });
        }
        match ptrace::peek(self.pid, address) {
            Err(error) => Err(Inferior::failed(Operation::Peek, error)),
            Ok(word) => word_of(word),
        }
    }

    /// Puts `value` at `address` in the memory of the suspended process and
    /// gives the byte that stood there: reads the word that holds the
    /// address, replaces the one byte in it, and writes the word back.
    pub fn write_byte(&self, address: usize, value: u8) -> (displaced: Result<u8, TraceError>)
        ensures
            !(self.life() is Stopped) ==> displaced == Err::<u8, TraceError>(
                refused(Operation::Peek),
            ),
            displaced is Err ==> displaced->Err_0.operation == Operation::Peek
                || displaced->Err_0.operation == Operation::Poke,
    {
        if !self.is_stopped() {
            return Err(TraceError { operation: Operation::Peek, errno: ESRCH });
        }
        let aligned = align_down(address);
        let offset = (address - aligned) as u64;
        match ptrace::peek(self.pid, aligned) {
            Err(error) => Err(Inferior::failed(Operation::Peek, error)),
            Ok(word) => {
                let (updated, displaced) = splice_byte(word, offset, value);
                match ptrace::poke(self.pid, aligned, updated) {
                    Err(error) => Err(Inferior::failed(Operation::Poke, error)),
                    Ok(()) => Ok(displaced),
                }
            },
        }
    }

    /// What a wait leaves behind: the process is where the status says; a
    /// failed wait leaves it where it was, and a stop whose instruction
    /// pointer could not be read is a stop all the same.
    pub open spec fn waited_for(
        before: Inferior,
        after: Inferior,
        status: Result<Status, TraceError>,
    ) -> bool {
        &&& after.id() == before.id()
        &&& match status {
            Ok(seen) => after.life() == life_after(seen),
            Err(failure) => {
                ||| failure.operation == Operation::Wait && after.life() == before.life()
                ||| failure.operation == Operation::GetRegisters && after.life() == Life::Stopped
            },
        }
    }

    /// Blocks until the process changes state, and remembers the change:
    /// the status is what `status_of` makes of the change that the system
    /// reports and, for a stop, of the registers then read. A process that
    /// has ended is not waited for again: the answer is how it ended.
    pub fn wait(&mut self) -> (status: Result<Status, TraceError>)
        ensures
            ended(old(self).life()) is Some ==> status == Ok::<Status, TraceError>(
                ended(old(self).life())->0,
            ) && *final(self) == *old(self),
            ended(old(self).life()) is None ==> Inferior::waited_for(
                *old(self),
                *final(self),
                status,
            ),
    {
        match self.how_it_ended() {
            Some(status) => {
                return Ok(status);
            },
            None => {},
        }
        match ptrace::wait_for(self.pid) {
            Err(error) => Err(Inferior::failed(Operation::Wait, error)),
            Ok(change) => {
                // Only a process that stopped has registers to read.
                let pointers = match change {
                    StateChange::Stopped(_) => {
                        self.life = Life::Stopped;
                        self.read_registers()
                    },
                    _ => Err(TraceError { operation: Operation::GetRegisters, errno: ESRCH }),
                };
                let status = status_of(change, pointers);
                match status {
                    Ok(seen) => {
                        self.remember(seen);
                    },
                    Err(_) => {},
                }
                status
            },
        }
    }

    /// What `step` and `cont` answer: the process is let go by the system
    /// call of `operation`, which needs it suspended, and is then waited
    /// for.
    pub open spec fn launched(
        before: Inferior,
        after: Inferior,
        operation: Operation,
        status: Result<Status, TraceError>,
    ) -> bool {
        &&& after.id() == before.id()
        &&& !(before.life() is Stopped) ==> status == Err::<Status, TraceError>(refused(operation))
            && after.life() == before.life()
        &&& before.life() is Stopped ==> match status {
            Ok(seen) => after.life() == life_after(seen),
            Err(failure) => {
                ||| failure.operation == operation && after.life() == Life::Stopped
                ||| failure.operation == Operation::Wait && after.life() == Life::Running
                ||| failure.operation == Operation::GetRegisters && after.life() == Life::Stopped
            },
        }
    }

    /// Lets the suspended process execute one instruction and waits for it.
    /// A process that is not suspended is left as it is.
    pub fn step(&mut self) -> (status: Result<Status, TraceError>)
        ensures
            Inferior::launched(*old(self), *final(self), Operation::Step, status),
    {
        if !self.is_stopped() {
            return Err(TraceError { operation: Operation::Step, errno: ESRCH });
        }
        match ptrace::single_step(self.pid) {
            Err(error) => Err(Inferior::failed(Operation::Step, error)),
            Ok(()) => {
                self.life = Life::Running;
                self.wait()
            },
        }
    }

    /// Lets the suspended process run and waits for its next change of
    /// state. A process that is not suspended is left as it is.
    pub fn cont(&mut self) -> (status: Result<Status, TraceError>)
        ensures
            Inferior::launched(*old(self), *final(self), Operation::Continue, status),
    {
        if !self.is_stopped() {
            return Err(TraceError { operation: Operation::Continue, errno: ESRCH });
        }
        match ptrace::resume(self.pid) {
            Err(error) => Err(Inferior::failed(Operation::Continue, error)),
            Ok(()) => {
                self.life = Life::Running;
                self.wait()
            },
        }
    }

    /// Kills the process and waits for what becomes of it.
    fn kill_and_wait(&mut self) -> (status: Result<Status, TraceError>)
        requires
            ended(old(self).life()) is None,
        ensures
            final(self).id() == old(self).id(),
            match status {
                Ok(seen) => final(self).life() == life_after(seen),
                Err(failure) => {
                    ||| failure.operation == Operation::Kill && final(self).life() == old(
                        self,
                    ).life()
                    ||| failure.operation == Operation::Wait && final(self).life() == old(
                        self,
                    ).life()
                    ||| failure.operation == Operation::GetRegisters && final(self).life()
                        == Life::Stopped
                },
            },
    {
        match ptrace::kill(self.pid) {
            Err(error) => Err(Inferior::failed(Operation::Kill, error)),
            Ok(()) => self.wait(),
        }
    }

    /// Kills the process and waits until it is reaped: the answer is what
    /// `end_of` makes of the wait, so it is the end of the process or an
    /// error, never a stop. A process that has ended is left alone: the
    /// answer is how it ended.
    pub fn terminate(&mut self) -> (status: Result<Status, TraceError>)
        ensures
            final(self).id() == old(self).id(),
            ended(old(self).life()) is Some ==> status == Ok::<Status, TraceError>(
                ended(old(self).life())->0,
            ) && *final(self) == *old(self),
            match status {
                Ok(end) => end.is_terminal() && final(self).life() == life_after(end),
                Err(failure) => {
                    ||| failure.operation == Operation::Kill && final(self).life() == old(
                        self,
                    ).life()
                    ||| failure == (TraceError { operation: Operation::Kill, errno: EBUSY })
                        && final(self).life() == Life::Stopped
                    ||| failure.operation == Operation::Wait && final(self).life() == old(
                        self,
                    ).life()
                    ||| failure.operation == Operation::GetRegisters && final(self).life()
                        == Life::Stopped
                },
            },
    {
        match self.how_it_ended() {
            Some(status) => {
                return Ok(status);
            },
            None => {},
        }
        let waited = self.kill_and_wait();
        end_of(waited)
    }

    /// The call chain of the suspended process, innermost frame first, read
    /// from its registers and its stack. Fails where the registers cannot
    /// be read; a stack that cannot be read ends the chain.
    pub fn backtrace(&self, resolver: &SymbolResolver) -> (frames: Result<Vec<Frame>, TraceError>)
        ensures
            !(self.life() is Stopped) ==> frames == Err::<Vec<Frame>, TraceError>(
                refused(Operation::GetRegisters),
            ),
            match frames {
                Ok(chain) => 0 < chain@.len() <= MAX_FRAMES && forall|i: int|
                    0 <= i < chain@.len() ==> shows(
                        #[trigger] chain@[i],
                        resolver@,
                        chain@[i].address,
                    ),
                Err(failure) => failure.operation == Operation::GetRegisters,
            },
    {
        match self.read_registers() {
            Err(failure) => Err(failure),
            Ok((instruction_pointer, frame_pointer)) => {
                let read_word = |address: usize| -> (word: Option<usize>)
                    {
                        match self.read_memory_word(address) {
                            Ok(word) => Some(word),
                            Err(_) => None,
                        }
                    };
                Ok(trace(instruction_pointer, frame_pointer, resolver, read_word))
            },
        }
    }

    /// Carries out one request of the session on this process: does the
    /// operation that the request names and answers with what the operation
    /// gave, made into a reply by `waited`, `written`, `done`, `pointers_read`
    /// or `word_read`.
    ///
    /// What is certain before the system is asked is stated: a process that
    /// has ended answers a wait or a kill with how it ended; a process that
    /// is not suspended refuses every operation that needs it suspended; and
    /// starting a target is not for a process that runs already. A kill is
    /// answered with whatever the wait after it saw, a stop too, so that the
    /// session learns of a target that is still there.
    pub fn perform(&mut self, request: Request) -> (reply: Reply)
        ensures
            final(self).id() == old(self).id(),
            fits(request, reply),
            request is Spawn ==> reply == (Reply::Failed { errno: EINVAL }) && *final(self)
                == *old(self),
            (request is Wait || request is Kill) && ended(old(self).life()) is Some ==> reply
                == Reply::Waited(ended(old(self).life())->0) && *final(self) == *old(self),
            (request is Step || request is Continue || request is WriteByte
                || request is SetInstructionPointer || request is ReadRegisters
                || request is ReadWord) && !(old(self).life() is Stopped) ==> reply == (
            Reply::Failed { errno: ESRCH }) && final(self).life() == old(self).life(),
            reply is Waited ==> final(self).life() == life_after(reply->Waited_0),
            (request is WriteByte || request is SetInstructionPointer || request is ReadRegisters
                || request is ReadWord) ==> final(self).life() == old(self).life(),
    {
        match request {
            Request::Spawn => Reply::Failed { errno: EINVAL },
            Request::Wait => {
                let status = self.wait();
                waited(status)
            },
            Request::Step => {
                let status = self.step();
                waited(status)
            },
            Request::Continue => {
                let status = self.cont();
                waited(status)
            },
            Request::Kill => {
                let status = match self.how_it_ended() {
                    Some(end) => Ok(end),
                    None => self.kill_and_wait(),
                };
                waited(status)
            },
            Request::WriteByte { address, value } => written(self.write_byte(address, value)),
            Request::SetInstructionPointer { address } => done(
                self.set_instruction_pointer(address),
            ),
            Request::ReadRegisters => pointers_read(self.read_registers()),
            Request::ReadWord { address } => word_read(self.read_memory_word(address)),
        }
    }
}

/// The reply that tells of a wait: the status seen, or the failure.
pub open spec fn reply_to_wait(status: Result<Status, TraceError>) -> Reply {
    match status {
        Ok(seen) => Reply::Waited(seen),
        Err(failure) => Reply::Failed { errno: failure.errno },
    }
}

/// The reply that tells of a write: the byte displaced, or the failure.
pub open spec fn reply_to_write(displaced: Result<u8, TraceError>) -> Reply {
    match displaced {
        Ok(byte) => Reply::Written(byte),
        Err(failure) => Reply::Failed { errno: failure.errno },
    }
}

/// The reply that tells of an operation with nothing to tell but whether it
/// was done.
pub open spec fn reply_to_order(outcome: Result<(), TraceError>) -> Reply {
    match outcome {
        Ok(_) => Reply::Done,
        Err(failure) => Reply::Failed { errno: failure.errno },
    }
}

/// The reply that tells of reading the registers: the instruction pointer
/// and the frame pointer, or the failure.
pub open spec fn reply_to_registers(pointers: Result<(usize, usize), TraceError>) -> Reply {
    match pointers {
        Ok((instruction_pointer, frame_pointer)) => Reply::Registers {
            instruction_pointer,
            frame_pointer,
        },
        Err(failure) => Reply::Failed { errno: failure.errno },
    }
}

/// The reply that tells of reading a word: the word, or the failure.
pub open spec fn reply_to_read(word: Result<usize, TraceError>) -> Reply {
    match word {
        Ok(word) => Reply::Word(word),
        Err(failure) => Reply::Failed { errno: failure.errno },
    }
}

/// Makes the reply that tells of a wait.
pub fn waited(status: Result<Status, TraceError>) -> (reply: Reply)
    ensures
        reply == reply_to_wait(status),
{
    match status {
        Ok(seen) => Reply::Waited(seen),
        Err(failure) => Reply::Failed { errno: failure.errno },
    }
}

/// Makes the reply that tells of a write.
pub fn written(displaced: Result<u8, TraceError>) -> (reply: Reply)
    ensures
        reply == reply_to_write(displaced),
{
    match displaced {
        Ok(byte) => Reply::Written(byte),
        Err(failure) => Reply::Failed { errno: failure.errno },
    }
}

/// Makes the reply that tells whether an operation was done.
pub fn done(outcome: Result<(), TraceError>) -> (reply: Reply)
    ensures
        reply == reply_to_order(outcome),
{
    match outcome {
        Ok(()) => Reply::Done,
        Err(failure) => Reply::Failed { errno: failure.errno },
    }
}

/// Makes the reply that tells of reading the registers.
pub fn pointers_read(pointers: Result<(usize, usize), TraceError>) -> (reply: Reply)
    ensures
        reply == reply_to_registers(pointers),
{
    match pointers {
        Ok((instruction_pointer, frame_pointer)) => Reply::Registers {
            instruction_pointer,
            frame_pointer,
        },
        Err(failure) => Reply::Failed { errno: failure.errno },
    }
}

/// Makes the reply that tells of reading a word.
pub fn word_read(word: Result<usize, TraceError>) -> (reply: Reply)
    ensures
        reply == reply_to_read(word),
{
    match word {
        Ok(word) => Reply::Word(word),
        Err(failure) => Reply::Failed { errno: failure.errno },
    }
}

} // verus!
