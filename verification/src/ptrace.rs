//! The operating system's trace facility, as the `nix` crate offers it.
//!
//! Everything here is taken on trust: each function hands its arguments to
//! one call of `nix` and hands back what came of it, or reads a value that
//! `nix` handed out. What comes back depends on the traced process and on
//! the system, so nothing is claimed of it.

use vstd::prelude::*;

verus! {

/// The error numbers of the operating system, `nix::errno::Errno`.
#[verifier::external_type_specification]
#[verifier::external_body]
pub struct ExErrno(nix::errno::Errno);

/// The full register file of a traced process,
/// `nix::libc::user_regs_struct`.
#[verifier::external_type_specification]
#[verifier::external_body]
pub struct ExUserRegs(nix::libc::user_regs_struct);

/// The signals of the operating system, `nix::sys::signal::Signal`.
#[verifier::external_type_specification]
#[verifier::external_body]
pub struct ExSignal(nix::sys::signal::Signal);

/// A change of state of a child process, as a wait reports it.
#[derive(Clone, Copy, Debug, PartialEq, Eq)]
pub enum StateChange {
    /// It ended by itself, with this exit code.
    Exited(i32),
    /// It was killed by the signal of this number.
    Signaled(i32),
    /// It was stopped by the signal of this number.
    Stopped(i32),
    /// Any other change.
    Other,
}

/// `nix::sys::wait::waitpid` on one process, with no options: blocks until
/// the process changes state, and tells how. Nothing is known of the
/// outcome beforehand.
#[verifier::external_body]
pub(crate) fn wait_for(pid: i32) -> (change: Result<StateChange, nix::errno::Errno>) {
    match nix::sys::wait::waitpid(nix::unistd::Pid::from_raw(pid), None) {
        Ok(nix::sys::wait::WaitStatus::Exited(_, code)) => Ok(StateChange::Exited(code)),
        Ok(nix::sys::wait::WaitStatus::Signaled(_, signal, _)) => Ok(
            StateChange::Signaled(signal as i32),
        ),
        Ok(nix::sys::wait::WaitStatus::Stopped(_, signal)) => Ok(
            StateChange::Stopped(signal as i32),
        ),
        Ok(_) => Ok(StateChange::Other),
        Err(error) => Err(error),
    }
}

/// `nix::sys::ptrace::read`: the word at `address` in the memory of the
/// traced process.
#[verifier::external_body]
pub(crate) fn peek(pid: i32, address: usize) -> (word: Result<u64, nix::errno::Errno>) {
    let from = address as nix::sys::ptrace::AddressType;
    match nix::sys::ptrace::read(nix::unistd::Pid::from_raw(pid), from) {
        Ok(word) => Ok(word as u64),
        Err(error) => Err(error),
    }
}

/// `nix::sys::ptrace::write`: puts `word` at `address` in the memory of the
/// traced process.
#[verifier::external_body]
pub(crate) fn poke(pid: i32, address: usize, word: u64) -> (done: Result<(), nix::errno::Errno>) {
    nix::sys::ptrace::write(
        nix::unistd::Pid::from_raw(pid),
        address as nix::sys::ptrace::AddressType,
        word as nix::libc::c_long,
    )
}

/// `nix::sys::ptrace::getregs`: the registers of the traced process.
#[verifier::external_body]
pub(crate) fn get_registers(pid: i32) -> (registers: Result<
    nix::libc::user_regs_struct,
    nix::errno::Errno,
>) {
    nix::sys::ptrace::getregs(nix::unistd::Pid::from_raw(pid))
}

/// The fields `rip` and `rbp` of a `nix::libc::user_regs_struct`: the
/// instruction pointer and the frame pointer.
#[verifier::external_body]
pub(crate) fn pointers_of(registers: &nix::libc::user_regs_struct) -> (pointers: (u64, u64)) {
    (registers.rip, registers.rbp)
}

/// `nix::sys::ptrace::setregs`: gives the traced process the registers
/// `registers`, with `instruction_pointer` as its instruction pointer.
#[verifier::external_body]
pub(crate) fn set_registers(
    pid: i32,
    registers: nix::libc::user_regs_struct,
    instruction_pointer: u64,
) -> (done: Result<(), nix::errno::Errno>) {
    let mut registers = registers;
    registers.rip = instruction_pointer;
    nix::sys::ptrace::setregs(nix::unistd::Pid::from_raw(pid), registers)
}

/// `nix::sys::ptrace::step`, delivering no signal: lets the traced process
/// execute one instruction.
#[verifier::external_body]
pub(crate) fn single_step(pid: i32) -> (done: Result<(), nix::errno::Errno>) {
    nix::sys::ptrace::step(nix::unistd::Pid::from_raw(pid), None)
}

/// `nix::sys::ptrace::cont`, delivering no signal: lets the traced process
/// run.
#[verifier::external_body]
pub(crate) fn resume(pid: i32) -> (done: Result<(), nix::errno::Errno>) {
    nix::sys::ptrace::cont(nix::unistd::Pid::from_raw(pid), None)
}

/// `nix::sys::ptrace::kill`: kills the traced process.
#[verifier::external_body]
pub(crate) fn kill(pid: i32) -> (done: Result<(), nix::errno::Errno>) {
    nix::sys::ptrace::kill(nix::unistd::Pid::from_raw(pid))
}

/// A `nix::errno::Errno` as an integer: the error number that the
/// operating system gave.
#[verifier::external_body]
pub(crate) fn errno_number(error: nix::errno::Errno) -> (number: i32) {
    error as i32
}

/// `nix::sys::signal::Signal::try_from`: the signal of the given number,
/// where this system has one. Which number is which signal differs from
/// system to system.
#[verifier::external_body]
pub(crate) fn signal_of(number: i32) -> (signal: Option<nix::sys::signal::Signal>) {
    match nix::sys::signal::Signal::try_from(number) {
        Ok(signal) => Some(signal),
        Err(_) => None,
    }
}

/// `nix::sys::signal::Signal::as_str`: the name of a signal.
#[verifier::external_body]
pub(crate) fn signal_name(signal: nix::sys::signal::Signal) -> (name: String) {
    signal.as_str().to_string()
}

} // verus!
