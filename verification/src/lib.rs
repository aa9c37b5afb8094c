//! The core of a native process debugger, verified.
//!
//! The debugger launches a target under the operating system's trace
//! facility, stops it at software breakpoints, and shows where it stopped
//! and how it got there. Its parts, leaves first:
//!
//! - [`address`] reads the address text of a breakpoint command, and
//!   [`text`] writes numbers and addresses out again;
//! - [`breakpoints`] is the registry of breakpoints and of the bytes that
//!   their traps displaced;
//! - [`symbols`] answers which function and which source line own an
//!   address, and [`stack`] walks the call chain of a stopped target;
//! - [`protocol`] and [`command`] are the vocabulary of the session: commands,
//!   requests for trace operations, their replies, and reports;
//! - [`session`] defines the session as a transition system, [`debugger`]
//!   holds it in executable form, and [`laws`] states what holds of every
//!   session;
//! - [`ptrace`] and [`inferior`] carry out trace operations on a live
//!   process;
//! - [`render`] turns reports into the lines shown to the user.
//!
//! Beside the debugger stand three small utilities: [`linked_list`],
//! [`count`] and [`parallel`].

pub mod address;
pub mod text;
pub mod breakpoints;
pub mod symbols;
pub mod stack;
pub mod protocol;
pub mod command;
pub mod session;
pub mod laws;
pub mod ptrace;
pub mod inferior;
pub mod debugger;
pub mod render;
pub mod linked_list;
pub mod count;
pub mod parallel;
