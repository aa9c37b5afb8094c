//! What holds of every session: the breakpoint discipline, the order of
//! operations when a target is replaced or the session ends, and the bounds
//! of a backtrace.

use vstd::prelude::*;
use crate::breakpoints::{
    consistent, lemma_original_at, lemma_patch_reads_back, original_at, registered, unpatched,
    with_patch, BreakpointEntry, TRAP_OPCODE,
};
use crate::address::address_of;
use crate::protocol::{CommandSpec, EventSpec, Next, Outcome, Reply, Report, Request, Status};
use crate::session::{
    budget, fits, lemma_next_unpatched, pid_of, react, replay, said, settle, shown_address,
    shown_stop, trap_under, valid, walk, Phase, Session, Target,
};
use crate::stack::{
    call_chain, in_main, lemma_call_chain_is_bounded, walk_ends, MAX_FRAMES, WORD_SIZE,
};
use crate::symbols::SymbolTables;

verus! {

/// A breakpoint is stepped over in this order and no other: the displaced
/// byte is written back, the instruction pointer is moved onto it, exactly
/// one instruction is executed, the trap is written again, and only then is
/// the target let run. While the original instruction stands in memory the
/// registry shows no trap there; once the trap is back it shows the byte
/// that this second write displaced. Nothing is reported on the way.
pub proof fn law_step_over(
    m: Session,
    displaced: u8,
    restored_over: u8,
    signal: i32,
    after_step: usize,
    reinstalled_over: u8,
)
    requires
        valid(m),
        m.phase is Idle,
        m.target is Stopped,
        m.target->Stopped_at_trap,
        original_at(m.breakpoints, shown_address(m.target)) == Some(displaced),
    ensures
        ({
            let address = shown_address(m.target);
            let (m1, o1) = react(m, EventSpec::Command(CommandSpec::Continue));
            let (m2, o2) = react(m1, EventSpec::Reply(Reply::Written(restored_over)));
            let (m3, o3) = react(m2, EventSpec::Reply(Reply::Done));
            let (m4, o4) = react(
                m3,
                EventSpec::Reply(Reply::Waited(Status::Stopped(signal, after_step))),
            );
            let (m5, o5) = react(m4, EventSpec::Reply(Reply::Written(reinstalled_over)));
            &&& o1 == (Outcome {
                report: None,
                next: Next::Perform(Request::WriteByte { address, value: displaced }),
            })
            &&& o2 == (Outcome {
                report: None,
                next: Next::Perform(Request::SetInstructionPointer { address }),
            })
            &&& original_at(m2.breakpoints, address) is None
            &&& o3 == (Outcome { report: None, next: Next::Perform(Request::Step) })
            &&& original_at(m3.breakpoints, address) is None
            &&& o4 == (Outcome {
                report: None,
                next: Next::Perform(Request::WriteByte { address, value: TRAP_OPCODE }),
            })
            &&& o5 == (Outcome { report: None, next: Next::Perform(Request::Continue) })
            &&& m5.phase is Continuing
            &&& original_at(m5.breakpoints, address) == Some(reinstalled_over)
            &&& valid(m5)
        }),
{
    reveal(react);
    let address = shown_address(m.target);
    lemma_original_at(m.breakpoints, address);
    let (m1, o1) = react(m, EventSpec::Command(CommandSpec::Continue));
    crate::session::lemma_react_keeps_valid(m, EventSpec::Command(CommandSpec::Continue));
    let (m2, o2) = react(m1, EventSpec::Reply(Reply::Written(restored_over)));
    crate::session::lemma_react_keeps_valid(m1, EventSpec::Reply(Reply::Written(restored_over)));
    lemma_patch_reads_back(m.breakpoints, address, None, address);
    let (m3, o3) = react(m2, EventSpec::Reply(Reply::Done));
    crate::session::lemma_react_keeps_valid(m2, EventSpec::Reply(Reply::Done));
    let stop = EventSpec::Reply(Reply::Waited(Status::Stopped(signal, after_step)));
    let (m4, o4) = react(m3, stop);
    crate::session::lemma_react_keeps_valid(m3, stop);
    let (m5, o5) = react(m4, EventSpec::Reply(Reply::Written(reinstalled_over)));
    crate::session::lemma_react_keeps_valid(
        m4,
        EventSpec::Reply(Reply::Written(reinstalled_over)),
    );
    let cleared = with_patch(m.breakpoints, address, None);
    assert(m4.breakpoints == cleared);
    assert(registered(cleared, address)) by {
        let i = choose|i: int|
            0 <= i < m.breakpoints.len() && (#[trigger] m.breakpoints[i]).address == address;
        assert(cleared[i].address == address);
    }
    lemma_patch_reads_back(cleared, address, Some(reinstalled_over), address);
}

/// If the target ends during the single step, no trap is written again:
/// the end is reported, and no patch is left in the registry.
pub proof fn law_step_over_ends_with_target(m: Session, status: Status)
    requires
        valid(m),
        m.phase is Stepping,
        status.is_terminal(),
    ensures
        ({
            let (after, outcome) = react(m, EventSpec::Reply(Reply::Waited(status)));
            &&& outcome == (Outcome {
                report: Some(Report::Status(status)),
                next: Next::AwaitCommand,
            })
            &&& after.target is Absent
            &&& unpatched(after.breakpoints)
        }),
{
    reveal(react);
}

/// A target that stops one byte behind an installed trap is reported as
/// stopped at the breakpoint's own address, and is remembered as standing on
/// that trap, so that the next resume steps over it.
pub proof fn law_trap_stop_shows_breakpoint(m: Session, signal: i32, address: usize)
    requires
        valid(m),
        m.phase is Continuing,
        address < usize::MAX,
        original_at(m.breakpoints, address) is Some,
    ensures
        ({
            let stop = Status::Stopped(signal, (address + 1) as usize);
            let (after, outcome) = react(m, EventSpec::Reply(Reply::Waited(stop)));
            &&& outcome == (Outcome {
                report: Some(Report::Status(Status::Stopped(signal, address))),
                next: Next::AwaitCommand,
            })
            &&& after.target == (Target::Stopped {
                pid: pid_of(m.target),
                instruction_pointer: address,
                at_trap: true,
            })
            &&& after.breakpoints == m.breakpoints
            &&& after.phase is Idle
            &&& valid(after)
        }),
{
    reveal(react);
    let stop = Status::Stopped(signal, (address + 1) as usize);
    crate::session::lemma_react_keeps_valid(m, EventSpec::Reply(Reply::Waited(stop)));
}

/// A breakpoint stays in force: when a target that stands on the trap at
/// `address` is resumed and runs into that trap once more, it is again
/// reported as stopped at exactly `address`, and stands on the trap again.
pub proof fn law_breakpoint_hit_again(
    m: Session,
    restored_over: u8,
    step_signal: i32,
    after_step: usize,
    reinstalled_over: u8,
    signal: i32,
)
    requires
        valid(m),
        m.phase is Idle,
        m.target is Stopped,
        m.target->Stopped_at_trap,
        shown_address(m.target) < usize::MAX,
        original_at(m.breakpoints, shown_address(m.target)) is Some,
    ensures
        ({
            let address = shown_address(m.target);
            let m1 = react(m, EventSpec::Command(CommandSpec::Continue)).0;
            let m2 = react(m1, EventSpec::Reply(Reply::Written(restored_over))).0;
            let m3 = react(m2, EventSpec::Reply(Reply::Done)).0;
            let m4 = react(
                m3,
                EventSpec::Reply(Reply::Waited(Status::Stopped(step_signal, after_step))),
            ).0;
            let m5 = react(m4, EventSpec::Reply(Reply::Written(reinstalled_over))).0;
            let (m6, o6) = react(
                m5,
                EventSpec::Reply(
                    Reply::Waited(Status::Stopped(signal, (address + 1) as usize)),
                ),
            );
            &&& o6 == (Outcome {
                report: Some(Report::Status(Status::Stopped(signal, address))),
                next: Next::AwaitCommand,
            })
            &&& m6.phase is Idle
            &&& m6.target is Stopped
            &&& m6.target->Stopped_at_trap
            &&& shown_address(m6.target) == address
            &&& original_at(m6.breakpoints, address) is Some
            &&& valid(m6)
        }),
{
    reveal(react);
    let address = shown_address(m.target);
    law_step_over(
        m,
        original_at(m.breakpoints, address)->0,
        restored_over,
        step_signal,
        after_step,
        reinstalled_over,
    );
    let m1 = react(m, EventSpec::Command(CommandSpec::Continue)).0;
    let m2 = react(m1, EventSpec::Reply(Reply::Written(restored_over))).0;
    let m3 = react(m2, EventSpec::Reply(Reply::Done)).0;
    let m4 = react(
        m3,
        EventSpec::Reply(Reply::Waited(Status::Stopped(step_signal, after_step))),
    ).0;
    let m5 = react(m4, EventSpec::Reply(Reply::Written(reinstalled_over))).0;
    law_trap_stop_shows_breakpoint(m5, signal, address);
}

/// A run while a target is alive kills that target first; when the target
/// is seen to have ended, how it ended is reported, and only then is the new
/// target asked for, with no patch of the old one left in the registry.
pub proof fn law_run_replaces_target(m: Session, arguments: Seq<Seq<char>>, status: Status)
    requires
        valid(m),
        m.phase is Idle,
        m.target is Stopped,
        status.is_terminal(),
    ensures
        ({
            let (m1, o1) = react(m, EventSpec::Command(CommandSpec::Run(arguments)));
            let (m2, o2) = react(m1, EventSpec::Reply(Reply::Waited(status)));
            &&& o1 == (Outcome { report: None, next: Next::Perform(Request::Kill) })
            &&& m1.target == m.target
            &&& o2 == (Outcome {
                report: Some(Report::Status(status)),
                next: Next::Perform(Request::Spawn),
            })
            &&& m2.target is Absent
            &&& unpatched(m2.breakpoints)
            &&& m2.arguments == arguments
        }),
{
    reveal(react);
}

/// A run with no target alive asks for the new target at once.
pub proof fn law_run_starts_target(m: Session, arguments: Seq<Seq<char>>)
    requires
        valid(m),
        m.phase is Idle,
        !(m.target is Stopped),
    ensures
        react(m, EventSpec::Command(CommandSpec::Run(arguments))).1 == (Outcome {
            report: None,
            next: Next::Perform(Request::Spawn),
        }),
{
    reveal(react);
}

/// Quitting never leaves a target behind: a live one is killed, and once
/// it is seen to have ended, how it ended is reported and the session ends;
/// with none alive the session ends at once.
pub proof fn law_quit_ends_target(m: Session, status: Status)
    requires
        valid(m),
        m.phase is Idle,
        status.is_terminal(),
    ensures
        ({
            let (m1, o1) = react(m, EventSpec::Command(CommandSpec::Quit));
            let (m2, o2) = react(m1, EventSpec::Reply(Reply::Waited(status)));
            if m.target is Stopped {
                &&& o1 == (Outcome { report: None, next: Next::Perform(Request::Kill) })
                &&& o2 == (Outcome { report: Some(Report::Status(status)), next: Next::Exit })
                &&& m2.target is Absent
                &&& m2.phase is Finished
            } else {
                &&& o1 == (Outcome { report: None, next: Next::Exit })
                &&& m1.phase is Finished
            }
        }),
{
    reveal(react);
}

/// A target that is still there is never given up for gone: when the kill
/// before a new run, or before the end of the session, is answered with a
/// stop, the stop is reported like any other, the target is kept where it
/// stopped, no new target is asked for, and the session goes on.
pub proof fn law_kill_answered_by_stop_keeps_target(
    m: Session,
    signal: i32,
    instruction_pointer: usize,
)
    requires
        valid(m),
        m.phase is Replacing || m.phase is Quitting,
    ensures
        ({
            let stop = Status::Stopped(signal, instruction_pointer);
            let (after, outcome) = react(m, EventSpec::Reply(Reply::Waited(stop)));
            let shown = shown_stop(m.breakpoints, instruction_pointer);
            &&& outcome == (Outcome {
                report: Some(Report::Status(Status::Stopped(signal, shown))),
                next: Next::AwaitCommand,
            })
            &&& after.target == (Target::Stopped {
                pid: pid_of(m.target),
                instruction_pointer: shown,
                at_trap: trap_under(m.breakpoints, instruction_pointer),
            })
            &&& after.breakpoints == m.breakpoints
            &&& after.phase is Idle
        }),
{
    reveal(react);
}

/// No target is ever taken for gone on the word of a stop, and none is asked
/// for while one is there: whatever the session is doing, a target is given
/// up only on a status that ends it, on a failure, or on an event that was
/// not expected before its first stop; and a new target is asked for only
/// when none is held.
pub proof fn law_one_target_at_a_time(m: Session, event: EventSpec)
    requires
        valid(m),
    ensures
        ({
            let (after, outcome) = react(m, event);
            &&& outcome.next == Next::Perform(Request::Spawn) ==> after.target is Absent
            &&& m.target is Stopped && event is Reply && event->Reply_0 is Waited
                && event->Reply_0->Waited_0 is Stopped ==> after.target is Stopped
        }),
{
    reveal(react);
}

/// Continuing or asking for a backtrace with no suspended target is
/// reported as such and changes nothing.
pub proof fn law_commands_need_target(m: Session)
    requires
        valid(m),
        m.phase is Idle,
        !(m.target is Stopped),
    ensures
        react(m, EventSpec::Command(CommandSpec::Continue)) == (
            m,
            Outcome { report: Some(Report::NoActiveTarget), next: Next::AwaitCommand },
        ),
        react(m, EventSpec::Command(CommandSpec::BackTrace)) == (
            m,
            Outcome { report: Some(Report::NoActiveTarget), next: Next::AwaitCommand },
        ),
{
    reveal(react);
}

/// A backtrace ends with the frame that lies in `main`: that frame is shown
/// and nothing more is read from the target.
pub proof fn law_walk_ends_in_main(m: Session, word: usize)
    requires
        valid(m),
        m.phase is ReadingFrame,
        in_main(m.symbols, m.phase->ReadingFrame_return_address),
    ensures
        react(m, EventSpec::Reply(Reply::Word(word))).1 == (Outcome {
            report: Some(Report::Frame { address: m.phase->ReadingFrame_return_address }),
            next: Next::AwaitCommand,
        }),
{
    reveal(react);
}

/// A backtrace ends where a frame cannot be read.
pub proof fn law_walk_ends_where_unreadable(m: Session, errno: i32)
    requires
        valid(m),
        m.phase is ReadingFrame || m.phase is ReadingReturn,
    ensures
        react(m, EventSpec::Reply(Reply::Failed { errno })).1 == (Outcome {
            report: None,
            next: Next::AwaitCommand,
        }),
{
    reveal(react);
}

/// A reply of the kind that the pending request calls for is never
/// unexpected.
pub proof fn law_fitting_reply_is_expected(m: Session, reply: Reply)
    requires
        valid(m),
        m.pending is Some,
        fits(m.pending->0, reply),
    ensures
        react(m, EventSpec::Reply(reply)).1.report != Some(Report::Unexpected),
{
    reveal(react);
}

/// Every reply that makes the session ask for another trace operation
/// spends some of its budget: no command keeps the target busy for ever,
/// and a backtrace reads at most two words for each of `MAX_FRAMES` frames.
pub proof fn law_reply_spends_budget(m: Session, reply: Reply)
    requires
        valid(m),
    ensures
        ({
            let (after, outcome) = react(m, EventSpec::Reply(reply));
            outcome.next is Perform && outcome.next != Next::Perform(Request::Spawn) ==> budget(
                after,
            ) < budget(m)
        }),
{
    reveal(react);
    match (m.phase, reply) {
        (Phase::Starting, _) => {
            lemma_next_unpatched(m.breakpoints, 0);
        },
        (Phase::Installing { number, address }, Reply::Written(byte)) => {
            lemma_next_unpatched(with_patch(m.breakpoints, address, Some(byte)), number + 1);
        },
        (Phase::Installing { number, .. }, _) => {
            lemma_next_unpatched(m.breakpoints, number + 1);
        },
        _ => {},
    }
}

/// `memory` is what the session's patches have made of the target's own
/// image `pristine`: where the registry records a trap, the trap opcode
/// stands in memory and the recorded byte is the image's own; everywhere
/// else memory is the image. A target that has not reported its first stop
/// has its image untouched.
pub open spec fn coherent(
    m: Session,
    memory: spec_fn(usize) -> u8,
    pristine: spec_fn(usize) -> u8,
) -> bool {
    match m.target {
        Target::Absent => true,
        Target::Starting { .. } => forall|a: usize| #[trigger] memory(a) == pristine(a),
        Target::Stopped { .. } => patched_image(m.breakpoints, memory, pristine),
    }
}

/// `memory` is the image `pristine` with the traps of the registry `s`
/// written into it, and the registry records the image's own byte for each.
pub open spec fn patched_image(
    s: Seq<BreakpointEntry>,
    memory: spec_fn(usize) -> u8,
    pristine: spec_fn(usize) -> u8,
) -> bool {
    forall|a: usize|
        match #[trigger] original_at(s, a) {
            Some(byte) => memory(a) == TRAP_OPCODE && byte == pristine(a),
            None => memory(a) == pristine(a),
        }
}

/// One write of the session keeps the registry and the memory together:
/// a trap written over the image's own byte and recorded with that byte, or
/// the recorded byte written back and the record cleared.
pub proof fn lemma_write_keeps_image(
    s: Seq<BreakpointEntry>,
    address: usize,
    record: Option<u8>,
    value: u8,
    memory: spec_fn(usize) -> u8,
    now: spec_fn(usize) -> u8,
    pristine: spec_fn(usize) -> u8,
)
    requires
        consistent(s),
        registered(s, address),
        patched_image(s, memory, pristine),
        forall|a: usize|
            #[trigger] now(a) == if a == address {
                value
            } else {
                memory(a)
            },
        match record {
            Some(byte) => original_at(s, address) is None && byte == memory(address) && value
                == TRAP_OPCODE,
            None => original_at(s, address) == Some(value),
        },
    ensures
        patched_image(with_patch(s, address, record), now, pristine),
{
    assert forall|a: usize|
        match #[trigger] original_at(with_patch(s, address, record), a) {
            Some(byte) => now(a) == TRAP_OPCODE && byte == pristine(a),
            None => now(a) == pristine(a),
        } by {
        lemma_patch_reads_back(s, address, record, a);
        assert(now(a) == if a == address {
            value
        } else {
            memory(a)
        });
    }
}

/// The reply comes from a target whose memory is `memory`: a write tells
/// the byte that stood at its address.
pub open spec fn truthful(request: Request, reply: Reply, memory: spec_fn(usize) -> u8) -> bool {
    match (request, reply) {
        (Request::WriteByte { address, .. }, Reply::Written(byte)) => byte == memory(address),
        _ => true,
    }
}

/// The memory once `request` was carried out with `reply`: only a write
/// that succeeded changes it, at its own address.
pub open spec fn written(request: Request, reply: Reply, memory: spec_fn(usize) -> u8) -> spec_fn(
    usize,
) -> u8 {
    match (request, reply) {
        (Request::WriteByte { address, value }, Reply::Written(_)) => |a: usize|
            if a == address {
                value
            } else {
                memory(a)
            },
        _ => memory,
    }
}

/// No trap is recorded in a registry without patches.
pub proof fn lemma_unpatched_reads_none(s: Seq<BreakpointEntry>, address: usize)
    requires
        unpatched(s),
    ensures
        original_at(s, address) is None,
    decreases s.len(),
{
    if s.len() > 0 {
        assert(s[s.len() - 1].original_byte is None);
        assert forall|i: int| 0 <= i < s.drop_last().len() implies (#[trigger] s.drop_last()[
            i
        ]).original_byte is None by {
            assert(s.drop_last()[i] == s[i]);
        }
        lemma_unpatched_reads_none(s.drop_last(), address);
    }
}

/// The registry and the target's memory never part: as long as nothing but
/// the session's own writes changes the target's code, every trap that the
/// registry records stands in memory over the byte recorded for it, and no
/// other byte differs from the target's own image. This holds after every
/// reply of a target that tells the truth about its memory.
pub proof fn law_patches_match_memory(
    m: Session,
    reply: Reply,
    memory: spec_fn(usize) -> u8,
    pristine: spec_fn(usize) -> u8,
)
    requires
        valid(m),
        m.pending is Some,
        m.pending != Some(Request::Spawn),
        fits(m.pending->0, reply),
        truthful(m.pending->0, reply, memory),
        coherent(m, memory, pristine),
    ensures
        coherent(
            react(m, EventSpec::Reply(reply)).0,
            written(m.pending->0, reply, memory),
            pristine,
        ),
{
    reveal(react);
    let after = react(m, EventSpec::Reply(reply)).0;
    let now = written(m.pending->0, reply, memory);
    let s = m.breakpoints;
    match (m.phase, reply) {
        (Phase::Starting, Reply::Waited(Status::Stopped(_, _))) => {
            assert forall|a: usize|
                match #[trigger] original_at(after.breakpoints, a) {
                    Some(byte) => now(a) == TRAP_OPCODE && byte == pristine(a),
                    None => now(a) == pristine(a),
                } by {
                lemma_unpatched_reads_none(s, a);
            }
        },
        (Phase::Installing { number, address }, Reply::Written(byte)) => {
            assert(s[number as int].address == address);
            lemma_write_keeps_image(s, address, Some(byte), TRAP_OPCODE, memory, now, pristine);
        },
        (Phase::Patching { number, address }, Reply::Written(byte)) => {
            assert(s[number as int].address == address);
            lemma_write_keeps_image(s, address, Some(byte), TRAP_OPCODE, memory, now, pristine);
        },
        (Phase::Restoring { address }, Reply::Written(_)) => {
            lemma_original_at(s, address);
            lemma_write_keeps_image(
                s,
                address,
                None,
                original_at(s, address)->0,
                memory,
                now,
                pristine,
            );
        },
        (Phase::Reinstalling { address }, Reply::Written(byte)) => {
            lemma_write_keeps_image(s, address, Some(byte), TRAP_OPCODE, memory, now, pristine);
        },
        _ => {
            if after.target is Stopped {
                assert(after.breakpoints == s);
                assert(now == memory);
            }
        },
    }
}

/// The single step of a step-over executes the target's own instruction:
/// while the session waits for that step, the byte at the breakpoint is the
/// one of the target's own image.
pub proof fn law_step_runs_original(
    m: Session,
    memory: spec_fn(usize) -> u8,
    pristine: spec_fn(usize) -> u8,
)
    requires
        valid(m),
        m.phase is Stepping,
        coherent(m, memory, pristine),
    ensures
        memory(m.phase->Stepping_address) == pristine(m.phase->Stepping_address),
{
    assert(original_at(m.breakpoints, m.phase->Stepping_address) is None);
}

/// While the target runs freely, the trap stands at every address at which
/// the registry records one.
pub proof fn law_traps_stand_while_running(
    m: Session,
    memory: spec_fn(usize) -> u8,
    pristine: spec_fn(usize) -> u8,
    address: usize,
)
    requires
        valid(m),
        m.phase is Continuing,
        coherent(m, memory, pristine),
        original_at(m.breakpoints, address) is Some,
    ensures
        memory(address) == TRAP_OPCODE,
{
}

/// A breakpoint keeps its number: no turn of the session takes an entry
/// out of the registry or moves one, and only a breakpoint command with a
/// well-formed address adds one, at the end.
pub proof fn law_numbers_are_stable(m: Session, event: EventSpec)
    requires
        valid(m),
    ensures
        ({
            let after = react(m, event).0;
            &&& after.breakpoints.len() >= m.breakpoints.len()
            &&& forall|i: int|
                0 <= i < m.breakpoints.len() ==> (#[trigger] after.breakpoints[i]).address
                    == m.breakpoints[i].address
            &&& after.breakpoints.len() > m.breakpoints.len() ==> {
                &&& m.phase is Idle
                &&& event is Command
                &&& event->Command_0 is Breakpoint
                &&& address_of(event->Command_0->Breakpoint_0) is Some
                &&& after.breakpoints.len() == m.breakpoints.len() + 1
                &&& after.breakpoints[m.breakpoints.len() as int].address == address_of(
                    event->Command_0->Breakpoint_0,
                )->0
            }
        }),
{
    reveal(react);
}

/// Replies handed in one run after another are replies handed in as one
/// run.
pub proof fn lemma_replay_concat(m: Session, first: Seq<Reply>, second: Seq<Reply>)
    ensures
        replay(m, first + second) == (
            replay(replay(m, first).0, second).0,
            replay(m, first).1 + replay(replay(m, first).0, second).1,
        ),
    decreases second.len(),
{
    if second.len() == 0 {
        assert(first + second =~= first);
        assert(replay(m, first).1 + Seq::<Report>::empty() =~= replay(m, first).1);
    } else {
        assert((first + second).drop_last() =~= first + second.drop_last());
        assert((first + second).last() == second.last());
        lemma_replay_concat(m, first, second.drop_last());
        let middle = replay(m, first).0;
        let before = replay(middle, second.drop_last());
        let said_last = said(react(before.0, EventSpec::Reply(second.last())).1.report);
        assert((replay(m, first).1 + before.1) + said_last =~= replay(m, first).1 + (before.1
            + said_last));
    }
}

/// One reply handed in is one turn of the session.
pub proof fn lemma_replay_one(m: Session, reply: Reply)
    ensures
        replay(m, seq![reply]) == (
            react(m, EventSpec::Reply(reply)).0,
            said(react(m, EventSpec::Reply(reply)).1.report),
        ),
{
    reveal_with_fuel(replay, 3);
    assert(seq![reply].drop_last() =~= Seq::<Reply>::empty());
    assert(Seq::<Report>::empty() + said(react(m, EventSpec::Reply(reply)).1.report) =~= said(
        react(m, EventSpec::Reply(reply)).1.report,
    ));
}

/// What a target with the stack `stack` replies during that walk, where
/// `errno` is its answer for a word that cannot be read.
pub open spec fn stack_replies(
    symbols: SymbolTables,
    stack: spec_fn(usize) -> Option<usize>,
    errno: i32,
    instruction_pointer: usize,
    frame_pointer: usize,
    depth: usize,
) -> Seq<Reply>
    decreases MAX_FRAMES - depth,
{
    if walk_ends(symbols, instruction_pointer, frame_pointer, depth) {
        Seq::empty()
    } else {
        match (stack((frame_pointer + WORD_SIZE) as usize), stack(frame_pointer)) {
            (Some(return_address), Some(caller_frame)) => seq![
                Reply::Word(return_address),
                Reply::Word(caller_frame),
            ] + stack_replies(
                symbols,
                stack,
                errno,
                return_address,
                caller_frame,
                (depth + 1) as usize,
            ),
            (Some(return_address), None) => seq![
                Reply::Word(return_address),
                Reply::Failed { errno },
            ],
            (None, _) => seq![Reply::Failed { errno }],
        }
    }
}

/// The reports that show the frames at `addresses`.
pub open spec fn frames(addresses: Seq<usize>) -> Seq<Report> {
    Seq::new(addresses.len(), |i: int| Report::Frame { address: addresses[i] })
}

/// From any frame on, the session shows the rest of the call chain and
/// then waits for a command, with nothing else changed.
pub proof fn lemma_walk_shows_chain(
    m: Session,
    stack: spec_fn(usize) -> Option<usize>,
    errno: i32,
    instruction_pointer: usize,
    frame_pointer: usize,
    depth: usize,
)
    requires
        depth < MAX_FRAMES,
    ensures
        ({
            let (walking, outcome) = walk(m, instruction_pointer, frame_pointer, depth);
            let (end, reports) = replay(
                walking,
                stack_replies(m.symbols, stack, errno, instruction_pointer, frame_pointer, depth),
            );
            &&& end == settle(m, None).0
            &&& said(outcome.report) + reports == frames(
                call_chain(m.symbols, stack, instruction_pointer, frame_pointer, depth),
            )
        }),
    decreases MAX_FRAMES - depth,
{
    reveal(react);
    let (walking, outcome) = walk(m, instruction_pointer, frame_pointer, depth);
    let replies = stack_replies(
        m.symbols,
        stack,
        errno,
        instruction_pointer,
        frame_pointer,
        depth,
    );
    let shown = seq![Report::Frame { address: instruction_pointer }];
    assert(said(outcome.report) =~= shown);
    assert(frames(seq![instruction_pointer]) =~= shown);
    if walk_ends(m.symbols, instruction_pointer, frame_pointer, depth) {
        assert(shown + Seq::<Report>::empty() =~= shown);
    } else {
        let failed = Reply::Failed { errno };
        match (stack((frame_pointer + WORD_SIZE) as usize), stack(frame_pointer)) {
            (Some(return_address), Some(caller_frame)) => {
                let one = seq![Reply::Word(return_address)];
                let two = seq![Reply::Word(caller_frame)];
                let tail = stack_replies(
                    m.symbols,
                    stack,
                    errno,
                    return_address,
                    caller_frame,
                    (depth + 1) as usize,
                );
                assert(replies =~= one + (two + tail));
                let reading = react(walking, EventSpec::Reply(Reply::Word(return_address))).0;
                let (next, next_outcome) = walk(
                    reading,
                    return_address,
                    caller_frame,
                    (depth + 1) as usize,
                );
                lemma_replay_one(walking, Reply::Word(return_address));
                lemma_replay_one(reading, Reply::Word(caller_frame));
                lemma_walk_shows_chain(
                    reading,
                    stack,
                    errno,
                    return_address,
                    caller_frame,
                    (depth + 1) as usize,
                );
                lemma_replay_concat(reading, two, tail);
                lemma_replay_concat(walking, one, two + tail);
                let rest = call_chain(
                    m.symbols,
                    stack,
                    return_address,
                    caller_frame,
                    (depth + 1) as usize,
                );
                assert(frames(seq![instruction_pointer] + rest) =~= shown + frames(rest));
                assert(said(None::<Report>) =~= Seq::<Report>::empty());
                assert(shown + (Seq::<Report>::empty() + (said(next_outcome.report) + replay(
                    next,
                    tail,
                ).1)) =~= shown + frames(rest));
            },
            (Some(return_address), None) => {
                let one = seq![Reply::Word(return_address)];
                let two = seq![failed];
                assert(replies =~= one + two);
                let reading = react(walking, EventSpec::Reply(Reply::Word(return_address))).0;
                lemma_replay_one(walking, Reply::Word(return_address));
                lemma_replay_one(reading, failed);
                lemma_replay_concat(walking, one, two);
                assert(said(None::<Report>) =~= Seq::<Report>::empty());
                assert(shown + (Seq::<Report>::empty() + Seq::<Report>::empty()) =~= shown);
            },
            (None, _) => {
                lemma_replay_one(walking, failed);
                assert(said(None::<Report>) =~= Seq::<Report>::empty());
                assert(shown + Seq::<Report>::empty() =~= shown);
            },
        }
    }
}

/// A backtrace shows the call chain of the stopped target, frame by frame
/// from the address where it stopped, and nothing else: handed the frame
/// pointer and then what the stack holds, the session reports exactly the
/// frames of `call_chain` and waits for the next command, with the target
/// and the registry as they were.
pub proof fn law_backtrace_shows_call_chain(
    m: Session,
    stack: spec_fn(usize) -> Option<usize>,
    errno: i32,
    instruction_pointer: usize,
    frame_pointer: usize,
)
    requires
        valid(m),
        m.phase is Idle,
        m.target is Stopped,
    ensures
        ({
            let shown = shown_address(m.target);
            let (asked, o1) = react(m, EventSpec::Command(CommandSpec::BackTrace));
            let (first, o2) = react(
                asked,
                EventSpec::Reply(Reply::Registers { instruction_pointer, frame_pointer }),
            );
            let (end, reports) = replay(
                first,
                stack_replies(m.symbols, stack, errno, shown, frame_pointer, 0),
            );
            &&& o1 == (Outcome { report: None, next: Next::Perform(Request::ReadRegisters) })
            &&& said(o2.report) + reports == frames(
                call_chain(m.symbols, stack, shown, frame_pointer, 0),
            )
            &&& end == m
            &&& call_chain(m.symbols, stack, shown, frame_pointer, 0).len() <= MAX_FRAMES
        }),
{
    reveal(react);
    let shown = shown_address(m.target);
    let asked = react(m, EventSpec::Command(CommandSpec::BackTrace)).0;
    lemma_walk_shows_chain(asked, stack, errno, shown, frame_pointer, 0);
    lemma_call_chain_is_bounded(m.symbols, stack, shown, frame_pointer, 0);
}

} // verus!
