//! Walking the stack of a stopped target: from the instruction pointer and
//! the frame pointer, frame by frame, to `main`.
//!
//! The walk relies on the usual chain of frame pointers: the word at the
//! frame pointer is the frame pointer of the caller, and the word above it
//! is the address that the function returns to.

use vstd::prelude::*;
use vstd::string::*;
use crate::symbols::{function_at, line_at, Line, SymbolResolver, SymbolTables};

verus! {

/// A backtrace never shows more frames than this, whatever the stack holds.
pub const MAX_FRAMES: usize = 128;

/// The size of a machine word on the stack, in bytes.
pub const WORD_SIZE: usize = 8;

/// The function that owns `address` is called `main`.
pub open spec fn in_main(symbols: SymbolTables, address: usize) -> bool {
    function_at(symbols, address) == Some("main"@)
}

/// The walk ends with the frame at `instruction_pointer`.
pub open spec fn walk_ends(
    symbols: SymbolTables,
    instruction_pointer: usize,
    frame_pointer: usize,
    depth: usize,
) -> bool {
    ||| in_main(symbols, instruction_pointer)
    ||| frame_pointer == 0
    ||| depth + 1 >= MAX_FRAMES
    ||| frame_pointer + WORD_SIZE > usize::MAX
}

/// The addresses of the frames that a walk shows, innermost first, when it
/// starts at `instruction_pointer` with `frame_pointer` and reads the stack
/// `stack`: a frame holds the frame pointer of its caller, and one word
/// above it the address to return to. The walk ends with the frame in
/// `main`, at a frame pointer of zero, at a word that cannot be read, and at
/// the latest with frame number `MAX_FRAMES`.
pub open spec fn call_chain(
    symbols: SymbolTables,
    stack: spec_fn(usize) -> Option<usize>,
    instruction_pointer: usize,
    frame_pointer: usize,
    depth: usize,
) -> Seq<usize>
    decreases MAX_FRAMES - depth,
{
    if walk_ends(symbols, instruction_pointer, frame_pointer, depth) {
        seq![instruction_pointer]
    } else {
        match (stack((frame_pointer + WORD_SIZE) as usize), stack(frame_pointer)) {
            (Some(return_address), Some(caller_frame)) => seq![instruction_pointer] + call_chain(
                symbols,
                stack,
                return_address,
                caller_frame,
                (depth + 1) as usize,
            ),
            _ => seq![instruction_pointer],
        }
    }
}

/// A call chain from frame number `depth` on has no more frames than are
/// left up to `MAX_FRAMES`, and at least one.
pub proof fn lemma_call_chain_is_bounded(
    symbols: SymbolTables,
    stack: spec_fn(usize) -> Option<usize>,
    instruction_pointer: usize,
    frame_pointer: usize,
    depth: usize,
)
    requires
        depth < MAX_FRAMES,
    ensures
        0 < call_chain(symbols, stack, instruction_pointer, frame_pointer, depth).len()
            <= MAX_FRAMES - depth,
        call_chain(symbols, stack, instruction_pointer, frame_pointer, depth)[0]
            == instruction_pointer,
    decreases MAX_FRAMES - depth,
{
    if !walk_ends(symbols, instruction_pointer, frame_pointer, depth) {
        match (stack((frame_pointer + WORD_SIZE) as usize), stack(frame_pointer)) {
            (Some(return_address), Some(caller_frame)) => {
                lemma_call_chain_is_bounded(
                    symbols,
                    stack,
                    return_address,
                    caller_frame,
                    (depth + 1) as usize,
                );
            },
            _ => {},
        }
    }
}

/// One frame of the call chain: an address in a function, with the name of
/// the function and the source line, where the symbols tell them.
pub struct Frame {
    pub address: usize,
    pub function: Option<String>,
    pub line: Option<Line>,
}

/// `frame` shows `address` as the symbols know it.
pub open spec fn shows(frame: Frame, symbols: SymbolTables, address: usize) -> bool {
    &&& frame.address == address
    &&& match frame.function {
        Some(name) => function_at(symbols, address) == Some(name@),
        None => function_at(symbols, address) is None,
    }
    &&& match frame.line {
        Some(row) => line_at(symbols, address) == Some(row@),
        None => line_at(symbols, address) is None,
    }
}

/// `frames` show the addresses `chain`, one frame each, in order.
pub open spec fn show_chain(frames: Seq<Frame>, symbols: SymbolTables, chain: Seq<usize>) -> bool {
    &&& frames.len() == chain.len()
    &&& forall|i: int| 0 <= i < frames.len() ==> shows(#[trigger] frames[i], symbols, chain[i])
}

/// Whatever `read_word` gives for an address is what `stack` holds there.
pub open spec fn reads<F: Fn(usize) -> Option<usize>>(
    read_word: F,
    stack: spec_fn(usize) -> Option<usize>,
) -> bool {
    forall|address: usize, word: Option<usize>| #[trigger]
        call_ensures(read_word, (address,), word) ==> word == stack(address)
}

/// The frame at `address`.
pub fn frame_at(resolver: &SymbolResolver, address: usize) -> (frame: Frame)
    ensures
        shows(frame, resolver@, address),
{
    Frame {
        address,
        function: resolver.function_containing(address),
        line: resolver.line_containing(address),
    }
}

/// `frame` lies in `main`.
pub fn lies_in_main(frame: &Frame) -> (found: bool)
    ensures
        found == match frame.function {
            Some(name) => name@ == "main"@,
            None => false,
        },
{
    match &frame.function {
        Some(name) => {
            let main = String::from_str("main");
            *name == main
        },
        None => false,
    }
}

/// The call chain of a stopped target, innermost frame first: starts at
/// `instruction_pointer` with `frame_pointer` and reads the stack through
/// `read_word`, which gives the word at an address or nothing where the
/// address cannot be read. Whatever stack `read_word` reads from, the frames
/// are those of `call_chain` on that stack.
pub fn trace<F: Fn(usize) -> Option<usize>>(
    instruction_pointer: usize,
    frame_pointer: usize,
    resolver: &SymbolResolver,
    read_word: F,
) -> (frames: Vec<Frame>)
    requires
        forall|address: usize| call_requires(read_word, (address,)),
    ensures
        0 < frames@.len() <= MAX_FRAMES,
        frames@[0].address == instruction_pointer,
        forall|i: int|
            0 <= i < frames@.len() ==> shows(#[trigger] frames@[i], resolver@, frames@[i].address),
        forall|stack: spec_fn(usize) -> Option<usize>| #[trigger]
            reads(read_word, stack) ==> show_chain(
                frames@,
                resolver@,
                call_chain(resolver@, stack, instruction_pointer, frame_pointer, 0),
            ),
{
    let mut frames: Vec<Frame> = Vec::new();
    let mut current = instruction_pointer;
    let mut frame = frame_pointer;
    let mut depth: usize = 0;
    loop
        invariant
            depth < MAX_FRAMES,
            frames@.len() == depth,
            depth == 0 ==> current == instruction_pointer,
            depth > 0 ==> frames@[0].address == instruction_pointer,
            forall|i: int|
                0 <= i < depth ==> shows(#[trigger] frames@[i], resolver@, frames@[i].address),
            forall|address: usize| call_requires(read_word, (address,)),
            forall|stack: spec_fn(usize) -> Option<usize>| #[trigger]
                reads(read_word, stack) ==> {
                    let whole = call_chain(
                        resolver@,
                        stack,
                        instruction_pointer,
                        frame_pointer,
                        0,
                    );
                    let rest = call_chain(resolver@, stack, current, frame, depth);
                    &&& whole.len() == depth + rest.len()
                    &&& forall|i: int| 0 <= i < depth ==> shows(#[trigger] frames@[i], resolver@, whole[i])
                    &&& forall|i: int| 0 <= i < rest.len() ==> whole[depth + i] == rest[i]
                },
        decreases MAX_FRAMES - depth,
    {
        let ghost before = frames@;
        let shown = frame_at(resolver, current);
        let in_main = lies_in_main(&shown);
        frames.push(shown);
        proof {
            assert forall|i: int| 0 <= i < depth + 1 implies shows(
                #[trigger] frames@[i],
                resolver@,
                frames@[i].address,
            ) by {
                if i < depth {
                    assert(frames@[i] == before[i]);
                }
            }
            if depth > 0 {
                assert(frames@[0] == before[0]);
            }
            assert forall|stack: spec_fn(usize) -> Option<usize>| #[trigger]
                reads(read_word, stack) implies {
                let whole = call_chain(resolver@, stack, instruction_pointer, frame_pointer, 0);
                forall|i: int| 0 <= i < depth + 1 ==> shows(#[trigger] frames@[i], resolver@, whole[i])
            } by {
                let whole = call_chain(resolver@, stack, instruction_pointer, frame_pointer, 0);
                lemma_call_chain_is_bounded(resolver@, stack, current, frame, depth);
                assert forall|i: int| 0 <= i < depth + 1 implies shows(
                    #[trigger] frames@[i],
                    resolver@,
                    whole[i],
                ) by {
                    if i < depth {
                        assert(frames@[i] == before[i]);
                    } else {
                        assert(whole[depth + 0] == call_chain(
                            resolver@,
                            stack,
                            current,
                            frame,
                            depth,
                        )[0]);
                    }
                }
            }
        }
        if in_main || frame == 0 || depth + 1 >= MAX_FRAMES || frame > usize::MAX - WORD_SIZE {
            assert(walk_ends(resolver@, current, frame, depth));
            return frames;
        }
        let return_address = match read_word(frame + WORD_SIZE) {
            Some(word) => word,
            None => {
                return frames;
            },
        };
        let caller_frame = match read_word(frame) {
            Some(word) => word,
            None => {
                return frames;
            },
        };
        proof {
            assert forall|stack: spec_fn(usize) -> Option<usize>| #[trigger]
                reads(read_word, stack) implies {
                let whole = call_chain(resolver@, stack, instruction_pointer, frame_pointer, 0);
                let rest = call_chain(
                    resolver@,
                    stack,
                    return_address,
                    caller_frame,
                    (depth + 1) as usize,
                );
                &&& whole.len() == depth + 1 + rest.len()
                &&& forall|i: int| 0 <= i < rest.len() ==> whole[depth + 1 + i] == rest[i]
            } by {
                let whole = call_chain(resolver@, stack, instruction_pointer, frame_pointer, 0);
                let here = call_chain(resolver@, stack, current, frame, depth);
                let rest = call_chain(
                    resolver@,
                    stack,
                    return_address,
                    caller_frame,
                    (depth + 1) as usize,
                );
                assert(here =~= seq![current] + rest);
                assert forall|i: int| 0 <= i < rest.len() implies whole[depth + 1 + i]
                    == rest[i] by {
                    assert(whole[depth + (i + 1)] == here[i + 1]);
                }
            }
        }
        current = return_address;
        frame = caller_frame;
        depth += 1;
    }
}

} // verus!
