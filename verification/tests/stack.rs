use std::collections::HashMap;

use deet::stack::{frame_at, lies_in_main, trace, Frame, MAX_FRAMES, WORD_SIZE};
use deet::symbols::{Function, Line, SymbolResolver};

fn symbols() -> SymbolResolver {
    let function = |name: &str, address: usize, length: usize| Function {
        name: name.to_string(),
        address,
        length,
    };
    let line = |number: usize, address: usize| Line {
        file: "nest.c".to_string(),
        number,
        address,
    };
    SymbolResolver::new(
        vec![function("f", 0x1000, 0x20), function("g", 0x1020, 0x20), function("main", 0x1040, 0x40)],
        vec![line(2, 0x1000), line(7, 0x1020), line(8, 0x1028), line(12, 0x1040), line(14, 0x1048)],
    )
}

fn shown(frames: &[Frame]) -> Vec<(usize, Option<String>, Option<usize>)> {
    frames
        .iter()
        .map(|frame| {
            (frame.address, frame.function.clone(), frame.line.as_ref().map(|line| line.number))
        })
        .collect()
}

#[test]
fn a_nested_call_shows_three_frames_and_nothing_beyond_main_is_read() {
    let mut stack: HashMap<usize, usize> = HashMap::new();
    stack.insert(0x7008, 0x102c); // f returns into g
    stack.insert(0x7000, 0x7020);
    stack.insert(0x7028, 0x104c); // g returns into main
    stack.insert(0x7020, 0x7040);
    let reads = std::cell::RefCell::new(Vec::new());
    let frames = trace(0x1004, 0x7000, &symbols(), |address| {
        reads.borrow_mut().push(address);
        stack.get(&address).copied()
    });
    assert_eq!(
        shown(&frames),
        vec![
            (0x1004, Some("f".to_string()), Some(2)),
            (0x102c, Some("g".to_string()), Some(8)),
            (0x104c, Some("main".to_string()), Some(14)),
        ]
    );
    assert_eq!(reads.into_inner(), vec![0x7008, 0x7000, 0x7028, 0x7020]);
}

#[test]
fn a_walk_that_starts_in_main_reads_nothing() {
    let frames = trace(0x1040, 0x7000, &symbols(), |_| -> Option<usize> {
        panic!("nothing is to be read")
    });
    assert_eq!(shown(&frames), vec![(0x1040, Some("main".to_string()), Some(12))]);
}

#[test]
fn a_walk_ends_at_a_frame_pointer_of_zero() {
    let frames = trace(0x1004, 0, &symbols(), |_| -> Option<usize> {
        panic!("nothing is to be read")
    });
    assert_eq!(shown(&frames), vec![(0x1004, Some("f".to_string()), Some(2))]);
}

#[test]
fn a_walk_ends_where_the_stack_cannot_be_read() {
    let frames = trace(0x1004, 0x7000, &symbols(), |_| None);
    assert_eq!(frames.len(), 1);
    let frames = trace(0x1004, 0x7000, &symbols(), |address| {
        if address == 0x7008 {
            Some(0x102c)
        } else {
            None
        }
    });
    assert_eq!(shown(&frames), vec![(0x1004, Some("f".to_string()), Some(2))]);
}

#[test]
fn a_walk_ends_where_the_return_address_would_lie_beyond_memory() {
    let frames = trace(0x1004, usize::MAX - 8, &symbols(), |_| Some(0x1044));
    assert_eq!(frames.len(), 2);
    let frames = trace(0x1004, usize::MAX - 7, &symbols(), |_| -> Option<usize> {
        panic!("nothing is to be read")
    });
    assert_eq!(frames.len(), 1);
}

#[test]
fn a_walk_through_unknown_code_goes_on() {
    let mut stack: HashMap<usize, usize> = HashMap::new();
    stack.insert(0x7008, 0x9000);
    stack.insert(0x7000, 0x7020);
    stack.insert(0x7028, 0x1044);
    stack.insert(0x7020, 0x7040);
    let frames = trace(0x1004, 0x7000, &symbols(), |address| stack.get(&address).copied());
    assert_eq!(
        shown(&frames),
        vec![
            (0x1004, Some("f".to_string()), Some(2)),
            (0x9000, None, None),
            (0x1044, Some("main".to_string()), Some(12)),
        ]
    );
}

#[test]
fn a_chain_of_frames_that_never_ends_is_cut_at_the_limit() {
    let frames = trace(0x1004, 0x7000, &symbols(), |address| {
        if address == 0x7000 {
            Some(0x7000)
        } else {
            Some(0x1008)
        }
    });
    assert_eq!(frames.len(), MAX_FRAMES);
    assert_eq!(MAX_FRAMES, 128);
    assert_eq!(WORD_SIZE, 8);
    assert_eq!(frames[0].address, 0x1004);
    assert_eq!(frames[127].address, 0x1008);
}

#[test]
fn the_first_frame_is_where_the_walk_starts_and_every_frame_shows_its_own_address() {
    let resolver = symbols();
    let frames = trace(0x1029, 0x7000, &resolver, |address| {
        if address == 0x7008 {
            Some(0x9000)
        } else if address == 0x7000 {
            Some(0)
        } else {
            None
        }
    });
    assert_eq!(frames.len(), 2);
    assert_eq!(frames[0].address, 0x1029);
    for frame in &frames {
        assert_eq!(frame.function, resolver.function_containing(frame.address));
        assert_eq!(
            frame.line.as_ref().map(|line| line.number),
            resolver.line_containing(frame.address).map(|line| line.number)
        );
    }
}

#[test]
fn a_frame_shows_what_the_symbols_know() {
    let resolver = symbols();
    let frame = frame_at(&resolver, 0x1029);
    assert_eq!(frame.address, 0x1029);
    assert_eq!(frame.function, Some("g".to_string()));
    assert_eq!(frame.line.as_ref().map(|line| line.number), Some(8));
    assert!(!lies_in_main(&frame));
    assert!(lies_in_main(&frame_at(&resolver, 0x107f)));
    let nowhere = frame_at(&resolver, 0x5000);
    assert_eq!(nowhere.function, None);
    assert!(nowhere.line.is_none());
    assert!(!lies_in_main(&nowhere));
}
