//! What the session reports, as the lines shown to the user.

use vstd::prelude::*;
use vstd::string::*;
use crate::debugger::Debugger;
use crate::protocol::{Report, Request, Status};
use crate::ptrace;
use crate::symbols::{
    function_at, line_at, Function, FunctionSpec, Line, LineSpec, SymbolResolver, SymbolTables,
};
use crate::text::{count_text, decimal, decimal_text, hexadecimal, hexadecimal_text};

verus! {

/// The function and the source line that own `address`, as
/// `function (file:line)`, with `?` for what is not known.
pub open spec fn place(symbols: SymbolTables, address: usize) -> Seq<char> {
    let function = match function_at(symbols, address) {
        Some(name) => name,
        None => "?"@,
    };
    let line = match line_at(symbols, address) {
        Some(row) => row.file + ":"@ + decimal(row.number as int),
        None => "?"@,
    };
    function + " ("@ + line + ")"@
}

/// The name to show for a signal: its own, or its number where the system
/// has no name for it.
pub open spec fn signal_text(number: i32, name: Option<Seq<char>>) -> Seq<char> {
    match name {
        Some(name) => name,
        None => "signal "@ + decimal(number as int),
    }
}

/// The line that tells of a change of state of the target. A stop is shown
/// with the function and the source line that own its address.
pub open spec fn status_text(status: Status, signal: Seq<char>, symbols: SymbolTables) -> Seq<
    char,
> {
    match status {
        Status::Exited(code) => "target exited (status "@ + decimal(code as int) + ")"@,
        Status::Signaled(_) => "target signaled(killed) by "@ + signal,
        Status::Stopped(_, address) => "target stopped at "@ + hexadecimal(address as nat)
            + " by signal "@ + signal + " in "@ + place(symbols, address),
    }
}

/// The signal that a report names, if it names one.
pub open spec fn signal_in(report: Report) -> Option<i32> {
    match report {
        Report::Status(Status::Signaled(signal)) => Some(signal),
        Report::Status(Status::Stopped(signal, _)) => Some(signal),
        _ => None,
    }
}

/// The line that tells of a failed patch.
pub open spec fn patch_failure_text(address: usize, errno: i32) -> Seq<char> {
    "failed to set breakpoint at position "@ + hexadecimal(address as nat) + ", error "@
        + decimal(errno as int)
}

/// The lines shown for a report.
pub open spec fn report_text(report: Report, signal: Seq<char>, symbols: SymbolTables) -> Seq<
    char,
> {
    match report {
        Report::Status(status) => status_text(status, signal, symbols),
        Report::Frame { address } => place(symbols, address),
        Report::BreakpointSet { number, address, patch_error } => {
            let set = "set breakpoint "@ + decimal(number as int) + " at position "@
                + hexadecimal(address as nat);
            match patch_error {
                Some(errno) => patch_failure_text(address, errno) + "\n"@ + set,
                None => set,
            }
        },
        Report::PatchFailed { address, errno } => patch_failure_text(address, errno),
        Report::InvalidAddress => "invalid breakpoint format"@,
        Report::NoActiveTarget => "please run target first"@,
        Report::StartFailed => "Error starting subprocess"@,
        Report::TraceFailed { request, errno } => (if request == Request::Kill {
            "failed to terminate target, error "@
        } else {
            "failed to run command, error "@
        }) + decimal(errno as int),
        Report::Unexpected => "unexpected event"@,
    }
}

/// The line that lists a function: its name, where its code begins, and
/// how long it is.
pub open spec fn function_text(f: FunctionSpec) -> Seq<char> {
    "  * "@ + f.name + " (located at "@ + hexadecimal(f.address as nat) + ", "@ + decimal(
        f.length as int,
    ) + " bytes long)"@
}

/// The line that lists a row of the line table: file and line, and the
/// address where the line's code begins.
pub open spec fn row_text(row: LineSpec) -> Seq<char> {
    "  * "@ + row.file + ":"@ + decimal(row.number as int) + " (at "@ + hexadecimal(
        row.address as nat,
    ) + ")"@
}

/// The listing of a target's symbols: a heading and the functions, a
/// heading and the rows of the line table, each in the order of its table.
pub open spec fn listing(tables: SymbolTables) -> Seq<Seq<char>> {
    seq!["Functions:"@] + Seq::new(
        tables.functions.len(),
        |i: int| function_text(tables.functions[i]),
    ) + seq!["Line numbers:"@] + Seq::new(tables.lines.len(), |i: int| row_text(tables.lines[i]))
}

/// Writes the line that lists a function.
pub fn render_function(function: &Function) -> (text: String)
    ensures
        text@ == function_text(function@),
{
    let text = String::from_str("  * ").concat(function.name.as_str()).concat(
        " (located at ",
    ).concat(hexadecimal_text(function.address).as_str()).concat(", ").concat(
        count_text(function.length).as_str(),
    ).concat(" bytes long)");
    assert(text@ =~= function_text(function@));
    text
}

/// Writes the line that lists a row of the line table.
pub fn render_row(row: &Line) -> (text: String)
    ensures
        text@ == row_text(row@),
{
    let text = String::from_str("  * ").concat(row.file.as_str()).concat(":").concat(
        count_text(row.number).as_str(),
    ).concat(" (at ").concat(hexadecimal_text(row.address).as_str()).concat(")");
    assert(text@ =~= row_text(row@));
    text
}

/// Writes the listing of a target's symbols, line by line.
pub fn render_symbols(resolver: &SymbolResolver) -> (lines: Vec<String>)
    ensures
        Seq::new(lines@.len(), |i: int| lines@[i]@) == listing(resolver@),
{
    let functions = resolver.functions();
    let rows = resolver.lines();
    let ghost tables = resolver@;
    let mut lines: Vec<String> = Vec::new();
    lines.push(String::from_str("Functions:"));
    let mut i: usize = 0;
    while i < functions.len()
        invariant
            i <= functions.len(),
            tables.functions == Seq::new(functions@.len(), |k: int| functions@[k]@),
            lines@.len() == 1 + i,
            lines@[0]@ == "Functions:"@,
            forall|k: int| 0 <= k < i ==> (#[trigger] lines@[1 + k])@ == function_text(
                tables.functions[k],
            ),
        decreases functions.len() - i,
    {
        lines.push(render_function(&functions[i]));
        i += 1;
    }
    lines.push(String::from_str("Line numbers:"));
    let ghost head = lines@;
    let mut j: usize = 0;
    while j < rows.len()
        invariant
            j <= rows.len(),
            tables.lines == Seq::new(rows@.len(), |k: int| rows@[k]@),
            head.len() == 2 + tables.functions.len(),
            lines@.len() == head.len() + j,
            forall|k: int| 0 <= k < head.len() ==> lines@[k] == head[k],
            forall|k: int| 0 <= k < j ==> (#[trigger] lines@[head.len() + k])@ == row_text(
                tables.lines[k],
            ),
        decreases rows.len() - j,
    {
        lines.push(render_row(&rows[j]));
        j += 1;
    }
    proof {
        let shown = Seq::new(lines@.len(), |k: int| lines@[k]@);
        let wanted = listing(tables);
        assert(shown.len() == wanted.len());
        assert forall|k: int| 0 <= k < shown.len() implies shown[k] == wanted[k] by {
            let n = tables.functions.len() as int;
            if k == 0 {
                assert(lines@[0] == head[0]);
            } else if k <= n {
                assert(lines@[k] == head[k]);
                assert(head[1 + (k - 1)]@ == function_text(tables.functions[k - 1]));
            } else if k == n + 1 {
                assert(lines@[k] == head[k]);
            } else {
                assert(lines@[head.len() + (k - n - 2)]@ == row_text(tables.lines[k - n - 2]));
            }
        }
        assert(shown =~= wanted);
    }
    lines
}

/// Writes the function and the source line that own `address`.
pub fn render_place(resolver: &SymbolResolver, address: usize) -> (text: String)
    ensures
        text@ == place(resolver@, address),
{
    let function = match resolver.function_containing(address) {
        Some(name) => name,
        None => String::from_str("?"),
    };
    let line = match resolver.line_containing(address) {
        Some(row) => {
            let number = count_text(row.number);
            row.file.concat(":").concat(number.as_str())
        },
        None => String::from_str("?"),
    };
    let text = function.concat(" (").concat(line.as_str()).concat(")");
    assert(text@ =~= place(resolver@, address));
    text
}

/// Writes the line that tells of a change of state of the target, given
/// the name of the signal that it was due to.
pub fn render_status(status: Status, signal: &str, resolver: &SymbolResolver) -> (text: String)
    ensures
        text@ == status_text(status, signal@, resolver@),
{
    match status {
        Status::Exited(code) => {
            let text = String::from_str("target exited (status ").concat(
                decimal_text(code as i64).as_str(),
            ).concat(")");
            assert(text@ =~= status_text(status, signal@, resolver@));
            text
        },
        Status::Signaled(_) => {
            let text = String::from_str("target signaled(killed) by ").concat(signal);
            assert(text@ =~= status_text(status, signal@, resolver@));
            text
        },
        Status::Stopped(_, address) => {
            let text = String::from_str("target stopped at ").concat(
                hexadecimal_text(address).as_str(),
            ).concat(" by signal ").concat(signal).concat(" in ").concat(
                render_place(resolver, address).as_str(),
            );
            assert(text@ =~= status_text(status, signal@, resolver@));
            text
        },
    }
}

/// Writes the line that tells of a failed patch.
pub fn render_patch_failure(address: usize, errno: i32) -> (text: String)
    ensures
        text@ == patch_failure_text(address, errno),
{
    let text = String::from_str("failed to set breakpoint at position ").concat(
        hexadecimal_text(address).as_str(),
    ).concat(", error ").concat(decimal_text(errno as i64).as_str());
    assert(text@ =~= patch_failure_text(address, errno));
    text
}

/// Writes the lines shown for a report, given the name of the signal that
/// it names, if it names one.
pub fn render_report(report: Report, signal: &str, resolver: &SymbolResolver) -> (text: String)
    ensures
        text@ == report_text(report, signal@, resolver@),
{
    match report {
        Report::Status(status) => render_status(status, signal, resolver),
        Report::Frame { address } => render_place(resolver, address),
        Report::BreakpointSet { number, address, patch_error } => {
            let set = String::from_str("set breakpoint ").concat(
                count_text(number).as_str(),
            ).concat(" at position ").concat(hexadecimal_text(address).as_str());
            let text = match patch_error {
                Some(errno) => render_patch_failure(address, errno).concat("\n").concat(
                    set.as_str(),
                ),
                None => set,
            };
            assert(text@ =~= report_text(report, signal@, resolver@));
            text
        },
        Report::PatchFailed { address, errno } => render_patch_failure(address, errno),
        Report::InvalidAddress => String::from_str("invalid breakpoint format"),
        Report::NoActiveTarget => String::from_str("please run target first"),
        Report::StartFailed => String::from_str("Error starting subprocess"),
        Report::TraceFailed { request, errno } => {
            let opening = match request {
                Request::Kill => String::from_str("failed to terminate target, error "),
                _ => String::from_str("failed to run command, error "),
            };
            let text = opening.concat(decimal_text(errno as i64).as_str());
            assert(text@ =~= report_text(report, signal@, resolver@));
            text
        },
        Report::Unexpected => String::from_str("unexpected event"),
    }
}

/// The name to show for the signal of the given number, as this system
/// calls it; a number that is not positive is no signal's, and shown as it is.
pub fn name_signal(number: i32) -> (name: String)
    ensures
        number <= 0 ==> name@ == signal_text(number, None),
{
    // Signals are numbered from one on every system, so the system is asked
    // about positive numbers only: it decides which of them are signals, and
    // what each is called.
    if number <= 0 {
        return choose_signal_name(number, None);
    }
    let known = match ptrace::signal_of(number) {
        Some(signal) => Some(ptrace::signal_name(signal)),
        None => None,
    };
    choose_signal_name(number, known)
}

/// The name to show for the signal of a number, given what the system
/// calls it, if it has a name for it.
pub fn choose_signal_name(number: i32, known: Option<String>) -> (name: String)
    ensures
        name@ == signal_text(
            number,
            match known {
                Some(n) => Some(n@),
                None => None,
            },
        ),
{
    match known {
        Some(name) => name,
        None => {
            let name = String::from_str("signal ").concat(decimal_text(number as i64).as_str());
            assert(name@ =~= "signal "@ + decimal(number as int));
            name
        },
    }
}

impl Debugger {
    /// The line that tells the user of a change of state of the target.
    /// The signal's name is the one this system gives it.
    pub fn print_status(&self, status: Status) -> (text: String)
        ensures
            exists|signal: Seq<char>| text@ == #[trigger] status_text(status, signal, self@.symbols),
    {
        let signal = match status {
            Status::Exited(_) => String::new(),
            Status::Signaled(number) => name_signal(number),
            Status::Stopped(number, _) => name_signal(number),
        };
        let text = render_status(status, signal.as_str(), self.debug_data());
        assert(text@ == status_text(status, signal@, self@.symbols));
        text
    }

    /// The lines that tell the user of a report.
    pub fn describe(&self, report: Report) -> (text: String)
        ensures
            exists|signal: Seq<char>| text@ == #[trigger] report_text(report, signal, self@.symbols),
    {
        let signal = match report {
            Report::Status(Status::Signaled(number)) => name_signal(number),
            Report::Status(Status::Stopped(number, _)) => name_signal(number),
            _ => String::new(),
        };
        let text = render_report(report, signal.as_str(), self.debug_data());
        assert(text@ == report_text(report, signal@, self@.symbols));
        text
    }
}

} // verus!
