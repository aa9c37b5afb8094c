//! Symbol lookup: which function and which source line own an instruction
//! address, and where a function of a given name begins.

use vstd::prelude::*;
use vstd::string::*;

verus! {

/// A function of the target: its name and the addresses of its code.
pub struct Function {
    pub name: String,
    pub address: usize,
    pub length: usize,
}

/// One row of the line table: the source line whose code begins at `address`.
pub struct Line {
    pub file: String,
    pub number: usize,
    pub address: usize,
}

/// What a `Function` holds, as plain values.
pub struct FunctionSpec {
    pub name: Seq<char>,
    pub address: usize,
    pub length: usize,
}

/// What a `Line` holds, as plain values.
pub struct LineSpec {
    pub file: Seq<char>,
    pub number: usize,
    pub address: usize,
}

impl View for Function {
    type V = FunctionSpec;

    open spec fn view(&self) -> FunctionSpec {
        FunctionSpec { name: self.name@, address: self.address, length: self.length }
    }
}

impl View for Line {
    type V = LineSpec;

    open spec fn view(&self) -> LineSpec {
        LineSpec { file: self.file@, number: self.number, address: self.address }
    }
}

impl Clone for Line {
    fn clone(&self) -> (copy: Line)
        ensures
            copy@ == self@,
    {
        Line { file: self.file.clone(), number: self.number, address: self.address }
    }
}

/// The tables of a resolver, as plain values.
pub struct SymbolTables {
    pub functions: Seq<FunctionSpec>,
    pub lines: Seq<LineSpec>,
}

/// `address` lies in the code of `f`.
pub open spec fn covers(f: FunctionSpec, address: usize) -> bool {
    f.address <= address && address - f.address < f.length
}

/// The position of the earliest function that satisfies `wanted`.
pub open spec fn first_function(
    functions: Seq<FunctionSpec>,
    wanted: spec_fn(FunctionSpec) -> bool,
) -> Option<int>
    decreases functions.len(),
{
    if functions.len() == 0 {
        None
    } else {
        match first_function(functions.drop_last(), wanted) {
            Some(i) => Some(i),
            None => if wanted(functions.last()) {
                Some(functions.len() - 1)
            } else {
                None
            },
        }
    }
}

/// The position of the function that owns `address`: the earliest one whose
/// code covers it.
pub open spec fn owner(functions: Seq<FunctionSpec>, address: usize) -> Option<int> {
    first_function(functions, |f: FunctionSpec| covers(f, address))
}

/// The position of the earliest function called `name`.
pub open spec fn named(functions: Seq<FunctionSpec>, name: Seq<char>) -> Option<int> {
    first_function(functions, |f: FunctionSpec| f.name == name)
}

/// The position of the row that owns `address` among those that begin at or
/// after `low`: the one that begins latest at or before `address`, and of
/// several that begin together the last.
pub open spec fn best_line(lines: Seq<LineSpec>, low: usize, address: usize) -> Option<int>
    decreases lines.len(),
{
    if lines.len() == 0 {
        None
    } else {
        let before = best_line(lines.drop_last(), low, address);
        let row = lines.last();
        if low <= row.address <= address && (before is None || lines[before->0].address
            <= row.address) {
            Some(lines.len() - 1)
        } else {
            before
        }
    }
}

/// The function name that owns `address`, if any function does.
pub open spec fn function_at(tables: SymbolTables, address: usize) -> Option<Seq<char>> {
    match owner(tables.functions, address) {
        Some(i) => Some(tables.functions[i].name),
        None => None,
    }
}

/// The row that owns `address`: the best row within the owning function.
pub open spec fn line_at(tables: SymbolTables, address: usize) -> Option<LineSpec> {
    match owner(tables.functions, address) {
        Some(i) => match best_line(tables.lines, tables.functions[i].address, address) {
            Some(k) => Some(tables.lines[k]),
            None => None,
        },
        None => None,
    }
}

/// Where the earliest function called `name` begins.
pub open spec fn entry_of(tables: SymbolTables, name: Seq<char>) -> Option<usize> {
    match named(tables.functions, name) {
        Some(i) => Some(tables.functions[i].address),
        None => None,
    }
}

/// What `first_function` finds: a position inside the table, whose function
/// is wanted, with no wanted function before it; or nothing wanted at all.
pub proof fn law_first_function_is_earliest(
    functions: Seq<FunctionSpec>,
    wanted: spec_fn(FunctionSpec) -> bool,
)
    ensures
        match first_function(functions, wanted) {
            Some(i) => 0 <= i < functions.len() && wanted(functions[i]) && forall|j: int|
                0 <= j < i ==> !wanted(#[trigger] functions[j]),
            None => forall|j: int| 0 <= j < functions.len() ==> !wanted(#[trigger] functions[j]),
        },
    decreases functions.len(),
{
    if functions.len() > 0 {
        let shorter = functions.drop_last();
        law_first_function_is_earliest(shorter, wanted);
        assert forall|j: int| 0 <= j < shorter.len() implies shorter[j] == functions[j] by {}
        match first_function(shorter, wanted) {
            Some(i) => {
                assert forall|j: int| 0 <= j < i implies !wanted(#[trigger] functions[j]) by {
                    assert(shorter[j] == functions[j]);
                }
            },
            None => {
                assert forall|j: int| 0 <= j < functions.len() - 1 implies !wanted(
                    #[trigger] functions[j],
                ) by {
                    assert(shorter[j] == functions[j]);
                }
            },
        }
    }
}

/// A hit in a prefix of the table is the hit in the whole table.
pub proof fn lemma_first_function_prefix(
    functions: Seq<FunctionSpec>,
    wanted: spec_fn(FunctionSpec) -> bool,
    k: int,
)
    requires
        0 <= k <= functions.len(),
        first_function(functions.subrange(0, k), wanted) is Some,
    ensures
        first_function(functions, wanted) == first_function(functions.subrange(0, k), wanted),
    decreases functions.len(),
{
    if k == functions.len() {
        assert(functions.subrange(0, k) =~= functions);
    } else {
        assert(functions.drop_last().subrange(0, k) =~= functions.subrange(0, k));
        lemma_first_function_prefix(functions.drop_last(), wanted, k);
    }
}

/// What `best_line` finds: a row that begins within `low ..= address`, with
/// no row beginning later within it, and none after it beginning as late.
pub proof fn law_best_line_begins_latest(lines: Seq<LineSpec>, low: usize, address: usize)
    ensures
        match best_line(lines, low, address) {
            Some(k) => {
                &&& 0 <= k < lines.len()
                &&& low <= lines[k].address <= address
                &&& forall|j: int|
                    0 <= j < lines.len() && low <= (#[trigger] lines[j]).address <= address
                        ==> lines[j].address <= lines[k].address
                &&& forall|j: int|
                    k < j < lines.len() && low <= (#[trigger] lines[j]).address <= address
                        ==> lines[j].address < lines[k].address
            },
            None => forall|j: int|
                0 <= j < lines.len() ==> !(low <= (#[trigger] lines[j]).address <= address),
        },
    decreases lines.len(),
{
    if lines.len() > 0 {
        let shorter = lines.drop_last();
        law_best_line_begins_latest(shorter, low, address);
        assert forall|j: int| 0 <= j < shorter.len() implies shorter[j] == lines[j] by {}
        match best_line(lines, low, address) {
            Some(k) => {
                assert forall|j: int|
                    0 <= j < lines.len() && low <= (#[trigger] lines[j]).address
                        <= address implies lines[j].address <= lines[k].address by {
                    if j < lines.len() - 1 {
                        assert(shorter[j] == lines[j]);
                    }
                }
                assert forall|j: int|
                    k < j < lines.len() && low <= (#[trigger] lines[j]).address
                        <= address implies lines[j].address < lines[k].address by {
                    if j < lines.len() - 1 {
                        assert(shorter[j] == lines[j]);
                    }
                }
            },
            None => {
                assert forall|j: int| 0 <= j < lines.len() implies !(low <= (
                #[trigger] lines[j]).address <= address) by {
                    if j < lines.len() - 1 {
                        assert(shorter[j] == lines[j]);
                    }
                }
            },
        }
    }
}

/// The symbols of one target. It does not change once built.
pub struct SymbolResolver {
    functions: Vec<Function>,
    lines: Vec<Line>,
}

impl View for SymbolResolver {
    type V = SymbolTables;

    closed spec fn view(&self) -> SymbolTables {
        SymbolTables {
            functions: Seq::new(self.functions@.len(), |i: int| self.functions@[i]@),
            lines: Seq::new(self.lines@.len(), |i: int| self.lines@[i]@),
        }
    }
}

impl SymbolResolver {
    /// A resolver over the given tables, kept in the order given.
    pub fn new(functions: Vec<Function>, lines: Vec<Line>) -> (resolver: SymbolResolver)
        ensures
            resolver@.functions == Seq::new(functions@.len(), |i: int| functions@[i]@),
            resolver@.lines == Seq::new(lines@.len(), |i: int| lines@[i]@),
    {
        SymbolResolver { functions, lines }
    }

    /// The functions, in the order given.
    pub fn functions(&self) -> (functions: &Vec<Function>)
        ensures
            self@.functions == Seq::new(functions@.len(), |i: int| functions@[i]@),
    {
        &self.functions
    }

    /// The rows of the line table, in the order given.
    pub fn lines(&self) -> (lines: &Vec<Line>)
        ensures
            self@.lines == Seq::new(lines@.len(), |i: int| lines@[i]@),
    {
        &self.lines
    }

    fn owner_index(&self, address: usize) -> (found: Option<usize>)
        ensures
            match found {
                Some(i) => owner(self@.functions, address) == Some(i as int) && i
                    < self.functions@.len(),
                None => owner(self@.functions, address) is None,
            },
    {
        let ghost wanted = |f: FunctionSpec| covers(f, address);
        let ghost table = self@.functions;
        let mut i: usize = 0;
        assert(table.subrange(0, 0) =~= Seq::<FunctionSpec>::empty());
        while i < self.functions.len()
            invariant
                i <= self.functions.len(),
                table == self@.functions,
                table.len() == self.functions@.len(),
                wanted == (|f: FunctionSpec| covers(f, address)),
                first_function(table.subrange(0, i as int), wanted) is None,
            decreases self.functions.len() - i,
        {
            assert(table.subrange(0, i + 1).drop_last() =~= table.subrange(0, i as int));
            assert(table.subrange(0, i + 1).last() == self.functions@[i as int]@);
            let f = &self.functions[i];
            if f.address <= address && address - f.address < f.length {
                proof {
                    lemma_first_function_prefix(table, wanted, i + 1);
                }
                return Some(i);
            }
            i += 1;
        }
        assert(table.subrange(0, i as int) =~= table);
        None
    }

    /// The name of the function that owns `address`.
    pub fn function_containing(&self, address: usize) -> (name: Option<String>)
        ensures
            match name {
                Some(n) => function_at(self@, address) == Some(n@),
                None => function_at(self@, address) is None,
            },
    {
        match self.owner_index(address) {
            Some(i) => Some(self.functions[i].name.clone()),
            None => None,
        }
    }

    /// The source line that owns `address`.
    pub fn line_containing(&self, address: usize) -> (line: Option<Line>)
        ensures
            match line {
                Some(l) => line_at(self@, address) == Some(l@),
                None => line_at(self@, address) is None,
            },
    {
        let low: usize = match self.owner_index(address) {
            Some(i) => self.functions[i].address,
            None => {
                return None;
            },
        };
        let ghost table = self@.lines;
        let mut best: Option<usize> = None;
        let mut i: usize = 0;
        assert(table.subrange(0, 0) =~= Seq::<LineSpec>::empty());
        while i < self.lines.len()
            invariant
                i <= self.lines.len(),
                table == self@.lines,
                table.len() == self.lines@.len(),
                match best {
                    Some(k) => k < i && best_line(table.subrange(0, i as int), low, address)
                        == Some(k as int),
                    None => best_line(table.subrange(0, i as int), low, address) is None,
                },
            decreases self.lines.len() - i,
        {
            assert(table.subrange(0, i + 1).drop_last() =~= table.subrange(0, i as int));
            assert(table.subrange(0, i + 1).last() == self.lines@[i as int]@);
            let row = &self.lines[i];
            if low <= row.address && row.address <= address {
                let later = match best {
                    Some(k) => {
                        assert(table.subrange(0, i + 1)[k as int] == self.lines@[k as int]@);
                        self.lines[k].address <= row.address
                    },
                    None => true,
                };
                if later {
                    best = Some(i);
                }
            }
            i += 1;
        }
        assert(table.subrange(0, i as int) =~= table);
        match best {
            Some(k) => Some(self.lines[k].clone()),
            None => None,
        }
    }

    /// Where the function called `name` begins.
    pub fn address_of_function(&self, name: &str) -> (address: Option<usize>)
        ensures
            address == entry_of(self@, name@),
    {
        let wanted_name = String::from_str(name);
        let ghost wanted = |f: FunctionSpec| f.name == name@;
        let ghost table = self@.functions;
        let mut i: usize = 0;
        assert(table.subrange(0, 0) =~= Seq::<FunctionSpec>::empty());
        while i < self.functions.len()
            invariant
                i <= self.functions.len(),
                table == self@.functions,
                table.len() == self.functions@.len(),
                wanted_name@ == name@,
                wanted == (|f: FunctionSpec| f.name == name@),
                first_function(table.subrange(0, i as int), wanted) is None,
            decreases self.functions.len() - i,
        {
            assert(table.subrange(0, i + 1).drop_last() =~= table.subrange(0, i as int));
            assert(table.subrange(0, i + 1).last() == self.functions@[i as int]@);
            if self.functions[i].name == wanted_name {
                proof {
                    lemma_first_function_prefix(table, wanted, i + 1);
                }
                return Some(self.functions[i].address);
            }
            i += 1;
        }
        assert(table.subrange(0, i as int) =~= table);
        None
    }
}

} // verus!
