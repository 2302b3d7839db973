//! Static debug information about the target: which source line and which
//! function an address belongs to, and where variables live.
//!
//! The tables are plain data that a loader fills once. Every query is a
//! search over them, so an answer never changes while a session runs.

use crate::control::VariableRef;
use crate::text::str_eq;
use vstd::prelude::*;

verus! {

/// One row of the line table: the first address of the code of a line.
pub struct Line {
    pub file: String,
    /// Line number, counted from 1.
    pub number: u64,
    pub address: u64,
}

/// Where a variable is stored.
#[derive(Clone, Copy, Debug, PartialEq, Eq)]
pub enum Location {
    /// At a fixed address.
    Address(u64),
    /// At a distance from the frame base of the function it belongs to.
    FramePointerOffset(i64),
}

/// A variable of the program.
pub struct Variable {
    pub name: String,
    pub declared_type: String,
    pub location: Location,
}

/// A function of the program.
pub struct Function {
    pub name: String,
    /// Address of the first instruction.
    pub address: u64,
    /// Number of bytes of code.
    pub text_length: u64,
    /// The local variables that the function declares.
    pub variables: Vec<Variable>,
}

/// The tables of the line starts, the functions and the global
/// variables of a program.
pub struct DebugInfo {
    pub lines: Vec<Line>,
    pub functions: Vec<Function>,
    pub globals: Vec<Variable>,
}

/// `addr` lies in the code of `f`.
pub open spec fn covers(f: Function, addr: u64) -> bool {
    f.address <= addr && addr - f.address < f.text_length
}

/// The first function at or after place `k` whose code holds `addr`.
pub open spec fn function_from(fs: Seq<Function>, addr: u64, k: int) -> Option<int>
    decreases fs.len() - k,
{
    if k < 0 || k >= fs.len() {
        None
    } else if covers(fs[k], addr) {
        Some(k)
    } else {
        function_from(fs, addr, k + 1)
    }
}

/// The first function at or after place `k` that is called `name`.
pub open spec fn function_named_from(fs: Seq<Function>, name: Seq<char>, k: int) -> Option<int>
    decreases fs.len() - k,
{
    if k < 0 || k >= fs.len() {
        None
    } else if fs[k].name@ == name {
        Some(k)
    } else {
        function_named_from(fs, name, k + 1)
    }
}

/// The first variable at or after place `k` that is called `name`.
pub open spec fn variable_from(vars: Seq<Variable>, name: Seq<char>, k: int) -> Option<int>
    decreases vars.len() - k,
{
    if k < 0 || k >= vars.len() {
        None
    } else if vars[k].name@ == name {
        Some(k)
    } else {
        variable_from(vars, name, k + 1)
    }
}

/// The first row at or after place `k` that belongs to `file` and whose line
/// number is at least `number`.
pub open spec fn row_from(rows: Seq<Line>, file: Seq<char>, number: u64, k: int) -> Option<int>
    decreases rows.len() - k,
{
    if k < 0 || k >= rows.len() {
        None
    } else if rows[k].file@ == file && rows[k].number >= number {
        Some(k)
    } else {
        row_from(rows, file, number, k + 1)
    }
}

impl DebugInfo {
    /// The function whose code holds `addr`: the first such in the table.
    pub open spec fn function_at(&self, addr: u64) -> Option<int> {
        function_from(self.functions@, addr, 0)
    }

    /// Row `i` starts inside the function that holds `addr`, at or before
    /// `addr`.
    pub open spec fn row_reaches(&self, addr: u64, i: int) -> bool {
        &&& 0 <= i < self.lines@.len()
        &&& self.function_at(addr) is Some
        &&& self.functions@[self.function_at(addr).unwrap()].address <= self.lines@[i].address
        &&& self.lines@[i].address <= addr
    }

    /// Row `i` is at least as good an answer as row `j`: it starts later, or
    /// at the same address and stands no later in the table.
    pub open spec fn row_preferred(&self, i: int, j: int) -> bool {
        self.lines@[i].address > self.lines@[j].address || (self.lines@[i].address
            == self.lines@[j].address && i <= j)
    }

    /// Row `i` is the row of `addr`: of the rows that reach `addr` the one
    /// that starts last.
    pub open spec fn is_line_at(&self, addr: u64, i: int) -> bool {
        &&& self.row_reaches(addr, i)
        &&& forall|j: int| #[trigger] self.row_reaches(addr, j) ==> self.row_preferred(i, j)
    }

    /// The row of the line table that `addr` belongs to, if it has one.
    pub open spec fn line_at(&self, addr: u64) -> Option<int> {
        if exists|i: int| self.is_line_at(addr, i) {
            Some(choose|i: int| self.is_line_at(addr, i))
        } else {
            None
        }
    }

    /// The file in which unscoped line numbers are looked up: that of the
    /// first row.
    pub open spec fn main_file(&self) -> Seq<char> {
        if self.lines@.len() > 0 {
            self.lines@[0].file@
        } else {
            Seq::empty()
        }
    }

    /// The row that stands for line `number` of `file` (of the main file
    /// where none is given): the first row of that file with this number or a
    /// later one.
    pub open spec fn row_for_line(&self, file: Option<Seq<char>>, number: u64) -> Option<int> {
        row_from(
            self.lines@,
            match file {
                Some(f) => f,
                None => self.main_file(),
            },
            number,
            0,
        )
    }

    /// The address at which line `number` starts.
    pub open spec fn line_address(&self, file: Option<Seq<char>>, number: u64) -> Option<u64> {
        match self.row_for_line(file, number) {
            Some(i) => Some(self.lines@[i].address),
            None => None,
        }
    }

    /// The entry address of the first function called `name`.
    pub open spec fn function_address(&self, name: Seq<char>) -> Option<u64> {
        match function_named_from(self.functions@, name, 0) {
            Some(i) => Some(self.functions@[i].address),
            None => None,
        }
    }

    /// The local variables that are in scope at `pc`, with the number of
    /// their function.
    pub open spec fn locals_at(&self, pc: u64) -> Seq<Variable> {
        match self.function_at(pc) {
            Some(f) => self.functions@[f].variables@,
            None => Seq::empty(),
        }
    }

    /// The variable that `name` means at `pc`: a local of the function that
    /// holds `pc` before a global, the first of that name in either list.
    pub open spec fn lookup(&self, pc: u64, name: Seq<char>) -> Option<VariableRef> {
        match variable_from(self.locals_at(pc), name, 0) {
            Some(i) => Some(
                VariableRef::Local {
                    function: self.function_at(pc).unwrap() as usize,
                    index: i as usize,
                },
            ),
            None => match variable_from(self.globals@, name, 0) {
                Some(i) => Some(VariableRef::Global { index: i as usize }),
                None => None,
            },
        }
    }

    /// `r` names a variable of this debug information.
    pub open spec fn has_variable(&self, r: VariableRef) -> bool {
        match r {
            VariableRef::Local { function, index } => function < self.functions@.len() && index
                < self.functions@[function as int].variables@.len(),
            VariableRef::Global { index } => index < self.globals@.len(),
        }
    }

    /// The variable that `r` names.
    pub open spec fn variable_at(&self, r: VariableRef) -> Variable {
        match r {
            VariableRef::Local { function, index } => self.functions@[function as int].variables@[index as int],
            VariableRef::Global { index } => self.globals@[index as int],
        }
    }

    /// The debug information that consists of these tables.
    pub fn new(lines: Vec<Line>, functions: Vec<Function>, globals: Vec<Variable>) -> (info:
        DebugInfo)
        ensures
            info.lines == lines,
            info.functions == functions,
            info.globals == globals,
    {
        DebugInfo { lines, functions, globals }
    }

    /// Index of the function that holds `addr`.
    pub fn function_index(&self, addr: u64) -> (found: Option<usize>)
        ensures
            found.is_some() == self.function_at(addr).is_some(),
            found matches Some(i) ==> self.function_at(addr) == Some(i as int) && i
                < self.functions@.len() && covers(self.functions@[i as int], addr),
    {
        let mut i: usize = 0;
        while i < self.functions.len()
            invariant
                i <= self.functions@.len(),
                self.function_at(addr) == function_from(self.functions@, addr, i as int),
            decreases self.functions@.len() - i,
        {
            let f = &self.functions[i];
            if f.address <= addr && addr - f.address < f.text_length {
                return Some(i);
            }
            i += 1;
        }
        None
    }

    /// The function whose code holds `addr`.
    pub fn get_function(&self, addr: u64) -> (found: Option<&Function>)
        ensures
            found.is_some() == self.function_at(addr).is_some(),
            found matches Some(f) ==> *f == self.functions@[self.function_at(addr).unwrap()],
    {
        match self.function_index(addr) {
            Some(i) => Some(&self.functions[i]),
            None => None,
        }
    }

    /// Index of the row of the line table that `addr` belongs to.
    pub fn line_index(&self, addr: u64) -> (found: Option<usize>)
        ensures
            found.is_some() == self.line_at(addr).is_some(),
            found matches Some(i) ==> self.line_at(addr) == Some(i as int) && i
                < self.lines@.len() && self.is_line_at(addr, i as int),
    {
        let low: u64 = match self.function_index(addr) {
            Some(f) => self.functions[f].address,
            None => {
                assert(forall|i: int| !self.row_reaches(addr, i));
                return None;
            },
        };
        let mut best: Option<usize> = None;
        let mut i: usize = 0;
        while i < self.lines.len()
            invariant
                i <= self.lines@.len(),
                self.function_at(addr) is Some,
                low == self.functions@[self.function_at(addr).unwrap()].address,
                best matches Some(b) ==> b < i && self.row_reaches(addr, b as int)
                    && forall|j: int|
                    0 <= j < i && #[trigger] self.row_reaches(addr, j) ==> self.row_preferred(
                        b as int,
                        j,
                    ),
                best is None ==> forall|j: int| 0 <= j < i ==> !#[trigger] self.row_reaches(addr, j),
            decreases self.lines@.len() - i,
        {
            let a: u64 = self.lines[i].address;
            if low <= a && a <= addr {
                let better = match best {
                    Some(b) => self.lines[b].address < a,
                    None => true,
                };
                if better {
                    best = Some(i);
                }
            }
            i += 1;
        }
        proof {
            match best {
                Some(b) => {
                    assert(self.is_line_at(addr, b as int));
                    let c = choose|k: int| self.is_line_at(addr, k);
                    assert(self.row_preferred(b as int, c));
                    assert(self.row_preferred(c, b as int));
                },
                None => {
                    assert(forall|k: int| !self.is_line_at(addr, k));
                },
            }
        }
        best
    }

    /// The line that `addr` belongs to.
    pub fn get_line_from_addr(&self, addr: u64) -> (found: Option<&Line>)
        ensures
            found.is_some() == self.line_at(addr).is_some(),
            found matches Some(l) ==> *l == self.lines@[self.line_at(addr).unwrap()],
    {
        match self.line_index(addr) {
            Some(i) => Some(&self.lines[i]),
            None => None,
        }
    }

    /// The name of the function that `addr` belongs to.
    pub fn get_function_from_addr(&self, addr: u64) -> (found: Option<&String>)
        ensures
            found.is_some() == self.function_at(addr).is_some(),
            found matches Some(n) ==> *n == self.functions@[self.function_at(addr).unwrap()].name,
    {
        match self.function_index(addr) {
            Some(i) => Some(&self.functions[i].name),
            None => None,
        }
    }

    /// The address at which line `number` of `file` starts, or of the main
    /// file where `file` is `None`.
    pub fn get_addr_for_line(&self, file: Option<&str>, number: u64) -> (found: Option<u64>)
        ensures
            found == self.line_address(
                match file {
                    Some(f) => Some(f@),
                    None => None,
                },
                number,
            ),
    {
        if self.lines.len() == 0 {
            return None;
        }
        let name: &str = match file {
            Some(f) => f,
            None => self.lines[0].file.as_str(),
        };
        let mut i: usize = 0;
        while i < self.lines.len()
            invariant
                i <= self.lines@.len(),
                name@ == (match file {
                    Some(f) => f@,
                    None => self.main_file(),
                }),
                row_from(self.lines@, name@, number, 0) == row_from(
                    self.lines@,
                    name@,
                    number,
                    i as int,
                ),
            decreases self.lines@.len() - i,
        {
            let row = &self.lines[i];
            if row.number >= number && str_eq(row.file.as_str(), name) {
                return Some(row.address);
            }
            i += 1;
        }
        None
    }

    /// The entry address of the function called `name`.
    pub fn get_addr_for_function(&self, name: &str) -> (found: Option<u64>)
        ensures
            found == self.function_address(name@),
    {
        let mut i: usize = 0;
        while i < self.functions.len()
            invariant
                i <= self.functions@.len(),
                function_named_from(self.functions@, name@, 0) == function_named_from(
                    self.functions@,
                    name@,
                    i as int,
                ),
            decreases self.functions@.len() - i,
        {
            if str_eq(self.functions[i].name.as_str(), name) {
                return Some(self.functions[i].address);
            }
            i += 1;
        }
        None
    }

    /// The global variables, in the order of the table.
    pub fn get_global_variables(&self) -> (vars: &Vec<Variable>)
        ensures
            *vars == self.globals,
    {
        &self.globals
    }

    /// The variable that `name` means while the target is stopped at `pc`.
    pub fn resolve(&self, pc: u64, name: &str) -> (found: Option<VariableRef>)
        ensures
            found == self.lookup(pc, name@),
            found matches Some(r) ==> self.has_variable(r) && self.variable_at(r).name@ == name@,
    {
        match self.function_index(pc) {
            Some(f) => {
                match find_variable(&self.functions[f].variables, name) {
                    Some(i) => {
                        return Some(VariableRef::Local { function: f, index: i });
                    },
                    None => {},
                }
            },
            None => {
                assert(variable_from(Seq::<Variable>::empty(), name@, 0) is None);
            },
        }
        match find_variable(&self.globals, name) {
            Some(i) => Some(VariableRef::Global { index: i }),
            None => None,
        }
    }

    /// The variable that `r` names.
    pub fn variable(&self, r: VariableRef) -> (v: &Variable)
        requires
            self.has_variable(r),
        ensures
            *v == self.variable_at(r),
    {
        match r {
            VariableRef::Local { function, index } => &self.functions[function].variables[index],
            VariableRef::Global { index } => &self.globals[index],
        }
    }
}

/// A search for a function finds one of the table, and one whose code
/// holds the address.
pub proof fn lemma_function_from(fs: Seq<Function>, addr: u64, k: int)
    requires
        0 <= k,
    ensures
        function_from(fs, addr, k) matches Some(i) ==> k <= i < fs.len() && covers(fs[i], addr),
    decreases fs.len() - k,
{
    if k < fs.len() && !covers(fs[k], addr) {
        lemma_function_from(fs, addr, k + 1);
    }
}

/// A search for a variable finds one of the list, and one of that name.
pub proof fn lemma_variable_from(vars: Seq<Variable>, name: Seq<char>, k: int)
    requires
        0 <= k,
    ensures
        variable_from(vars, name, k) matches Some(i) ==> k <= i < vars.len() && vars[i].name@
            == name,
    decreases vars.len() - k,
{
    if k < vars.len() && vars[k].name@ != name {
        lemma_variable_from(vars, name, k + 1);
    }
}

/// What the queries find is in the tables: the row of an address is a row
/// of the line table that starts at or before the address, its function
/// is a function of the table whose code holds it, and a variable that a
/// name means is a variable of that name.
pub proof fn law_answers_are_in_the_tables(info: &DebugInfo, addr: u64, name: Seq<char>)
    ensures
        info.function_at(addr) matches Some(f) ==> f < info.functions@.len() && covers(
            info.functions@[f],
            addr,
        ),
        info.line_at(addr) matches Some(row) ==> row < info.lines@.len() && info.lines@[row].address
            <= addr && info.function_at(addr) is Some,
        info.lookup(addr, name) matches Some(r) ==> info.has_variable(r) && info.variable_at(
            r,
        ).name@ == name,
{
    lemma_function_from(info.functions@, addr, 0);
    if info.line_at(addr) is Some {
        assert(info.is_line_at(addr, info.line_at(addr).unwrap()));
    }
    lemma_variable_from(info.locals_at(addr), name, 0);
    lemma_variable_from(info.globals@, name, 0);
    assert(info.functions@.len() == info.functions.len());
    assert(info.globals@.len() == info.globals.len());
    if let Some(f) = info.function_at(addr) {
        assert(info.functions@[f].variables@.len() == info.functions@[f].variables.len());
    }
}

/// Index of the first variable of `vars` that is called `name`.
pub fn find_variable(vars: &Vec<Variable>, name: &str) -> (found: Option<usize>)
    ensures
        found.is_some() == variable_from(vars@, name@, 0).is_some(),
        found matches Some(i) ==> variable_from(vars@, name@, 0) == Some(i as int) && i
            < vars@.len() && vars@[i as int].name@ == name@,
{
    let mut i: usize = 0;
    while i < vars.len()
        invariant
            i <= vars@.len(),
            variable_from(vars@, name@, 0) == variable_from(vars@, name@, i as int),
        decreases vars@.len() - i,
    {
        if str_eq(vars[i].name.as_str(), name) {
            return Some(i);
        }
        i += 1;
    }
    None
}

} // verus!
