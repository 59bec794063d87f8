//! The Hack assembler: symbol table, program lines, and the translation of
//! each instruction into machine code.
pub mod laws;
pub mod program;
pub mod symbols;
pub mod translate;

pub use program::Instructions;
pub use symbols::SymbolTable;
pub use translate::{
    build_bin_dest_string, build_comp_string, build_jmp_string, process_one_line,
    translate_addr_instr, translate_c_instr,
};

use vstd::prelude::*;
use crate::consts;
use crate::text::{
    ascii_upper, find_last, lemma_find_last, str_eq, to_ascii_upper,
};
use program::{lemma_scan_kept_len, lines_view, program_lines, scan_labels};
use symbols::{define_all, predefined_symbols};
use translate::{line_step, needs_new_symbol};

verus! {

/// The error for a line that could not be translated: it names the line.
pub open spec fn command_error(line: Seq<char>, e: Seq<char>) -> Seq<char> {
    "Error occurred in command "@ + line + ": "@ + e
}

/// The views of a result that holds a list of strings or an error string.
pub open spec fn lines_result_view(r: Result<Vec<String>, String>) -> Result<
    Seq<Seq<char>>,
    Seq<char>,
> {
    match r {
        Ok(v) => Ok(lines_view(v@)),
        Err(e) => Err(e@),
    }
}

/// Translating `lines` in order, each with the symbol table the lines
/// before it left: the machine code of every line, or the error of the
/// first line that fails; and the table and next free address after.
pub open spec fn run_program(
    lines: Seq<Seq<char>>,
    table: Map<Seq<char>, isize>,
    next: isize,
) -> (Result<Seq<Seq<char>>, Seq<char>>, Map<Seq<char>, isize>, isize)
    decreases lines.len(),
{
    if lines.len() == 0 {
        (Ok(Seq::empty()), table, next)
    } else {
        let prev = run_program(lines.drop_last(), table, next);
        match prev.0 {
            Err(e) => (Err(e), prev.1, prev.2),
            Ok(outs) => {
                let st = line_step(lines.last(), prev.1, prev.2);
                match st.0 {
                    Ok(s) => (Ok(outs.push(s)), st.1, st.2),
                    Err(e) => (Err(command_error(lines.last(), e)), st.1, st.2),
                }
            },
        }
    }
}

/// Whether translating `lines` never has to give a new variable an address
/// past `isize::MAX` (where the address counter would overflow).
pub open spec fn run_fits(lines: Seq<Seq<char>>, table: Map<Seq<char>, isize>, next: isize) -> bool
    decreases lines.len(),
{
    if lines.len() == 0 {
        true
    } else {
        let prev = run_program(lines.drop_last(), table, next);
        &&& run_fits(lines.drop_last(), table, next)
        &&& (prev.0 is Ok && needs_new_symbol(lines.last(), prev.1) ==> prev.2 < isize::MAX)
    }
}

/// A run that fits fits on every prefix of its lines.
pub proof fn lemma_run_fits_prefix(
    lines: Seq<Seq<char>>,
    table: Map<Seq<char>, isize>,
    next: isize,
    i: int,
)
    requires
        0 <= i <= lines.len(),
        run_fits(lines, table, next),
    ensures
        run_fits(lines.take(i), table, next),
    decreases lines.len() - i,
{
    if i < lines.len() {
        lemma_run_fits_prefix(lines, table, next, i + 1);
        assert(lines.take(i + 1).drop_last() == lines.take(i));
    } else {
        assert(lines.take(i) == lines);
    }
}

/// Where there is room for one new address per line, the run fits.
pub proof fn lemma_run_fits_bound(lines: Seq<Seq<char>>, table: Map<Seq<char>, isize>, next: isize)
    requires
        next + lines.len() <= isize::MAX,
    ensures
        run_fits(lines, table, next),
    decreases lines.len(),
{
    if lines.len() > 0 {
        lemma_run_fits_bound(lines.drop_last(), table, next);
        lemma_run_next_bound(lines.drop_last(), table, next);
    }
}

/// Each line takes at most one new address.
pub proof fn lemma_run_next_bound(lines: Seq<Seq<char>>, table: Map<Seq<char>, isize>, next: isize)
    requires
        next + lines.len() <= isize::MAX,
    ensures
        next <= run_program(lines, table, next).2 <= next + lines.len(),
    decreases lines.len(),
{
    if lines.len() > 0 {
        lemma_run_next_bound(lines.drop_last(), table, next);
    }
}

/// Once a line fails, the whole run fails with that error.
pub proof fn lemma_run_error_sticks(
    lines: Seq<Seq<char>>,
    table: Map<Seq<char>, isize>,
    next: isize,
    i: int,
)
    requires
        0 <= i <= lines.len(),
        run_program(lines.take(i), table, next).0 is Err,
    ensures
        run_program(lines, table, next).0 == run_program(lines.take(i), table, next).0,
    decreases lines.len() - i,
{
    if i < lines.len() {
        assert(lines.take(i + 1).drop_last() == lines.take(i));
        lemma_run_error_sticks(lines, table, next, i + 1);
    } else {
        assert(lines.take(i) == lines);
    }
}

/// The whole assembly of a source text: drop blank and comment lines, take
/// the labels out, then translate every instruction, starting from the
/// predefined symbols and the labels with new variables from 16.
pub open spec fn assemble_spec(source: Seq<Seq<char>>) -> Result<Seq<Seq<char>>, Seq<char>> {
    let scan = scan_labels(program_lines(source));
    if scan.2 {
        Err(consts::LABEL_ERR@)
    } else {
        run_program(scan.0, define_all(predefined_symbols(), scan.1), 16).0
    }
}

/// A program together with its symbol table.
pub struct Assembler {
    program: Instructions,
    sym_tbl: SymbolTable,
}

impl Assembler {
    /// The program lines.
    pub closed spec fn lines(&self) -> Seq<Seq<char>> {
        self.program.lines()
    }

    /// The symbols defined so far.
    pub closed spec fn table(&self) -> Map<Seq<char>, isize> {
        self.sym_tbl.table()
    }

    /// The address the next new variable gets.
    pub closed spec fn next_id(&self) -> isize {
        self.sym_tbl.next_id()
    }

    /// An assembler for the lines of a source text: blank and comment lines
    /// are dropped, and the symbol table holds the predefined symbols.
    pub fn init_from_lines(lines: Vec<String>) -> (r: Self)
        ensures
            r.lines() == program_lines(lines_view(lines@)),
            r.table() == predefined_symbols(),
            r.next_id() == 16,
    {
        let sym_tbl = SymbolTable::init();
        let program = Instructions::import_from_lines(lines);
        Assembler { program, sym_tbl }
    }

    /// Takes the labels out of the program and defines them in the symbol
    /// table.
    pub fn process_labels(&mut self) -> (r: Result<(), String>)
        requires
            old(self).lines().len() < isize::MAX,
        ensures
            ({
                let scan = scan_labels(old(self).lines());
                match r {
                    Ok(_) => {
                        &&& !scan.2
                        &&& final(self).lines() == scan.0
                        &&& final(self).table() == define_all(old(self).table(), scan.1)
                        &&& final(self).next_id() == old(self).next_id()
                    },
                    Err(e) => {
                        &&& scan.2
                        &&& e@ == consts::LABEL_ERR@
                        &&& final(self).lines() == old(self).lines()
                        &&& final(self).table() == old(self).table()
                        &&& final(self).next_id() == old(self).next_id()
                    },
                }
            }),
    {
        let sym_import_vec = match self.program.parse_and_remove_labels() {
            Ok(v) => v,
            Err(e) => return Err(e),
        };
        self.sym_tbl.mass_add_to_symbol_table(sym_import_vec);
        Ok(())
    }

    /// Translates every line in order, or gives the error of the first line
    /// that fails, naming that line.
    pub fn translate_to_vec_str(self) -> (r: Result<Vec<String>, String>)
        requires
            run_fits(self.lines(), self.table(), self.next_id()),
        ensures
            lines_result_view(r) == run_program(self.lines(), self.table(), self.next_id()).0,
    {
        let ghost lines = self.lines();
        let ghost table0 = self.table();
        let ghost next0 = self.next_id();
        let mut sym_tbl = self.sym_tbl;
        let program = self.program;
        let mut output: Vec<String> = Vec::new();
        let n = program.len();
        let mut line: usize = 0;
        assert(lines.take(0) =~= Seq::<Seq<char>>::empty());
        assert(lines_view(output@) =~= Seq::<Seq<char>>::empty());
        while line < n
            invariant
                n == lines.len(),
                lines == program.lines(),
                lines == self.lines(),
                table0 == self.table(),
                next0 == self.next_id(),
                run_fits(lines, table0, next0),
                line <= n,
                ({
                    let run = run_program(lines.take(line as int), table0, next0);
                    &&& run.0 == Ok::<Seq<Seq<char>>, Seq<char>>(lines_view(output@))
                    &&& run.1 == sym_tbl.table()
                    &&& run.2 == sym_tbl.next_id()
                }),
            decreases n - line,
        {
            proof {
                assert(lines.take(line + 1).drop_last() == lines.take(line as int));
                assert(lines.take(line + 1).last() == lines[line as int]);
                lemma_run_fits_prefix(lines, table0, next0, line + 1);
            }
            let line_result = program.process_one_instruction(line, &mut sym_tbl);
            match line_result {
                Ok(s) => {
                    let ghost before = output@;
                    output.push(s);
                    assert(lines_view(output@) == lines_view(before).push(s@));
                },
                Err(e) => {
                    let text = program.get(line).unwrap();
                    let mut error_str = String::from_str("Error occurred in command ");
                    error_str.append(text.as_str());
                    error_str.append(": ");
                    error_str.append(e.as_str());
                    proof {
                        assert(error_str@ == command_error(lines[line as int], e@));
                        assert(run_program(lines.take(line + 1), table0, next0).0 == Err::<
                            Seq<Seq<char>>,
                            Seq<char>,
                        >(command_error(lines[line as int], e@)));
                        lemma_run_error_sticks(lines, table0, next0, line + 1);
                    }
                    return Err(error_str);
                },
            }
            line = line + 1;
        }
        assert(lines.take(n as int) == lines);
        Ok(output)
    }
}

/// Assembles a source text, given as its lines, into machine code lines.
pub fn assemble(source: Vec<String>) -> (r: Result<Vec<String>, String>)
    requires
        source.len() + 16 <= isize::MAX,
    ensures
        lines_result_view(r) == assemble_spec(lines_view(source@)),
{
    let mut assembler = Assembler::init_from_lines(source);
    proof {
        broadcast use vstd::seq_lib::group_filter_ensures;
        assert(lines_view(source@).len() == source@.len());
        lemma_scan_kept_len(assembler.lines());
    }
    match assembler.process_labels() {
        Ok(_) => {},
        Err(e) => return Err(e),
    }
    proof {
        lemma_run_fits_bound(assembler.lines(), assembler.table(), assembler.next_id());
    }
    assembler.translate_to_vec_str()
}

// ---------------------------------------------------------------------
// Command-line arguments of the assembler
// ---------------------------------------------------------------------

/// The value given after the last `flag` (compared without regard to
/// ASCII case) among the arguments at positions 2 to `k - 1`, where a value
/// follows it.
pub open spec fn flag_value(args: Seq<Seq<char>>, flag: Seq<char>, k: nat) -> Option<Seq<char>>
    decreases k,
{
    if k <= 2 {
        None
    } else {
        let i = (k - 1) as nat;
        if i + 1 < args.len() && ascii_upper(args[i as int]) == flag {
            Some(args[i + 1int])
        } else {
            flag_value(args, flag, i)
        }
    }
}

/// `s` up to its last `delim`, or all of `s` where it holds none.
pub open spec fn strip_last_delimiter(s: Seq<char>, delim: char) -> Seq<char> {
    match find_last(s, delim) {
        Some(k) => s.take(k as int),
        None => s,
    }
}

/// The output path used when none is given: the input path without its
/// extension, followed by `_out.hack`.
pub open spec fn default_output_path(input: Seq<char>) -> Seq<char> {
    strip_last_delimiter(input, '.') + consts::ASSEMBLER_DEF_EXTENSION@
}

/// The text of `s` before its last `delim`, or all of `s` where it holds none.
pub fn remove_last_delimiter(s: &str, delim: char) -> (r: String)
    ensures
        r@ == strip_last_delimiter(s@, delim),
{
    proof {
        lemma_find_last(s@, delim);
    }
    let n = s.unicode_len();
    let mut j: usize = n;
    while j > 0 && s.get_char(j - 1) != delim
        invariant
            n == s@.len(),
            j <= n,
            forall|k: int| j <= k < n ==> s@[k] != delim,
        decreases j,
    {
        j = j - 1;
    }
    if j == 0 {
        assert(!s@.contains(delim));
        String::from_str(s)
    } else {
        String::from_str(s.substring_char(0, j - 1))
    }
}

/// What the assembler is asked to do by its command-line arguments.
pub enum AssemblyPlan {
    /// Too few arguments: show how to call the assembler.
    ShowHelp,
    /// No input path was given: do nothing.
    NoInput,
    /// Assemble the file at `input` into the file at `output`.
    Run { input: String, output: String },
}

/// Reads the assembler's arguments (after the program name and the
/// application mnemonic): `-i PATH` names the input, `-o PATH` the output,
/// in any ASCII case; the last of each counts. Without `-o` the output is
/// the input path without its extension, followed by `_out.hack`.
pub fn plan_assembly(args: &Vec<String>) -> (r: AssemblyPlan)
    ensures
        ({
            let a = lines_view(args@);
            let input = flag_value(a, "-I"@, a.len());
            let output = flag_value(a, "-O"@, a.len());
            match r {
                AssemblyPlan::ShowHelp => a.len() <= 2,
                AssemblyPlan::NoInput => a.len() > 2 && input is None,
                AssemblyPlan::Run { input: i, output: o } => {
                    &&& a.len() > 2
                    &&& input == Some(i@)
                    &&& o@ == match output {
                        Some(p) => p,
                        None => default_output_path(i@),
                    }
                },
            }
        }),
{
    let ghost a = lines_view(args@);
    let n = args.len();
    if n <= 2 {
        return AssemblyPlan::ShowHelp;
    }
    let mut input_index: Option<usize> = None;
    let mut output_index: Option<usize> = None;
    let mut index: usize = 2;
    while index < n
        invariant
            n == args@.len(),
            a == lines_view(args@),
            2 <= index <= n,
            match input_index {
                Some(k) => k < n && flag_value(a, "-I"@, index as nat) == Some(a[k as int]),
                None => flag_value(a, "-I"@, index as nat) is None,
            },
            match output_index {
                Some(k) => k < n && flag_value(a, "-O"@, index as nat) == Some(a[k as int]),
                None => flag_value(a, "-O"@, index as nat) is None,
            },
        decreases n - index,
    {
        let flag = to_ascii_upper(args[index].as_str());
        if str_eq(flag.as_str(), "-I") {
            if index + 1 < n {
                input_index = Some(index + 1);
            }
        } else if str_eq(flag.as_str(), "-O") {
            if index + 1 < n {
                output_index = Some(index + 1);
            }
        }
        proof {
            reveal_strlit("-I");
            reveal_strlit("-O");
            assert("-I"@ != "-O"@) by {
                assert("-I"@[1] != "-O"@[1]);
            }
        }
        index = index + 1;
    }
    match input_index {
        None => AssemblyPlan::NoInput,
        Some(k) => {
            let input = args[k].clone();
            let output = match output_index {
                Some(m) => args[m].clone(),
                None => {
                    let mut temp_str = remove_last_delimiter(input.as_str(), '.');
                    temp_str.append(consts::ASSEMBLER_DEF_EXTENSION);
                    temp_str
                },
            };
            AssemblyPlan::Run { input, output }
        },
    }
}

} // verus!
