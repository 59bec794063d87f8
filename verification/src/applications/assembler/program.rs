//! The program text: the lines kept for assembly, and the pass that takes
//! label declarations out of them.
use vstd::prelude::*;
use crate::consts;
use crate::text::{
    char_is_numeric, leading_whitespace_len, skip_leading_whitespace, trim_paren_chars, trim_parens,
    is_numeric_char,
};
use super::symbols::{pairs_view, SymbolTable};
use super::translate::{line_step, needs_new_symbol, process_one_line, NO_INSTRUCTION_ERR};
use crate::text::result_view;

verus! {

/// The views of a list of strings.
pub open spec fn lines_view(v: Seq<String>) -> Seq<Seq<char>> {
    v.map_values(|s: String| s@)
}

/// A line that takes part in assembly: not blank (something is left after
/// trimming white space), and not a comment (after its leading white space
/// it does not begin with `//`).
pub open spec fn is_program_line(l: Seq<char>) -> bool {
    let t = skip_leading_whitespace(l);
    t.len() > 0 && !(t.len() >= 2 && t[0] == '/' && t[1] == '/')
}

/// The lines of a source text that take part in assembly, in order.
pub open spec fn program_lines(lines: Seq<Seq<char>>) -> Seq<Seq<char>> {
    lines.filter(|l: Seq<char>| is_program_line(l))
}

/// Whether every line takes part in assembly (none blank, none a comment).
pub open spec fn all_program_lines(lines: Seq<Seq<char>>) -> bool {
    forall|i: int| 0 <= i < lines.len() ==> is_program_line(#[trigger] lines[i])
}

/// Whether a label name is refused: every character of it is numeric
/// (so an empty name is refused too).
pub open spec fn label_name_invalid(name: Seq<char>) -> bool {
    forall|i: int| 0 <= i < name.len() ==> is_numeric_char(#[trigger] name[i])
}

/// The label pass over `lines`: the instruction lines kept, the labels
/// found with their values, and whether a label name was refused. A label
/// `(NAME)` gets one more than the number of instructions before it.
pub open spec fn scan_labels(lines: Seq<Seq<char>>) -> (
    Seq<Seq<char>>,
    Seq<(Seq<char>, isize)>,
    bool,
)
    decreases lines.len(),
{
    if lines.len() == 0 {
        (Seq::empty(), Seq::empty(), false)
    } else {
        let prev = scan_labels(lines.drop_last());
        let l = lines.last();
        if prev.2 || l.len() == 0 {
            prev
        } else if l[0] == '(' {
            let name = trim_parens(l);
            if label_name_invalid(name) {
                (prev.0, prev.1, true)
            } else {
                (prev.0, prev.1.push((name, (prev.0.len() + 1) as isize)), false)
            }
        } else {
            (prev.0.push(l), prev.1, false)
        }
    }
}

/// Once a label name is refused, the pass over any longer text is refused.
pub proof fn lemma_scan_failure_sticks(lines: Seq<Seq<char>>, i: int)
    requires
        0 <= i <= lines.len(),
        scan_labels(lines.take(i)).2,
    ensures
        scan_labels(lines).2,
    decreases lines.len() - i,
{
    if i < lines.len() {
        assert(lines.take(i + 1).drop_last() == lines.take(i));
        lemma_scan_failure_sticks(lines, i + 1);
    } else {
        assert(lines.take(i) == lines);
    }
}

/// The label pass keeps only lines it was given, so a program without
/// blank or comment lines stays so.
pub proof fn lemma_scan_keeps_program_lines(lines: Seq<Seq<char>>)
    requires
        all_program_lines(lines),
    ensures
        all_program_lines(scan_labels(lines).0),
    decreases lines.len(),
{
    if lines.len() > 0 {
        assert(all_program_lines(lines.drop_last())) by {
            assert forall|i: int| 0 <= i < lines.drop_last().len() implies is_program_line(
                #[trigger] lines.drop_last()[i],
            ) by {
                assert(lines.drop_last()[i] == lines[i]);
            }
        }
        lemma_scan_keeps_program_lines(lines.drop_last());
        assert(is_program_line(lines[lines.len() - 1]));
    }
}

/// The pass keeps at most as many lines as it reads.
pub proof fn lemma_scan_kept_len(lines: Seq<Seq<char>>)
    ensures
        scan_labels(lines).0.len() <= lines.len(),
    decreases lines.len(),
{
    if lines.len() > 0 {
        lemma_scan_kept_len(lines.drop_last());
    }
}

/// The lines of a program: no blank lines and no comment lines.
pub struct Instructions {
    program_data: Vec<String>,
}

fn is_program_line_exec(l: &str) -> (r: bool)
    ensures
        r == is_program_line(l@),
{
    let n = l.unicode_len();
    let k = leading_whitespace_len(l);
    k < n && !(n - k >= 2 && l.get_char(k) == '/' && l.get_char(k + 1) == '/')
}

fn name_is_numeric(name: &str) -> (r: bool)
    ensures
        r == label_name_invalid(name@),
{
    let n = name.unicode_len();
    let mut i: usize = 0;
    while i < n
        invariant
            n == name@.len(),
            i <= n,
            forall|j: int| 0 <= j < i ==> is_numeric_char(#[trigger] name@[j]),
        decreases n - i,
    {
        if !char_is_numeric(name.get_char(i)) {
            return false;
        }
        i = i + 1;
    }
    true
}

impl Instructions {
    /// The lines, in order.
    pub closed spec fn lines(&self) -> Seq<Seq<char>> {
        lines_view(self.program_data@)
    }

    /// The program made of the lines of a source text that are neither
    /// blank nor `//` comments (leading white space aside), in their order;
    /// the lines kept are not altered.
    pub fn import_from_lines(lines: Vec<String>) -> (r: Self)
        ensures
            r.lines() == program_lines(lines_view(lines@)),
            all_program_lines(r.lines()),
    {
        let ghost src = lines_view(lines@);
        let mut program_data: Vec<String> = Vec::new();
        let n = lines.len();
        let mut i: usize = 0;
        while i < n
            invariant
                n == lines@.len(),
                src == lines_view(lines@),
                i <= n,
                lines_view(program_data@) == program_lines(src.take(i as int)),
            decreases n - i,
        {
            proof {
                reveal(Seq::filter);
                assert(src.take(i + 1).drop_last() == src.take(i as int));
                assert(src.take(i + 1).last() == lines@[i as int]@);
            }
            if is_program_line_exec(lines[i].as_str()) {
                let ghost before = program_data@;
                program_data.push(lines[i].clone());
                assert(lines_view(program_data@) == lines_view(before).push(lines@[i as int]@));
            }
            i = i + 1;
        }
        assert(src.take(n as int) == src);
        proof {
            broadcast use vstd::seq_lib::group_filter_ensures;

            let pred = |l: Seq<char>| is_program_line(l);
            assert forall|i: int| 0 <= i < src.filter(pred).len() implies is_program_line(
                #[trigger] src.filter(pred)[i],
            ) by {
                assert(pred(src.filter(pred)[i]));
            }
        }
        Instructions { program_data }
    }

    /// Takes the label lines `(NAME)` out of the program and returns each
    /// label with its value, in order; empty lines are dropped too. A label
    /// whose name is all numeric is refused, and the program is then left
    /// as it was.
    pub fn parse_and_remove_labels(&mut self) -> (r: Result<Vec<(String, isize)>, String>)
        requires
            old(self).lines().len() < isize::MAX,
        ensures
            ({
                let scan = scan_labels(old(self).lines());
                match r {
                    Ok(v) => !scan.2 && pairs_view(v@) == scan.1 && final(self).lines() == scan.0
                        && (all_program_lines(old(self).lines()) ==> all_program_lines(
                        final(self).lines(),
                    )),
                    Err(e) => scan.2 && e@ == consts::LABEL_ERR@ && final(self).lines() == old(
                        self,
                    ).lines(),
                }
            }),
    {
        let ghost src = self.lines();
        let mut filtered_prog_data: Vec<String> = Vec::new();
        let mut symbol_table_entries: Vec<(String, isize)> = Vec::new();
        let mut counter: isize = 0;
        let n = self.program_data.len();
        let mut i: usize = 0;
        while i < n
            invariant
                n == self.program_data@.len(),
                src == self.lines(),
                src == old(self).lines(),
                n < isize::MAX,
                i <= n,
                counter as int == filtered_prog_data@.len(),
                filtered_prog_data@.len() <= i,
                ({
                    let scan = scan_labels(src.take(i as int));
                    &&& !scan.2
                    &&& lines_view(filtered_prog_data@) == scan.0
                    &&& pairs_view(symbol_table_entries@) == scan.1
                }),
            decreases n - i,
        {
            let line = self.program_data[i].as_str();
            proof {
                assert(src.take(i + 1).drop_last() == src.take(i as int));
                assert(src.take(i + 1).last() == line@);
            }
            let len = line.unicode_len();
            if len > 0 {
                let c = line.get_char(0);
                if c == '(' {
                    let name = trim_paren_chars(line);
                    if name_is_numeric(name) {
                        proof {
                            lemma_scan_failure_sticks(src, i + 1);
                        }
                        return Err(String::from_str(consts::LABEL_ERR));
                    } else {
                        let ghost before = symbol_table_entries@;
                        symbol_table_entries.push((String::from_str(name), counter + 1));
                        assert(pairs_view(symbol_table_entries@) == pairs_view(before).push(
                            (name@, (counter + 1) as isize),
                        ));
                    }
                } else {
                    let ghost before = filtered_prog_data@;
                    filtered_prog_data.push(self.program_data[i].clone());
                    assert(lines_view(filtered_prog_data@) == lines_view(before).push(line@));
                    counter = counter + 1;
                }
            }
            i = i + 1;
        }
        assert(src.take(n as int) == src);
        proof {
            if all_program_lines(src) {
                lemma_scan_keeps_program_lines(src);
            }
        }
        self.program_data = filtered_prog_data;
        Ok(symbol_table_entries)
    }

    /// Translates the instruction at index `line` with the help of the
    /// symbol table, or gives an error where there is no such instruction.
    pub fn process_one_instruction(&self, line: usize, sym_tbl: &mut SymbolTable) -> (r: Result<
        String,
        String,
    >)
        requires
            line < self.lines().len() ==> (needs_new_symbol(
                self.lines()[line as int],
                old(sym_tbl).table(),
            ) ==> old(sym_tbl).next_id() < isize::MAX),
        ensures
            line >= self.lines().len() ==> {
                &&& result_view(r) == Err::<Seq<char>, Seq<char>>(NO_INSTRUCTION_ERR@)
                &&& final(sym_tbl).table() == old(sym_tbl).table()
                &&& final(sym_tbl).next_id() == old(sym_tbl).next_id()
            },
            line < self.lines().len() ==> {
                let st = line_step(
                    self.lines()[line as int],
                    old(sym_tbl).table(),
                    old(sym_tbl).next_id(),
                );
                &&& result_view(r) == st.0
                &&& final(sym_tbl).table() == st.1
                &&& final(sym_tbl).next_id() == st.2
            },
    {
        if line >= self.program_data.len() {
            return Err(String::from_str(NO_INSTRUCTION_ERR));
        }
        let line_text = self.program_data[line].as_str();
        process_one_line(line_text, sym_tbl)
    }

    /// How many lines the program has.
    pub fn len(&self) -> (r: usize)
        ensures
            r == self.lines().len(),
    {
        self.program_data.len()
    }

    /// The line at index `line_num`, if there is one.
    pub fn get(&self, line_num: usize) -> (r: Option<String>)
        ensures
            match r {
                Some(s) => line_num < self.lines().len() && s@ == self.lines()[line_num as int],
                None => line_num >= self.lines().len(),
            },
    {
        if line_num < self.program_data.len() {
            Some(self.program_data[line_num].clone())
        } else {
            None
        }
    }
}

} // verus!
