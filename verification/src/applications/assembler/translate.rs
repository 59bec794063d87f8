//! The translation of one line of Hack assembly into machine code.
use vstd::prelude::*;
use crate::consts;
use crate::text::{
    ascii_upper, binary_digits, parse_usize, parse_usize_spec, piece_before, push_binary, push_char,
    replace_char, replace_chars, result_view, second_piece, split_first_piece, split_second_piece,
    str_contains, str_eq, to_ascii_upper, zero_pad,
};
use super::symbols::SymbolTable;

verus! {

/// The error for a C instruction with neither `=` nor `;`.
pub const NO_FIELDS_ERR: &'static str = "No valid dest or jmp field defined, this is a malformed command.";

/// The error for an unknown jump mnemonic. It quotes an empty string: the
/// mnemonic that failed is not shown.
pub const JUMP_ERR: &'static str = "Unrecognized jump command \"\"";

/// The error for an instruction index past the end of the program.
pub const NO_INSTRUCTION_ERR: &'static str = "No valid instruction exists.";

/// The machine code of an A instruction for address `v`: a `0`, then `v` in
/// binary padded with zeros to at least 15 digits.
pub open spec fn a_instruction(v: nat) -> Seq<char> {
    seq!['0'] + zero_pad(binary_digits(v), 15)
}

/// The three dest bits: for each character of `order`, `1` where the
/// upper-cased `input` holds it, else `0`.
pub open spec fn dest_bits(order: Seq<char>, input: Seq<char>) -> Seq<char> {
    Seq::new(
        order.len(),
        |i: int|
            if ascii_upper(input).contains(order[i]) {
                '1'
            } else {
                '0'
            },
    )
}

/// The jump bits of a mnemonic, compared without regard to ASCII case.
pub open spec fn jump_code(j: Seq<char>) -> Option<Seq<char>> {
    let u = ascii_upper(j);
    if u == "JGT"@ {
        Some("001"@)
    } else if u == "JEQ"@ {
        Some("010"@)
    } else if u == "JGE"@ {
        Some("011"@)
    } else if u == "JLT"@ {
        Some("100"@)
    } else if u == "JNE"@ {
        Some("101"@)
    } else if u == "JLE"@ {
        Some("110"@)
    } else if u == "JMP"@ {
        Some("111"@)
    } else {
        None
    }
}

/// The jump field: its bits, or the jump error.
pub open spec fn jump_bits(j: Seq<char>) -> Result<Seq<char>, Seq<char>> {
    match jump_code(j) {
        Some(b) => Ok(b),
        None => Err(JUMP_ERR@),
    }
}

/// The six computation bits of an upper-cased comp field in which `M`
/// has been written as `A`.
pub open spec fn comp_code(t: Seq<char>) -> Option<Seq<char>> {
    if t == "0"@ {
        Some("101010"@)
    } else if t == "1"@ {
        Some("111111"@)
    } else if t == "-1"@ {
        Some("111010"@)
    } else if t == "D"@ {
        Some("001100"@)
    } else if t == "A"@ {
        Some("110000"@)
    } else if t == "!D"@ {
        Some("001101"@)
    } else if t == "!A"@ {
        Some("110001"@)
    } else if t == "-D"@ {
        Some("001111"@)
    } else if t == "-A"@ {
        Some("110011"@)
    } else if t == "D+1"@ || t == "1+D"@ {
        Some("011111"@)
    } else if t == "A+1"@ || t == "1+A"@ {
        Some("110111"@)
    } else if t == "D-1"@ {
        Some("001110"@)
    } else if t == "A-1"@ {
        Some("110010"@)
    } else if t == "D+A"@ || t == "A+D"@ {
        Some("000010"@)
    } else if t == "D-A"@ {
        Some("010011"@)
    } else if t == "A-D"@ {
        Some("000111"@)
    } else if t == "D&A"@ || t == "A&D"@ {
        Some("000000"@)
    } else if t == "D|A"@ || t == "A|D"@ {
        Some("010101"@)
    } else {
        None
    }
}

/// The comp field: the `a` bit (`1` where the field names `M`) and the six
/// computation bits, or an error that quotes the field as it was looked up.
pub open spec fn comp_bits(raw: Seq<char>) -> Result<Seq<char>, Seq<char>> {
    let u = ascii_upper(raw);
    let a = if u.contains('M') {
        '1'
    } else {
        '0'
    };
    let t = replace_char(u, 'M', 'A');
    match comp_code(t) {
        Some(b) => Ok(seq![a] + b),
        None => Err("Unrecognized comp command \""@ + t + "\""@),
    }
}

/// The machine code of a C instruction `dest=comp;jump`, where `dest=`
/// or `;jump` may be left out but not both.
pub open spec fn c_instruction(code: Seq<char>) -> Result<Seq<char>, Seq<char>> {
    let has_eq = code.contains('=');
    let comp1 = if has_eq {
        second_piece(code, '=')
    } else {
        code
    };
    let has_semi = comp1.contains(';');
    let comp = if has_semi {
        piece_before(comp1, ';')
    } else {
        comp1
    };
    if !has_eq && !has_semi {
        Err(NO_FIELDS_ERR@)
    } else {
        let dest = if has_eq {
            dest_bits("ADM"@, piece_before(code, '='))
        } else {
            "000"@
        };
        let jmp = if has_semi {
            jump_bits(second_piece(comp1, ';'))
        } else {
            Ok("000"@)
        };
        match jmp {
            Err(e) => Err(e),
            Ok(j) => match comp_bits(comp) {
                Err(e) => Err(e),
                Ok(c) => Ok("111"@ + c + dest + j),
            },
        }
    }
}

/// One line of assembly, with the symbol table and the next free address
/// before it: the machine code or error, and the table and next free
/// address after it.
pub open spec fn line_step(line: Seq<char>, table: Map<Seq<char>, isize>, next: isize) -> (Result<
    Seq<char>,
    Seq<char>,
>, Map<Seq<char>, isize>, isize) {
    if line.len() == 0 {
        (Err(consts::ASSEMBLER_EMPTY_LINE@), table, next)
    } else if line[0] == '@' {
        let sub = line.drop_first();
        match parse_usize_spec(sub) {
            Some(v) => (Ok(a_instruction(v as nat)), table, next),
            None => if table.contains_key(sub) {
                (Ok(a_instruction((table[sub] as usize) as nat)), table, next)
            } else {
                (Ok(a_instruction((next as usize) as nat)), table.insert(sub, next), (next
                    + 1) as isize)
            },
        }
    } else {
        (c_instruction(line), table, next)
    }
}

/// Whether `line` names a variable that `table` does not hold yet.
pub open spec fn needs_new_symbol(line: Seq<char>, table: Map<Seq<char>, isize>) -> bool {
    &&& line.len() > 0
    &&& line[0] == '@'
    &&& parse_usize_spec(line.drop_first()) is None
    &&& !table.contains_key(line.drop_first())
}

/// The A instruction for address `parsed_val`.
pub fn translate_addr_instr(parsed_val: usize) -> (r: String)
    ensures
        r@ == a_instruction(parsed_val as nat),
{
    let mut digits = String::new();
    push_binary(&mut digits, parsed_val);
    let mut out = String::new();
    push_char(&mut out, '0');
    let len = digits.as_str().unicode_len();
    let mut k: usize = len;
    assert(out@ =~= seq!['0'] + Seq::new(0, |i: int| '0'));
    while k < 15
        invariant
            len == binary_digits(parsed_val as nat).len(),
            len <= k,
            k <= 15 || k == len,
            out@ == seq!['0'] + Seq::new((k - len) as nat, |i: int| '0'),
        decreases 15 - k,
    {
        push_char(&mut out, '0');
        assert(out@ =~= seq!['0'] + Seq::new((k + 1 - len) as nat, |i: int| '0'));
        k = k + 1;
    }
    out.append(digits.as_str());
    assert(out@ =~= a_instruction(parsed_val as nat));
    out
}

/// One bit per character of `chars_in_order`: `1` where the upper-cased
/// `input_str` holds that character, else `0`.
pub fn build_bin_dest_string(chars_in_order: &str, input_str: &str) -> (r: String)
    ensures
        r@ == dest_bits(chars_in_order@, input_str@),
{
    let input_upper = to_ascii_upper(input_str);
    let n = chars_in_order.unicode_len();
    let mut out = String::new();
    let mut i: usize = 0;
    while i < n
        invariant
            n == chars_in_order@.len(),
            input_upper@ == ascii_upper(input_str@),
            i <= n,
            out@ == dest_bits(chars_in_order@, input_str@).take(i as int),
        decreases n - i,
    {
        let c = chars_in_order.get_char(i);
        if str_contains(input_upper.as_str(), c) {
            push_char(&mut out, '1');
        } else {
            push_char(&mut out, '0');
        }
        assert(dest_bits(chars_in_order@, input_str@).take(i + 1) == dest_bits(
            chars_in_order@,
            input_str@,
        ).take(i as int).push(dest_bits(chars_in_order@, input_str@)[i as int]));
        i = i + 1;
    }
    assert(dest_bits(chars_in_order@, input_str@).take(n as int) == dest_bits(
        chars_in_order@,
        input_str@,
    ));
    out
}

/// The jump bits of `jmp_str`, or the jump error.
pub fn build_jmp_string(jmp_str: &str) -> (r: Result<String, String>)
    ensures
        result_view(r) == jump_bits(jmp_str@),
{
    let j_upper = to_ascii_upper(jmp_str);
    let u = j_upper.as_str();
    let code: Option<&str> = if str_eq(u, "JGT") {
        Some("001")
    } else if str_eq(u, "JEQ") {
        Some("010")
    } else if str_eq(u, "JGE") {
        Some("011")
    } else if str_eq(u, "JLT") {
        Some("100")
    } else if str_eq(u, "JNE") {
        Some("101")
    } else if str_eq(u, "JLE") {
        Some("110")
    } else if str_eq(u, "JMP") {
        Some("111")
    } else {
        None
    };
    match code {
        Some(b) => Ok(String::from_str(b)),
        None => Err(String::from_str(JUMP_ERR)),
    }
}

/// The comp bits of `raw_command`: the `a` bit and six computation bits,
/// or an error naming the field.
pub fn build_comp_string(raw_command: &str) -> (r: Result<String, String>)
    ensures
        result_view(r) == comp_bits(raw_command@),
{
    let cmd_str = to_ascii_upper(raw_command);
    let a_bit = if str_contains(cmd_str.as_str(), 'M') {
        '1'
    } else {
        '0'
    };
    let translated_cmd = replace_chars(cmd_str.as_str(), 'M', 'A');
    let t = translated_cmd.as_str();
    let bin_repr: Option<&str> = if str_eq(t, "0") {
        Some("101010")
    } else if str_eq(t, "1") {
        Some("111111")
    } else if str_eq(t, "-1") {
        Some("111010")
    } else if str_eq(t, "D") {
        Some("001100")
    } else if str_eq(t, "A") {
        Some("110000")
    } else if str_eq(t, "!D") {
        Some("001101")
    } else if str_eq(t, "!A") {
        Some("110001")
    } else if str_eq(t, "-D") {
        Some("001111")
    } else if str_eq(t, "-A") {
        Some("110011")
    } else if str_eq(t, "D+1") || str_eq(t, "1+D") {
        Some("011111")
    } else if str_eq(t, "A+1") || str_eq(t, "1+A") {
        Some("110111")
    } else if str_eq(t, "D-1") {
        Some("001110")
    } else if str_eq(t, "A-1") {
        Some("110010")
    } else if str_eq(t, "D+A") || str_eq(t, "A+D") {
        Some("000010")
    } else if str_eq(t, "D-A") {
        Some("010011")
    } else if str_eq(t, "A-D") {
        Some("000111")
    } else if str_eq(t, "D&A") || str_eq(t, "A&D") {
        Some("000000")
    } else if str_eq(t, "D|A") || str_eq(t, "A|D") {
        Some("010101")
    } else {
        None
    };
    match bin_repr {
        Some(b) => {
            let mut final_result = String::new();
            push_char(&mut final_result, a_bit);
            final_result.append(b);
            assert(final_result@ =~= seq![a_bit] + b@);
            Ok(final_result)
        },
        None => {
            let mut e = String::from_str("Unrecognized comp command \"");
            e.append(t);
            e.append("\"");
            Err(e)
        },
    }
}

/// The machine code of the C instruction `code`, or the first error among
/// its fields (jump before comp).
pub fn translate_c_instr(code: &str) -> (r: Result<String, String>)
    ensures
        result_view(r) == c_instruction(code@),
{
    let has_eq = str_contains(code, '=');
    let comp1: &str = if has_eq {
        split_second_piece(code, '=')
    } else {
        code
    };
    let has_semi = str_contains(comp1, ';');
    let comp: &str = if has_semi {
        split_first_piece(comp1, ';')
    } else {
        comp1
    };
    if !has_eq && !has_semi {
        return Err(String::from_str(NO_FIELDS_ERR));
    }
    let dest_component = if has_eq {
        build_bin_dest_string("ADM", split_first_piece(code, '='))
    } else {
        String::from_str("000")
    };
    let jmp_component = if has_semi {
        match build_jmp_string(split_second_piece(comp1, ';')) {
            Ok(j) => j,
            Err(e) => return Err(e),
        }
    } else {
        String::from_str("000")
    };
    let comp_component = match build_comp_string(comp) {
        Ok(c) => c,
        Err(e) => return Err(e),
    };
    let mut final_result = String::from_str("111");
    final_result.append(comp_component.as_str());
    final_result.append(dest_component.as_str());
    final_result.append(jmp_component.as_str());
    Ok(final_result)
}

/// Translates one line with the help of the symbol table. An `@` line is an
/// A instruction: a decimal address, or a symbol, which gets the next free
/// address when it is new. Any other line is a C instruction.
pub fn process_one_line(line: &str, sym_tbl: &mut SymbolTable) -> (r: Result<String, String>)
    requires
        needs_new_symbol(line@, old(sym_tbl).table()) ==> old(sym_tbl).next_id() < isize::MAX,
    ensures
        (result_view(r), final(sym_tbl).table(), final(sym_tbl).next_id()) == line_step(
            line@,
            old(sym_tbl).table(),
            old(sym_tbl).next_id(),
        ),
{
    let n = line.unicode_len();
    if n == 0 {
        return Err(String::from_str(consts::ASSEMBLER_EMPTY_LINE));
    }
    let first_char = line.get_char(0);
    if first_char == '@' {
        let sub_str = line.substring_char(1, n);
        assert(sub_str@ == line@.drop_first());
        if let Some(val) = parse_usize(sub_str) {
            return Ok(translate_addr_instr(val));
        }
        match sym_tbl.get(sub_str) {
            Some(val) => {
                let pos_val = val as usize;
                return Ok(translate_addr_instr(pos_val));
            },
            None => {
                sym_tbl.add_to_symbol_table_auto(String::from_str(sub_str));
                let v = sym_tbl.get(sub_str).unwrap();
                return Ok(translate_addr_instr(v as usize));
            },
        }
    }
    translate_c_instr(line)
}

} // verus!
