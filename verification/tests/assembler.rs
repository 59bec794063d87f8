use lib::applications::assembler::{
    assemble, build_bin_dest_string, build_comp_string, build_jmp_string, plan_assembly,
    process_one_line, remove_last_delimiter, translate_addr_instr, translate_c_instr, Assembler,
    AssemblyPlan, Instructions, SymbolTable,
};
use lib::consts;

fn strings(v: &[&str]) -> Vec<String> {
    v.iter().map(|s| s.to_string()).collect()
}

#[test]
fn translate_a_instr() {
    // See if we can translate raw address decimal values correctly.
    assert_eq!(translate_addr_instr(17), "0000000000010001".to_string());
}

#[test]
fn test_dest_string() {
    let chars_in_order = "ADM";
    let only_a = "A";
    let ad = "DA";
    assert_eq!(build_bin_dest_string(chars_in_order, only_a), "100".to_string());
    assert_eq!(build_bin_dest_string(chars_in_order, ad), "110".to_string());
}

#[test]
fn a_instruction_edges() {
    assert_eq!(translate_addr_instr(0), "0000000000000000");
    assert_eq!(translate_addr_instr(1), "0000000000000001");
    assert_eq!(translate_addr_instr(32767), "0111111111111111");
    // Wider addresses are not cut: the field grows past 15 digits.
    assert_eq!(translate_addr_instr(32768), "01000000000000000");
    assert_eq!(translate_addr_instr(70000), "010001000101110000");
}

#[test]
fn dest_string_cases() {
    assert_eq!(build_bin_dest_string("ADM", ""), "000");
    assert_eq!(build_bin_dest_string("ADM", "amd"), "111");
    assert_eq!(build_bin_dest_string("ADM", "M"), "001");
    assert_eq!(build_bin_dest_string("ADM", "xyz"), "000");
    assert_eq!(build_bin_dest_string("", "ADM"), "");
}

#[test]
fn jump_strings() {
    assert_eq!(build_jmp_string("JGT"), Ok("001".to_string()));
    assert_eq!(build_jmp_string("jeq"), Ok("010".to_string()));
    assert_eq!(build_jmp_string("JGE"), Ok("011".to_string()));
    assert_eq!(build_jmp_string("JLT"), Ok("100".to_string()));
    assert_eq!(build_jmp_string("Jne"), Ok("101".to_string()));
    assert_eq!(build_jmp_string("JLE"), Ok("110".to_string()));
    assert_eq!(build_jmp_string("JMP"), Ok("111".to_string()));
    assert_eq!(build_jmp_string("JXX"), Err("Unrecognized jump command \"\"".to_string()));
    assert_eq!(build_jmp_string(""), Err("Unrecognized jump command \"\"".to_string()));
}

#[test]
fn comp_strings() {
    assert_eq!(build_comp_string("0"), Ok("0101010".to_string()));
    assert_eq!(build_comp_string("1"), Ok("0111111".to_string()));
    assert_eq!(build_comp_string("-1"), Ok("0111010".to_string()));
    assert_eq!(build_comp_string("D"), Ok("0001100".to_string()));
    assert_eq!(build_comp_string("A"), Ok("0110000".to_string()));
    assert_eq!(build_comp_string("M"), Ok("1110000".to_string()));
    assert_eq!(build_comp_string("!D"), Ok("0001101".to_string()));
    assert_eq!(build_comp_string("!m"), Ok("1110001".to_string()));
    assert_eq!(build_comp_string("-D"), Ok("0001111".to_string()));
    assert_eq!(build_comp_string("-A"), Ok("0110011".to_string()));
    assert_eq!(build_comp_string("D+1"), Ok("0011111".to_string()));
    assert_eq!(build_comp_string("1+D"), Ok("0011111".to_string()));
    assert_eq!(build_comp_string("M+1"), Ok("1110111".to_string()));
    assert_eq!(build_comp_string("D-1"), Ok("0001110".to_string()));
    assert_eq!(build_comp_string("A-1"), Ok("0110010".to_string()));
    assert_eq!(build_comp_string("D+M"), Ok("1000010".to_string()));
    assert_eq!(build_comp_string("M+D"), Ok("1000010".to_string()));
    assert_eq!(build_comp_string("D-A"), Ok("0010011".to_string()));
    assert_eq!(build_comp_string("M-D"), Ok("1000111".to_string()));
    assert_eq!(build_comp_string("D&A"), Ok("0000000".to_string()));
    assert_eq!(build_comp_string("A&D"), Ok("0000000".to_string()));
    assert_eq!(build_comp_string("d|m"), Ok("1010101".to_string()));
    assert_eq!(build_comp_string("Q"), Err("Unrecognized comp command \"Q\"".to_string()));
    assert_eq!(build_comp_string("m+2"), Err("Unrecognized comp command \"A+2\"".to_string()));
}

#[test]
fn c_instructions() {
    assert_eq!(translate_c_instr("D=A"), Ok("1110110000010000".to_string()));
    assert_eq!(translate_c_instr("d=a"), Ok("1110110000010000".to_string()));
    assert_eq!(translate_c_instr("0;JMP"), Ok("1110101010000111".to_string()));
    assert_eq!(translate_c_instr("M=M+1"), Ok("1111110111001000".to_string()));
    assert_eq!(translate_c_instr("AM=M-1"), Ok("1111110010101000".to_string()));
    assert_eq!(translate_c_instr("D;JGT"), Ok("1110001100000001".to_string()));
    assert_eq!(translate_c_instr("D=M;JGT"), Ok("1111110000010001".to_string()));
    assert_eq!(translate_c_instr("=D"), Ok("1110001100000000".to_string()));
    assert_eq!(
        translate_c_instr("D"),
        Err("No valid dest or jmp field defined, this is a malformed command.".to_string())
    );
    assert_eq!(translate_c_instr("D;JXX"), Err("Unrecognized jump command \"\"".to_string()));
    assert_eq!(translate_c_instr("D=Q"), Err("Unrecognized comp command \"Q\"".to_string()));
    // The jump field is checked before the comp field.
    assert_eq!(translate_c_instr("Q;JXX"), Err("Unrecognized jump command \"\"".to_string()));
}

#[test]
fn symbol_table_init() {
    let t = SymbolTable::init();
    for i in 0..16isize {
        assert_eq!(t.get(&format!("R{}", i)), Some(i));
    }
    assert_eq!(t.get("SCREEN"), Some(consts::SCREEN_LOC));
    assert_eq!(t.get("SCREEN"), Some(16384));
    assert_eq!(t.get("KBD"), Some(24576));
    assert_eq!(t.get("R16"), None);
    assert_eq!(t.get("r0"), None);
    assert_eq!(t.get("foo"), None);
}

#[test]
fn symbol_table_first_definition_wins() {
    let mut t = SymbolTable::init();
    t.add_to_symbol_table("x".to_string(), 5);
    assert_eq!(t.get("x"), Some(5));
    t.add_to_symbol_table("x".to_string(), 9);
    assert_eq!(t.get("x"), Some(5));
    t.add_to_symbol_table("R3".to_string(), 100);
    assert_eq!(t.get("R3"), Some(3));
    t.mass_add_to_symbol_table(vec![("y".to_string(), 1), ("y".to_string(), 2), ("KBD".to_string(), 7)]);
    assert_eq!(t.get("y"), Some(1));
    assert_eq!(t.get("KBD"), Some(24576));
}

#[test]
fn symbol_table_auto_assign() {
    let mut t = SymbolTable::init();
    t.add_to_symbol_table_auto("i".to_string());
    t.add_to_symbol_table_auto("j".to_string());
    t.add_to_symbol_table_auto("i".to_string());
    t.add_to_symbol_table_auto("R1".to_string());
    t.add_to_symbol_table_auto("k".to_string());
    assert_eq!(t.get("i"), Some(16));
    assert_eq!(t.get("j"), Some(17));
    assert_eq!(t.get("R1"), Some(1));
    assert_eq!(t.get("k"), Some(18));
}

#[test]
fn lines_are_cleaned_on_import() {
    let prog = Instructions::import_from_lines(strings(&["// comment", "", "@1", "/x", "D=A", "//", "/"]));
    assert_eq!(prog.len(), 4);
    assert_eq!(prog.get(0), Some("@1".to_string()));
    assert_eq!(prog.get(1), Some("/x".to_string()));
    assert_eq!(prog.get(2), Some("D=A".to_string()));
    assert_eq!(prog.get(3), Some("/".to_string()));
    assert_eq!(prog.get(4), None);
}

#[test]
fn blank_and_indented_comment_lines_are_dropped() {
    let prog = Instructions::import_from_lines(strings(&[
        "   ",
        "\t",
        "  // indented comment",
        "\t//tabbed comment",
        " @1 ",
        "\u{00A0}// after a no-break space",
        "  /x",
    ]));
    assert_eq!(prog.len(), 2);
    assert_eq!(prog.get(0), Some(" @1 ".to_string()));
    assert_eq!(prog.get(1), Some("  /x".to_string()));
    assert_eq!(
        assemble(strings(&["   ", "@2", "    // set D", "D=A", ""])),
        Ok(strings(&["0000000000000010", "1110110000010000"]))
    );
}

#[test]
fn labels_are_taken_out() {
    let mut prog =
        Instructions::import_from_lines(strings(&["@2", "(LOOP)", "D=A", "((END))", "@LOOP", "0;JMP"]));
    let labels = prog.parse_and_remove_labels().unwrap();
    // A label is worth one more than the number of instructions before it.
    assert_eq!(labels, vec![("LOOP".to_string(), 2), ("END".to_string(), 3)]);
    assert_eq!(prog.len(), 4);
    assert_eq!(prog.get(0), Some("@2".to_string()));
    assert_eq!(prog.get(1), Some("D=A".to_string()));
    assert_eq!(prog.get(2), Some("@LOOP".to_string()));
    assert_eq!(prog.get(3), Some("0;JMP".to_string()));
}

#[test]
fn numeric_labels_are_refused() {
    for bad in ["(123)", "()", "(²)"] {
        let mut prog = Instructions::import_from_lines(strings(&["@1", bad, "D=A"]));
        assert_eq!(prog.parse_and_remove_labels(), Err("Label name is invalid.".to_string()));
        assert_eq!(prog.len(), 3);
    }
    let mut prog = Instructions::import_from_lines(strings(&["(1a)"]));
    assert_eq!(prog.parse_and_remove_labels(), Ok(vec![("1a".to_string(), 1)]));
}

#[test]
fn one_line_at_a_time() {
    let mut t = SymbolTable::init();
    assert_eq!(process_one_line("@17", &mut t), Ok("0000000000010001".to_string()));
    assert_eq!(process_one_line("@+5", &mut t), Ok("0000000000000101".to_string()));
    assert_eq!(process_one_line("@R2", &mut t), Ok("0000000000000010".to_string()));
    assert_eq!(process_one_line("@SCREEN", &mut t), Ok("0100000000000000".to_string()));
    assert_eq!(process_one_line("@KBD", &mut t), Ok("0110000000000000".to_string()));
    assert_eq!(process_one_line("@i", &mut t), Ok("0000000000010000".to_string()));
    assert_eq!(process_one_line("@i", &mut t), Ok("0000000000010000".to_string()));
    assert_eq!(process_one_line("@-3", &mut t), Ok("0000000000010001".to_string()));
    assert_eq!(t.get("-3"), Some(17));
    assert_eq!(process_one_line("@", &mut t), Ok("0000000000010010".to_string()));
    assert_eq!(process_one_line("D=A", &mut t), Ok("1110110000010000".to_string()));
    assert_eq!(process_one_line("", &mut t), Err("Error: Did not expect empty line.".to_string()));
}

#[test]
fn instruction_by_index() {
    let prog = Instructions::import_from_lines(strings(&["@7", "D=A"]));
    let mut t = SymbolTable::init();
    assert_eq!(prog.process_one_instruction(0, &mut t), Ok("0000000000000111".to_string()));
    assert_eq!(prog.process_one_instruction(1, &mut t), Ok("1110110000010000".to_string()));
    assert_eq!(prog.process_one_instruction(2, &mut t), Err("No valid instruction exists.".to_string()));
}

#[test]
fn assembler_steps() {
    let mut assembler = Assembler::init_from_lines(strings(&["(START)", "@START", "0;JMP"]));
    assert_eq!(assembler.process_labels(), Ok(()));
    assert_eq!(
        assembler.translate_to_vec_str(),
        Ok(strings(&["0000000000000001", "1110101010000111"]))
    );

    let mut assembler = Assembler::init_from_lines(strings(&["@1", "D=Q"]));
    assert_eq!(assembler.process_labels(), Ok(()));
    assert_eq!(
        assembler.translate_to_vec_str(),
        Err("Error occurred in command D=Q: Unrecognized comp command \"Q\"".to_string())
    );

    let mut assembler = Assembler::init_from_lines(strings(&["(12)", "D=A"]));
    assert_eq!(assembler.process_labels(), Err("Label name is invalid.".to_string()));
}

#[test]
fn assemble_add_program() {
    let src = strings(&["// Adds 2 + 3", "@2", "D=A", "@3", "D=D+A", "@0", "M=D", ""]);
    assert_eq!(
        assemble(src),
        Ok(strings(&[
            "0000000000000010",
            "1110110000010000",
            "0000000000000011",
            "1110000010010000",
            "0000000000000000",
            "1110001100001000",
        ]))
    );
}

#[test]
fn assemble_symbols() {
    let src = strings(&["@i", "M=1", "@j", "@i", "@SCREEN", "@KBD", "(END)", "@END", "0;JMP"]);
    assert_eq!(
        assemble(src),
        Ok(strings(&[
            "0000000000010000",
            "1110111111001000",
            "0000000000010001",
            "0000000000010000",
            "0100000000000000",
            "0110000000000000",
            "0000000000000111",
            "1110101010000111",
        ]))
    );
}

#[test]
fn assemble_errors() {
    assert_eq!(assemble(strings(&["(99)"])), Err("Label name is invalid.".to_string()));
    assert_eq!(
        assemble(strings(&["@1", "X;JMP", "D"])),
        Err("Error occurred in command X;JMP: Unrecognized comp command \"X\"".to_string())
    );
    assert_eq!(assemble(Vec::new()), Ok(Vec::new()));
}

#[test]
fn last_delimiter() {
    assert_eq!(remove_last_delimiter("prog.asm", '.'), "prog");
    assert_eq!(remove_last_delimiter("dir.v1/file.tar.asm", '.'), "dir.v1/file.tar");
    assert_eq!(remove_last_delimiter("dir.v1/file", '.'), "dir");
    assert_eq!(remove_last_delimiter("file", '.'), "file");
    assert_eq!(remove_last_delimiter(".hidden", '.'), "");
    assert_eq!(remove_last_delimiter("", '.'), "");
}

#[test]
fn assembly_arguments() {
    match plan_assembly(&strings(&["prog", "asm"])) {
        AssemblyPlan::ShowHelp => {}
        _ => panic!("expected help"),
    }
    match plan_assembly(&strings(&["prog", "asm", "-o", "x.hack"])) {
        AssemblyPlan::NoInput => {}
        _ => panic!("expected no input"),
    }
    match plan_assembly(&strings(&["prog", "asm", "-i"])) {
        AssemblyPlan::NoInput => {}
        _ => panic!("expected no input"),
    }
    match plan_assembly(&strings(&["prog", "asm", "-i", "dir/Add.asm"])) {
        AssemblyPlan::Run { input, output } => {
            assert_eq!(input, "dir/Add.asm");
            assert_eq!(output, "dir/Add_out.hack");
        }
        _ => panic!("expected run"),
    }
    match plan_assembly(&strings(&["prog", "asm", "-I", "a.asm", "-O", "b.hack"])) {
        AssemblyPlan::Run { input, output } => {
            assert_eq!(input, "a.asm");
            assert_eq!(output, "b.hack");
        }
        _ => panic!("expected run"),
    }
    match plan_assembly(&strings(&["prog", "asm", "-i", "a", "-i", "b"])) {
        AssemblyPlan::Run { input, output } => {
            assert_eq!(input, "b");
            assert_eq!(output, "b_out.hack");
        }
        _ => panic!("expected run"),
    }
}
