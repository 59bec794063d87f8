//! Properties of the assembler that hold for every input.
use vstd::prelude::*;
use crate::text::{
    all_bits, binary_digits, binary_value, find_last, lemma_binary_digits,
    lemma_binary_value_zeros, two_pow, zero_pad,
};
use crate::text::{
    all_digits, ascii_upper, decimal_digits, decimal_value, is_numeric_char, lemma_decimal_digits,
    parse_usize_spec, upper_char,
};
use super::program::{is_program_line, label_name_invalid, program_lines, scan_labels};
use super::symbols::{define, define_all};
use super::flag_value;
use super::translate::{
    a_instruction, c_instruction, comp_bits, comp_code, dest_bits, jump_bits, jump_code,
    line_step,
};
use super::{run_program, strip_last_delimiter};

verus! {

/// An A instruction starts with `0`, holds only bits, and its bits after
/// the first read back as the address; an address below 2^15 gives exactly
/// 16 characters.
pub proof fn law_a_instruction(v: nat)
    ensures
        a_instruction(v)[0] == '0',
        all_bits(a_instruction(v)),
        binary_value(a_instruction(v).drop_first()) == v,
        a_instruction(v).len() >= 16,
        v < 32768 ==> a_instruction(v).len() == 16,
{
    lemma_binary_digits(v);
    let b = binary_digits(v);
    let p = zero_pad(b, 15);
    assert(a_instruction(v).drop_first() == p);
    if b.len() < 15 {
        lemma_binary_value_zeros((15 - b.len()) as nat, b);
    }
    assert(all_bits(a_instruction(v))) by {
        assert forall|i: int| 0 <= i < a_instruction(v).len() implies (#[trigger] a_instruction(
            v,
        )[i] == '0' || a_instruction(v)[i] == '1') by {
            if i > 0 {
                assert(a_instruction(v)[i] == p[i - 1]);
                if b.len() < 15 && i - 1 >= 15 - b.len() {
                    assert(p[i - 1] == b[i - 1 - (15 - b.len())]);
                }
            }
        }
    }
    if v < 32768 {
        reveal_with_fuel(two_pow, 16);
        assert(two_pow(15) == 32768);
    }
}

/// Every comp code is six bits.
pub proof fn lemma_comp_code_bits(t: Seq<char>)
    ensures
        comp_code(t) matches Some(b) ==> b.len() == 6 && all_bits(b),
{
    reveal_strlit("101010");
    reveal_strlit("111111");
    reveal_strlit("111010");
    reveal_strlit("001100");
    reveal_strlit("110000");
    reveal_strlit("001101");
    reveal_strlit("110001");
    reveal_strlit("001111");
    reveal_strlit("110011");
    reveal_strlit("011111");
    reveal_strlit("110111");
    reveal_strlit("001110");
    reveal_strlit("110010");
    reveal_strlit("000010");
    reveal_strlit("010011");
    reveal_strlit("000111");
    reveal_strlit("000000");
    reveal_strlit("010101");
}

/// Every jump code is three bits.
pub proof fn lemma_jump_code_bits(j: Seq<char>)
    ensures
        jump_code(j) matches Some(b) ==> b.len() == 3 && all_bits(b),
{
    reveal_strlit("001");
    reveal_strlit("010");
    reveal_strlit("011");
    reveal_strlit("100");
    reveal_strlit("101");
    reveal_strlit("110");
    reveal_strlit("111");
}

/// A C instruction that translates gives 16 bits starting with `111`.
pub proof fn law_c_instruction(code: Seq<char>)
    ensures
        c_instruction(code) matches Ok(out) ==> {
            &&& out.len() == 16
            &&& out.take(3) == "111"@
            &&& all_bits(out)
        },
{
    reveal_strlit("111");
    reveal_strlit("000");
    reveal_strlit("ADM");
    if let Ok(out) = c_instruction(code) {
        let has_eq = code.contains('=');
        let comp1 = if has_eq {
            crate::text::second_piece(code, '=')
        } else {
            code
        };
        let has_semi = comp1.contains(';');
        let comp = if has_semi {
            crate::text::piece_before(comp1, ';')
        } else {
            comp1
        };
        let dest = if has_eq {
            dest_bits("ADM"@, crate::text::piece_before(code, '='))
        } else {
            "000"@
        };
        let jmp = if has_semi {
            jump_bits(crate::text::second_piece(comp1, ';'))
        } else {
            Ok("000"@)
        };
        if has_semi {
            lemma_jump_code_bits(crate::text::second_piece(comp1, ';'));
        }
        let t = replace_for(comp);
        lemma_comp_code_bits(t);
        let j = jmp->Ok_0;
        let c = comp_bits(comp)->Ok_0;
        assert(out == "111"@ + c + dest + j);
        assert(dest.len() == 3 && all_bits(dest));
        assert(c.len() == 7 && all_bits(c)) by {
            let a = c[0];
            assert(c == seq![a] + comp_code(t).unwrap());
        }
        assert(out.take(3) =~= "111"@);
        assert forall|i: int| 0 <= i < out.len() implies (#[trigger] out[i] == '0' || out[i]
            == '1') by {
            if i < 3 {
                assert(out[i] == "111"@[i]);
            } else if i < 10 {
                assert(out[i] == c[i - 3]);
            } else if i < 13 {
                assert(out[i] == dest[i - 10]);
            } else {
                assert(out[i] == j[i - 13]);
            }
        }
    }
}

/// The comp field as the table looks it up.
spec fn replace_for(comp: Seq<char>) -> Seq<char> {
    crate::text::replace_char(crate::text::ascii_upper(comp), 'M', 'A')
}

/// Every line that translates gives a machine word of bits, at least 16 long.
pub proof fn law_line_output_is_bits(line: Seq<char>, table: Map<Seq<char>, isize>, next: isize)
    ensures
        line_step(line, table, next).0 matches Ok(s) ==> all_bits(s) && s.len() >= 16,
{
    law_c_instruction(line);
    if line.len() > 0 && line[0] == '@' {
        let sub = line.drop_first();
        if let Some(v) = crate::text::parse_usize_spec(sub) {
            law_a_instruction(v as nat);
        } else if table.contains_key(sub) {
            law_a_instruction((table[sub] as usize) as nat);
        } else {
            law_a_instruction((next as usize) as nat);
        }
    }
}

/// Translating a line a second time gives the same result and changes
/// nothing more: a variable keeps the address it got first.
pub proof fn law_line_step_stable(line: Seq<char>, table: Map<Seq<char>, isize>, next: isize)
    ensures
        ({
            let first = line_step(line, table, next);
            line_step(line, first.1, first.2) == first
        }),
{
}

/// Two new variables, one after the other, get consecutive addresses.
pub proof fn law_new_variables_consecutive(
    x: Seq<char>,
    y: Seq<char>,
    table: Map<Seq<char>, isize>,
    next: isize,
)
    requires
        x != y,
        crate::text::parse_usize_spec(x) is None,
        crate::text::parse_usize_spec(y) is None,
        !table.contains_key(x),
        !table.contains_key(y),
        0 <= next,
        next + 1 < isize::MAX,
    ensures
        ({
            let first = line_step(seq!['@'] + x, table, next);
            let second = line_step(seq!['@'] + y, first.1, first.2);
            &&& first.0 == Ok::<Seq<char>, Seq<char>>(a_instruction(next as nat))
            &&& second.0 == Ok::<Seq<char>, Seq<char>>(a_instruction((next + 1) as nat))
            &&& second.1[x] == next
            &&& second.1[y] == next + 1
            &&& second.2 == next + 2
        }),
{
    assert((seq!['@'] + x).drop_first() == x);
    assert((seq!['@'] + y).drop_first() == y);
}

/// A symbol that is defined keeps its value: a later definition of it is
/// ignored.
pub proof fn law_first_definition_wins(
    table: Map<Seq<char>, isize>,
    sym: Seq<char>,
    v1: isize,
    v2: isize,
)
    ensures
        define(define(table, sym, v1), sym, v2) == define(table, sym, v1),
        define(table, sym, v1)[sym] == (if table.contains_key(sym) {
            table[sym]
        } else {
            v1
        }),
{
}

/// Defining a list of symbols never changes one already in the table, so
/// a label cannot take the name of a predefined symbol away from it.
pub proof fn law_define_all_keeps(
    table: Map<Seq<char>, isize>,
    pairs: Seq<(Seq<char>, isize)>,
    k: Seq<char>,
)
    requires
        table.contains_key(k),
    ensures
        define_all(table, pairs).contains_key(k),
        define_all(table, pairs)[k] == table[k],
    decreases pairs.len(),
{
    if pairs.len() > 0 {
        law_define_all_keeps(table, pairs.drop_last(), k);
    }
}

/// After reading, the program holds no blank line and no `//` comment line.
pub proof fn law_program_lines_clean(source: Seq<Seq<char>>)
    ensures
        forall|i: int|
            0 <= i < program_lines(source).len() ==> is_program_line(
                #[trigger] program_lines(source)[i],
            ),
{
    broadcast use vstd::seq_lib::group_filter_ensures;

    assert forall|i: int| 0 <= i < program_lines(source).len() implies is_program_line(
        #[trigger] program_lines(source)[i],
    ) by {
        let pred = |l: Seq<char>| is_program_line(l);
        assert(pred(source.filter(pred)[i]));
    }
}

/// A line that is kept as an instruction: not empty and not a label.
pub open spec fn is_instruction_line(l: Seq<char>) -> bool {
    l.len() > 0 && l[0] != '('
}

/// When the label pass succeeds, the lines it keeps are exactly the
/// non-empty lines that are not labels, in their order.
pub proof fn law_labels_removed(lines: Seq<Seq<char>>)
    ensures
        !scan_labels(lines).2 ==> scan_labels(lines).0 == lines.filter(
            |l: Seq<char>| is_instruction_line(l),
        ),
    decreases lines.len(),
{
    reveal(Seq::filter);
    if lines.len() > 0 {
        law_labels_removed(lines.drop_last());
    }
}

/// A run that succeeds gives one machine word per line, each a string of
/// bits at least 16 long.
pub proof fn law_run_output(lines: Seq<Seq<char>>, table: Map<Seq<char>, isize>, next: isize)
    ensures
        run_program(lines, table, next).0 matches Ok(outs) ==> {
            &&& outs.len() == lines.len()
            &&& forall|i: int|
                0 <= i < outs.len() ==> all_bits(#[trigger] outs[i]) && outs[i].len() >= 16
        },
    decreases lines.len(),
{
    if lines.len() > 0 {
        law_run_output(lines.drop_last(), table, next);
        let prev = run_program(lines.drop_last(), table, next);
        law_line_output_is_bits(lines.last(), prev.1, prev.2);
    }
}

/// Where `s` holds `delim`, `s` is the text before its last `delim`, the
/// `delim`, and a rest without `delim`.
pub proof fn law_strip_last_delimiter(s: Seq<char>, delim: char)
    ensures
        s.contains(delim) ==> {
            let before = strip_last_delimiter(s, delim);
            let rest = s.skip(before.len() + 1int);
            &&& s == before + seq![delim] + rest
            &&& !rest.contains(delim)
        },
        !s.contains(delim) ==> strip_last_delimiter(s, delim) == s,
{
    crate::text::lemma_find_last(s, delim);
    if s.contains(delim) {
        let k = find_last(s, delim).unwrap();
        let before = strip_last_delimiter(s, delim);
        let rest = s.skip(before.len() + 1int);
        assert(s =~= before + seq![delim] + rest);
        if rest.contains(delim) {
            let j = choose|j: int| 0 <= j < rest.len() && rest[j] == delim;
            assert(s[k + 1 + j] == delim);
        }
    }
}

// ---------------------------------------------------------------------
// Label names
// ---------------------------------------------------------------------

/// ASCII letters are not numeric and ASCII digits are.
pub proof fn law_ascii_numeric(c: char)
    ensures
        ('a' <= c && c <= 'z') || ('A' <= c && c <= 'Z') ==> !is_numeric_char(c),
        ('0' <= c && c <= '9') ==> is_numeric_char(c),
{
}

/// A label name is refused exactly when every one of its characters is
/// numeric: a name holding any non-numeric character (such as a letter,
/// wherever it stands) is accepted.
pub proof fn law_label_name_refused_iff_all_numeric(name: Seq<char>)
    ensures
        label_name_invalid(name) <==> forall|i: int|
            0 <= i < name.len() ==> is_numeric_char(#[trigger] name[i]),
        (exists|i: int|
            0 <= i < name.len() && (('a' <= #[trigger] name[i] && name[i] <= 'z') || ('A'
                <= name[i] && name[i] <= 'Z'))) ==> !label_name_invalid(name),
{
    if exists|i: int|
        0 <= i < name.len() && (('a' <= #[trigger] name[i] && name[i] <= 'z') || ('A' <= name[i]
            && name[i] <= 'Z')) {
        let i = choose|i: int|
            0 <= i < name.len() && (('a' <= #[trigger] name[i] && name[i] <= 'z') || ('A'
                <= name[i] && name[i] <= 'Z'));
        law_ascii_numeric(name[i]);
    }
}

/// A label line whose name holds a non-numeric character, read after lines
/// that the pass accepted, is recorded with one more than the number of
/// instructions kept before it.
pub proof fn law_label_recorded(lines: Seq<Seq<char>>, l: Seq<char>)
    requires
        !scan_labels(lines).2,
        l.len() > 0,
        l[0] == '(',
        exists|i: int|
            0 <= i < crate::text::trim_parens(l).len() && !is_numeric_char(
                #[trigger] crate::text::trim_parens(l)[i],
            ),
    ensures
        !scan_labels(lines.push(l)).2,
        scan_labels(lines.push(l)).0 == scan_labels(lines).0,
        scan_labels(lines.push(l)).1 == scan_labels(lines).1.push(
            (crate::text::trim_parens(l), (scan_labels(lines).0.len() + 1) as isize),
        ),
{
    assert(lines.push(l).drop_last() == lines);
    law_label_name_refused_iff_all_numeric(crate::text::trim_parens(l));
}

// ---------------------------------------------------------------------
// Decimal addresses
// ---------------------------------------------------------------------

/// The decimal form of any `usize` reads back as that number, with or
/// without a leading `+`, whatever its number of digits.
pub proof fn law_parse_usize_round_trip(n: usize)
    ensures
        parse_usize_spec(decimal_digits(n as nat)) == Some(n),
        parse_usize_spec(seq!['+'] + decimal_digits(n as nat)) == Some(n),
{
    lemma_decimal_digits_all_digits(n as nat);
    lemma_decimal_digits(n as nat);
    let d = decimal_digits(n as nat);
    assert(d[0] != '+');
    assert((seq!['+'] + d).drop_first() == d);
}

/// The decimal form of a number holds only digits.
pub proof fn lemma_decimal_digits_all_digits(n: nat)
    ensures
        all_digits(decimal_digits(n)),
    decreases n,
{
    if n >= 10 {
        lemma_decimal_digits_all_digits(n / 10);
        let s = decimal_digits(n);
        assert forall|i: int| 0 <= i < s.len() implies crate::text::is_digit(#[trigger] s[i]) by {
            if i < s.len() - 1 {
                assert(s[i] == decimal_digits(n / 10)[i]);
            }
        }
    }
}

/// Every string of decimal digits whose value fits in a `usize` reads as
/// that value, and a leading zero changes nothing.
pub proof fn law_parse_usize_digits(d: Seq<char>)
    requires
        d.len() > 0,
        all_digits(d),
        decimal_value(d) <= usize::MAX,
    ensures
        parse_usize_spec(d) == Some(decimal_value(d) as usize),
        parse_usize_spec(seq!['0'] + d) == parse_usize_spec(d),
{
    assert(d[0] != '+');
    let z = seq!['0'] + d;
    lemma_leading_zero_value(d);
    assert(all_digits(z)) by {
        assert forall|i: int| 0 <= i < z.len() implies crate::text::is_digit(#[trigger] z[i]) by {
            if i > 0 {
                assert(z[i] == d[i - 1]);
            }
        }
    }
}

/// A leading zero does not change the value of a digit string.
pub proof fn lemma_leading_zero_value(d: Seq<char>)
    ensures
        decimal_value(seq!['0'] + d) == decimal_value(d),
    decreases d.len(),
{
    let z = seq!['0'] + d;
    if d.len() > 0 {
        assert(z.drop_last() == seq!['0'] + d.drop_last());
        assert(z.last() == d.last());
        lemma_leading_zero_value(d.drop_last());
    } else {
        assert(z.drop_last() =~= Seq::<char>::empty());
        assert(decimal_value(z.drop_last()) == 0);
        assert(z.last() == '0');
        assert(crate::text::digit_value('0') == 0);
    }
}

/// A line `@` followed by the decimal form of a `usize` is the A instruction
/// for that address, and leaves the symbol table alone.
pub proof fn law_numeric_address_line(n: usize, table: Map<Seq<char>, isize>, next: isize)
    ensures
        line_step(seq!['@'] + decimal_digits(n as nat), table, next) == (
            Ok::<Seq<char>, Seq<char>>(a_instruction(n as nat)),
            table,
            next,
        ),
{
    law_parse_usize_round_trip(n);
    assert((seq!['@'] + decimal_digits(n as nat)).drop_first() == decimal_digits(n as nat));
}

// ---------------------------------------------------------------------
// Case of mnemonics
// ---------------------------------------------------------------------

/// Whether `a` and `b` are the same text up to the ASCII case of letters.
pub open spec fn same_ignoring_ascii_case(a: Seq<char>, b: Seq<char>) -> bool {
    &&& a.len() == b.len()
    &&& forall|i: int|
        0 <= i < a.len() ==> {
            ||| #[trigger] a[i] == b[i]
            ||| ('a' <= a[i] && a[i] <= 'z' && (b[i] as int) == (a[i] as int) - 32)
            ||| ('a' <= b[i] && b[i] <= 'z' && (a[i] as int) == (b[i] as int) - 32)
        }
}

/// ASCII upper case turns every lower-case letter into its capital and
/// keeps every other character: no lower-case ASCII letter is left.
pub proof fn law_ascii_upper(s: Seq<char>)
    ensures
        ascii_upper(s).len() == s.len(),
        forall|i: int|
            0 <= i < s.len() ==> !('a' <= #[trigger] ascii_upper(s)[i] && ascii_upper(s)[i]
                <= 'z'),
        forall|i: int|
            0 <= i < s.len() && 'a' <= s[i] && s[i] <= 'z' ==> (#[trigger] ascii_upper(s)[i] as int)
                == (s[i] as int) - 32,
        forall|i: int|
            0 <= i < s.len() && !('a' <= s[i] && s[i] <= 'z') ==> #[trigger] ascii_upper(s)[i]
                == s[i],
{
}

/// Texts that differ only in the ASCII case of letters have the same upper
/// case.
pub proof fn lemma_same_case_same_upper(a: Seq<char>, b: Seq<char>)
    requires
        same_ignoring_ascii_case(a, b),
    ensures
        ascii_upper(a) == ascii_upper(b),
{
    assert forall|i: int| 0 <= i < a.len() implies upper_char(a[i]) == upper_char(b[i]) by {
        if a[i] != b[i] {
            if 'a' <= a[i] && a[i] <= 'z' {
                assert((b[i] as int) == (a[i] as int) - 32);
            } else {
                assert((a[i] as int) == (b[i] as int) - 32);
            }
        }
    }
    assert(ascii_upper(a) =~= ascii_upper(b));
}

/// Mnemonics are read without regard to ASCII case: texts that differ only
/// in the case of letters give the same jump bits, comp bits, dest bits and
/// C instruction.
pub proof fn law_case_insensitive(a: Seq<char>, b: Seq<char>, order: Seq<char>)
    requires
        same_ignoring_ascii_case(a, b),
    ensures
        jump_code(a) == jump_code(b),
        jump_bits(a) == jump_bits(b),
        comp_bits(a) == comp_bits(b),
        dest_bits(order, a) == dest_bits(order, b),
{
    lemma_same_case_same_upper(a, b);
}

/// A lower-case jump mnemonic is read as its capital.
pub proof fn law_lower_case_jump()
    ensures
        jump_code("jgt"@) == Some("001"@),
        jump_code("jgt"@) == jump_code("JGT"@),
{
    reveal_strlit("jgt");
    reveal_strlit("JGT");
    assert(ascii_upper("jgt"@) =~= "JGT"@);
    assert(ascii_upper("JGT"@) =~= "JGT"@);
}

/// Each dest bit is `1` exactly when the field names that register, in
/// either ASCII case; there is one bit per register of `order`.
pub proof fn law_dest_bits(order: Seq<char>, input: Seq<char>)
    ensures
        dest_bits(order, input).len() == order.len(),
        forall|i: int|
            0 <= i < order.len() ==> (#[trigger] dest_bits(order, input)[i] == '1' <==> exists|
                j: int,
            | 0 <= j < input.len() && upper_char(input[j]) == order[i]),
        forall|i: int|
            0 <= i < order.len() ==> (dest_bits(order, input)[i] == '1' || #[trigger] dest_bits(
                order,
                input,
            )[i] == '0'),
{
    assert forall|i: int| 0 <= i < order.len() implies (#[trigger] dest_bits(order, input)[i]
        == '1' <==> exists|j: int| 0 <= j < input.len() && upper_char(input[j]) == order[i]) by {
        if ascii_upper(input).contains(order[i]) {
            let j = choose|j: int| 0 <= j < ascii_upper(input).len() && ascii_upper(input)[j] == order[i];
            assert(upper_char(input[j]) == order[i]);
        }
        if exists|j: int| 0 <= j < input.len() && upper_char(input[j]) == order[i] {
            let j = choose|j: int| 0 <= j < input.len() && upper_char(input[j]) == order[i];
            assert(ascii_upper(input)[j] == order[i]);
        }
    }
}

/// The `a` bit of a comp field is `1` exactly when the field names `M`, in
/// either case.
pub proof fn law_comp_a_bit(raw: Seq<char>)
    ensures
        comp_bits(raw) matches Ok(b) ==> (b[0] == '1' <==> exists|j: int|
            0 <= j < raw.len() && (raw[j] == 'M' || raw[j] == 'm')),
{
    if let Ok(b) = comp_bits(raw) {
        let u = ascii_upper(raw);
        if u.contains('M') {
            let j = choose|j: int| 0 <= j < u.len() && u[j] == 'M';
            assert(raw[j] == 'M' || raw[j] == 'm');
        }
        if exists|j: int| 0 <= j < raw.len() && (raw[j] == 'M' || raw[j] == 'm') {
            let j = choose|j: int| 0 <= j < raw.len() && (raw[j] == 'M' || raw[j] == 'm');
            assert(u[j] == 'M');
        }
    }
}

// ---------------------------------------------------------------------
// Adding a list of labels
// ---------------------------------------------------------------------

/// A key that is neither in the table nor among the pairs stays out.
pub proof fn lemma_define_all_absent(
    table: Map<Seq<char>, isize>,
    pairs: Seq<(Seq<char>, isize)>,
    k: Seq<char>,
)
    requires
        !table.contains_key(k),
        forall|j: int| 0 <= j < pairs.len() ==> (#[trigger] pairs[j]).0 != k,
    ensures
        !define_all(table, pairs).contains_key(k),
    decreases pairs.len(),
{
    if pairs.len() > 0 {
        assert forall|j: int| 0 <= j < pairs.drop_last().len() implies (
        #[trigger] pairs.drop_last()[j]).0 != k by {
            assert(pairs.drop_last()[j] == pairs[j]);
        }
        lemma_define_all_absent(table, pairs.drop_last(), k);
        assert(pairs[pairs.len() - 1].0 != k);
    }
}

/// Adding a list of pairs gives each new name the value paired with its
/// first occurrence in the list; names neither in the table nor in the list
/// stay undefined.
pub proof fn law_define_all_first_occurrence(
    table: Map<Seq<char>, isize>,
    pairs: Seq<(Seq<char>, isize)>,
    k: Seq<char>,
    i: int,
)
    requires
        !table.contains_key(k),
        0 <= i < pairs.len(),
        pairs[i].0 == k,
        forall|j: int| 0 <= j < i ==> (#[trigger] pairs[j]).0 != k,
    ensures
        define_all(table, pairs).contains_key(k),
        define_all(table, pairs)[k] == pairs[i].1,
    decreases pairs.len(),
{
    let m = pairs.len() - 1;
    if i < m {
        assert forall|j: int| 0 <= j < i implies (#[trigger] pairs.drop_last()[j]).0 != k by {
            assert(pairs.drop_last()[j] == pairs[j]);
        }
        assert(pairs.drop_last()[i] == pairs[i]);
        law_define_all_first_occurrence(table, pairs.drop_last(), k, i);
    } else {
        assert forall|j: int| 0 <= j < pairs.drop_last().len() implies (
        #[trigger] pairs.drop_last()[j]).0 != k by {
            assert(pairs.drop_last()[j] == pairs[j]);
        }
        lemma_define_all_absent(table, pairs.drop_last(), k);
    }
}

// ---------------------------------------------------------------------
// Command-line flags
// ---------------------------------------------------------------------

/// Whether argument `i` is `flag` (in any ASCII case) with a value after it.
pub open spec fn flag_at(args: Seq<Seq<char>>, flag: Seq<char>, i: int) -> bool {
    2 <= i && i + 1 < args.len() && ascii_upper(args[i]) == flag
}

/// The value of a flag is the argument after its last occurrence (from
/// position 2 on) that has one, whatever the other flags around it; with no
/// such occurrence there is none.
pub proof fn law_flag_value(args: Seq<Seq<char>>, flag: Seq<char>, k: nat)
    ensures
        (exists|i: int| i < k && #[trigger] flag_at(args, flag, i)) ==> flag_value(
            args,
            flag,
            k,
        ) is Some,
        (forall|i: int| i < k ==> !#[trigger] flag_at(args, flag, i)) ==> flag_value(
            args,
            flag,
            k,
        ) is None,
        flag_value(args, flag, k) matches Some(v) ==> exists|i: int|
            i < k && #[trigger] flag_at(args, flag, i) && v == args[i + 1] && forall|j: int|
                i < j < k ==> !flag_at(args, flag, j),
    decreases k,
{
    if k > 2 {
        let i = (k - 1) as nat;
        law_flag_value(args, flag, i);
        if flag_at(args, flag, i as int) {
            assert(flag_value(args, flag, k) == Some(args[i + 1int]));
        } else {
            if exists|j: int| j < k && #[trigger] flag_at(args, flag, j) {
                let j = choose|j: int| j < k && #[trigger] flag_at(args, flag, j);
                assert(j < i);
            }
            if let Some(v) = flag_value(args, flag, k) {
                let j = choose|j: int|
                    j < i && #[trigger] flag_at(args, flag, j) && v == args[j + 1] && forall|m: int|
                        j < m < i ==> !flag_at(args, flag, m);
                assert(forall|m: int| j < m < k ==> !flag_at(args, flag, m));
            }
        }
    } else {
        assert(forall|i: int| i < k ==> !#[trigger] flag_at(args, flag, i));
    }
}

} // verus!
