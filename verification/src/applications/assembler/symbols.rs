//! The symbol table: names of labels, variables and predefined locations,
//! each with its address.
use vstd::prelude::*;
use vstd::hash_map::StringHashMap;
use crate::consts;
use crate::text::{decimal_digits, lemma_decimal_digits, push_decimal};

verus! {

/// What a lookup of `key` in `table` gives.
pub open spec fn lookup(table: Map<Seq<char>, isize>, key: Seq<char>) -> Option<isize> {
    if table.contains_key(key) {
        Some(table[key])
    } else {
        None
    }
}

/// `table` with `sym` defined as `val`, unless `sym` is already defined:
/// the first definition of a symbol is the one that stays.
pub open spec fn define(table: Map<Seq<char>, isize>, sym: Seq<char>, val: isize) -> Map<
    Seq<char>,
    isize,
> {
    if table.contains_key(sym) {
        table
    } else {
        table.insert(sym, val)
    }
}

/// `table` after defining each pair of `pairs` in order.
pub open spec fn define_all(table: Map<Seq<char>, isize>, pairs: Seq<(Seq<char>, isize)>) -> Map<
    Seq<char>,
    isize,
>
    decreases pairs.len(),
{
    if pairs.len() == 0 {
        table
    } else {
        define(define_all(table, pairs.drop_last()), pairs.last().0, pairs.last().1)
    }
}

/// The table and next free address after giving `sym` the next free
/// address `next`, unless `sym` is already defined.
pub open spec fn define_auto(table: Map<Seq<char>, isize>, next: isize, sym: Seq<char>) -> (Map<
    Seq<char>,
    isize,
>, isize) {
    if table.contains_key(sym) {
        (table, next)
    } else {
        (table.insert(sym, next), (next + 1) as isize)
    }
}

/// The views of a list of name and value pairs.
pub open spec fn pairs_view(pairs: Seq<(String, isize)>) -> Seq<(Seq<char>, isize)> {
    pairs.map_values(|p: (String, isize)| (p.0@, p.1))
}

/// The name of register `i`: `R` followed by `i` in decimal.
pub open spec fn register_name(i: nat) -> Seq<char> {
    seq!['R'] + decimal_digits(i)
}

/// `table` with the registers `R0` to `R(n-1)` added, register `i` at
/// address `next + i`.
pub open spec fn registers_from(table: Map<Seq<char>, isize>, next: isize, n: nat) -> Map<
    Seq<char>,
    isize,
>
    decreases n,
{
    if n == 0 {
        table
    } else {
        registers_from(table, next, (n - 1) as nat).insert(
            register_name((n - 1) as nat),
            (next + n - 1) as isize,
        )
    }
}

/// `table` with the registers `R0` to `R15` from address `next` on, then
/// `SCREEN` at 16384 and `KBD` at 24576.
pub open spec fn with_hard_coded_symbols(table: Map<Seq<char>, isize>, next: isize) -> Map<
    Seq<char>,
    isize,
> {
    registers_from(table, next, 16).insert("SCREEN"@, 16384).insert("KBD"@, 24576)
}

/// The symbols every program starts with: `R0` to `R15` at 0 to 15,
/// `SCREEN` at 16384 and `KBD` at 24576.
pub open spec fn predefined_symbols() -> Map<Seq<char>, isize> {
    with_hard_coded_symbols(Map::empty(), 0)
}

/// Whether none of the hard-coded symbols (`R0` to `R15`, `SCREEN`, `KBD`)
/// is in `table`.
pub open spec fn lacks_hard_coded_symbols(table: Map<Seq<char>, isize>) -> bool {
    &&& forall|i: nat| i < 16 ==> !table.contains_key(#[trigger] register_name(i))
    &&& !table.contains_key("SCREEN"@)
    &&& !table.contains_key("KBD"@)
}

/// Different registers have different names.
pub proof fn lemma_register_names_distinct(i: nat, j: nat)
    requires
        i != j,
    ensures
        register_name(i) != register_name(j),
{
    lemma_decimal_digits(i);
    lemma_decimal_digits(j);
    if register_name(i) == register_name(j) {
        assert(register_name(i).drop_first() == decimal_digits(i));
        assert(register_name(j).drop_first() == decimal_digits(j));
    }
}

/// No register is called `SCREEN` or `KBD`, and those two differ.
pub proof fn lemma_screen_kbd_not_registers()
    ensures
        forall|i: nat| #[trigger] register_name(i) != "SCREEN"@ && register_name(i) != "KBD"@,
        "SCREEN"@ != "KBD"@,
{
    reveal_strlit("SCREEN");
    reveal_strlit("KBD");
    assert forall|i: nat| #[trigger] register_name(i) != "SCREEN"@ && register_name(i) != "KBD"@ by {
        assert(register_name(i)[0] == 'R');
    }
    assert("SCREEN"@.len() != "KBD"@.len());
}

/// Adding the registers `R0` to `R(n-1)` from address `next` gives each its
/// address and keeps every other symbol.
pub proof fn lemma_registers_from(table: Map<Seq<char>, isize>, next: isize, n: nat)
    requires
        next + n <= isize::MAX,
    ensures
        forall|i: nat|
            i < n ==> #[trigger] registers_from(table, next, n).contains_key(register_name(i))
                && registers_from(table, next, n)[register_name(i)] == next + i,
        forall|k: Seq<char>|
            (forall|i: nat| i < n ==> k != #[trigger] register_name(i)) ==> (#[trigger]
            registers_from(table, next, n).contains_key(k) == table.contains_key(k)
                && registers_from(table, next, n)[k] == table[k]),
        forall|k: Seq<char>| #[trigger]
            registers_from(table, next, n).contains_key(k) ==> table.contains_key(k) || exists|
                i: nat,
            | i < n && k == register_name(i),
    decreases n,
{
    if n > 0 {
        let m = (n - 1) as nat;
        lemma_registers_from(table, next, m);
        let prev = registers_from(table, next, m);
        assert(registers_from(table, next, n) == prev.insert(register_name(m), (next + m) as isize));
        assert forall|i: nat| i < n implies #[trigger] registers_from(
            table,
            next,
            n,
        ).contains_key(register_name(i)) && registers_from(table, next, n)[register_name(i)]
            == next + i by {
            if i < m {
                lemma_register_names_distinct(i, m);
                assert(prev.contains_key(register_name(i)));
            }
        }
        assert forall|k: Seq<char>| #[trigger]
            registers_from(table, next, n).contains_key(k) implies table.contains_key(k) || exists|
            i: nat,
        | i < n && k == register_name(i) by {
            if k != register_name(m) && !table.contains_key(k) {
                assert(prev.contains_key(k));
                let i = choose|i: nat| i < m && k == register_name(i);
                assert(i < n && k == register_name(i));
            }
        }
        assert forall|k: Seq<char>|
            (forall|i: nat| i < n ==> k != #[trigger] register_name(i)) implies (#[trigger]
            registers_from(table, next, n).contains_key(k) == table.contains_key(k)
                && registers_from(table, next, n)[k] == table[k]) by {
            assert(k != register_name(m));
            assert forall|i: nat| i < m implies k != #[trigger] register_name(i) by {
                assert(i < n);
            }
        }
    }
}

/// The predefined symbols: `R0` to `R15` at 0 to 15, `SCREEN` at 16384,
/// `KBD` at 24576, and nothing else.
pub proof fn lemma_predefined_symbols()
    ensures
        forall|i: nat|
            i < 16 ==> #[trigger] predefined_symbols().contains_key(register_name(i))
                && predefined_symbols()[register_name(i)] == i as isize,
        predefined_symbols().contains_key("SCREEN"@),
        predefined_symbols()["SCREEN"@] == 16384,
        predefined_symbols().contains_key("KBD"@),
        predefined_symbols()["KBD"@] == 24576,
        forall|k: Seq<char>| #[trigger]
            predefined_symbols().contains_key(k) ==> k == "SCREEN"@ || k == "KBD"@ || exists|
                i: nat,
            | i < 16 && k == register_name(i),
{
    lemma_registers_from(Map::empty(), 0, 16);
    lemma_screen_kbd_not_registers();
    let r = registers_from(Map::empty(), 0, 16);
    assert forall|i: nat| i < 16 implies #[trigger] predefined_symbols().contains_key(
        register_name(i),
    ) && predefined_symbols()[register_name(i)] == i as isize by {
        assert(r.contains_key(register_name(i)));
        assert(register_name(i) != "SCREEN"@ && register_name(i) != "KBD"@);
    }
}

/// A table from symbol names to addresses, with the next address to give
/// to a new variable.
pub struct SymbolTable {
    main_table: StringHashMap<isize>,
    auto_assign_id: isize,
}

impl SymbolTable {
    /// The defined symbols and their addresses.
    pub closed spec fn table(&self) -> Map<Seq<char>, isize> {
        self.main_table@
    }

    /// The address the next new variable gets.
    pub closed spec fn next_id(&self) -> isize {
        self.auto_assign_id
    }

    fn new() -> (r: Self)
        ensures
            r.table() == Map::<Seq<char>, isize>::empty(),
            r.next_id() == 0,
    {
        SymbolTable { main_table: StringHashMap::new(), auto_assign_id: 0 }
    }

    /// A table with the predefined symbols; new variables start at 16.
    pub fn init() -> (r: Self)
        ensures
            r.table() == predefined_symbols(),
            r.next_id() == 16,
    {
        let mut out = Self::new();
        out.add_hard_coded_symbols();
        out
    }

    /// The address of `input`, if it is defined.
    pub fn get(&self, input: &str) -> (r: Option<isize>)
        ensures
            r == lookup(self.table(), input@),
    {
        match self.main_table.get(input) {
            Some(v) => Some(*v),
            None => None,
        }
    }

    fn inc_auto_assign_id(&mut self)
        requires
            old(self).next_id() < isize::MAX,
        ensures
            final(self).table() == old(self).table(),
            final(self).next_id() == old(self).next_id() + 1,
    {
        self.auto_assign_id = self.auto_assign_id + 1;
    }

    fn does_symbol_exist(&self, key: &str) -> (r: bool)
        ensures
            r == self.table().contains_key(key@),
    {
        self.main_table.contains_key(key)
    }

    /// Defines `sym` as `val`, unless `sym` is already defined.
    pub fn add_to_symbol_table(&mut self, sym: String, val: isize)
        ensures
            final(self).table() == define(old(self).table(), sym@, val),
            final(self).next_id() == old(self).next_id(),
    {
        if !self.does_symbol_exist(sym.as_str()) {
            self.main_table.insert(sym, val);
        }
    }

    /// Defines each pair of `input` in order, as `add_to_symbol_table` does.
    pub fn mass_add_to_symbol_table(&mut self, input: Vec<(String, isize)>)
        ensures
            final(self).table() == define_all(old(self).table(), pairs_view(input@)),
            final(self).next_id() == old(self).next_id(),
    {
        let ghost pv = pairs_view(input@);
        let n = input.len();
        let mut i: usize = 0;
        while i < n
            invariant
                n == input@.len(),
                pv == pairs_view(input@),
                i <= n,
                self.table() == define_all(old(self).table(), pv.take(i as int)),
                self.next_id() == old(self).next_id(),
            decreases n - i,
        {
            let key = input[i].0.clone();
            let val = input[i].1;
            assert(pv.take(i + 1).drop_last() == pv.take(i as int));
            assert(pv.take(i + 1).last() == pv[i as int]);
            self.add_to_symbol_table(key, val);
            i = i + 1;
        }
        assert(pv.take(n as int) == pv);
    }

    /// Gives `sym` the next free address and moves that address on by one,
    /// unless `sym` is already defined.
    pub fn add_to_symbol_table_auto(&mut self, sym: String)
        requires
            !old(self).table().contains_key(sym@) ==> old(self).next_id() < isize::MAX,
        ensures
            (final(self).table(), final(self).next_id()) == define_auto(
                old(self).table(),
                old(self).next_id(),
                sym@,
            ),
    {
        if self.does_symbol_exist(sym.as_str()) {
            return;
        }
        let id_to_use = self.auto_assign_id;
        self.add_to_symbol_table(sym, id_to_use);
        self.inc_auto_assign_id();
    }

    /// Adds `R0` to `R15` at the next sixteen free addresses, moving the
    /// next free address on by 16, then `SCREEN` and `KBD`; every other
    /// symbol is kept.
    fn add_hard_coded_symbols(&mut self)
        requires
            lacks_hard_coded_symbols(old(self).table()),
            old(self).next_id() + 16 <= isize::MAX,
        ensures
            final(self).table() == with_hard_coded_symbols(old(self).table(), old(self).next_id()),
            final(self).next_id() == old(self).next_id() + 16,
    {
        let ghost table0 = self.table();
        let ghost next0 = self.next_id();
        let mut i: usize = 0;
        while i < 16
            invariant
                i <= 16,
                lacks_hard_coded_symbols(table0),
                next0 + 16 <= isize::MAX,
                self.table() == registers_from(table0, next0, i as nat),
                self.next_id() == next0 + i,
            decreases 16 - i,
        {
            let mut name = String::new();
            name.append("R");
            push_decimal(&mut name, i);
            proof {
                reveal_strlit("R");
                assert(name@ == register_name(i as nat));
                lemma_registers_from(table0, next0, i as nat);
                if registers_from(table0, next0, i as nat).contains_key(register_name(i as nat)) {
                    assert(!table0.contains_key(register_name(i as nat)));
                    let j = choose|j: nat| j < i && register_name(i as nat) == register_name(j);
                    lemma_register_names_distinct(j, i as nat);
                }
            }
            self.add_to_symbol_table_auto(name);
            i = i + 1;
        }
        proof {
            lemma_registers_from(table0, next0, 16);
            lemma_screen_kbd_not_registers();
            let r = registers_from(table0, next0, 16);
            if r.contains_key("SCREEN"@) {
                let j = choose|j: nat| j < 16 && "SCREEN"@ == register_name(j);
                assert(register_name(j) != "SCREEN"@);
            }
            if r.insert("SCREEN"@, 16384).contains_key("KBD"@) {
                assert(r.contains_key("KBD"@));
                let j = choose|j: nat| j < 16 && "KBD"@ == register_name(j);
                assert(register_name(j) != "KBD"@);
            }
        }
        self.add_to_symbol_table(String::from_str("SCREEN"), consts::SCREEN_LOC);
        self.add_to_symbol_table(String::from_str("KBD"), consts::KBD_LOC);
    }
}

} // verus!
