# hack_assembler

An assembler for the Hack machine language, written in Verus.

- `src/` is the verified library (crate `lib`):
  - `text.rs`: character-level helpers (ASCII upper case, searching,
    splitting, trimming, decimal and binary numbers) with their specs.
  - `consts.rs`: messages and fixed addresses.
  - `cmd.rs`: which application a command-line mnemonic selects.
  - `applications/assembler.rs`: the assembler as a whole (`assemble`),
    the `Assembler` type, and the reading of the assembler's arguments.
  - `applications/assembler/symbols.rs`: the symbol table.
  - `applications/assembler/program.rs`: program lines and the label pass.
  - `applications/assembler/translate.rs`: A and C instructions.
  - `applications/assembler/laws.rs`: properties proved for all inputs.
- `app/` is the program around it: arguments, files, printing.
- `tests/` runs the library on concrete programs.
