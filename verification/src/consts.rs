//! Messages and fixed values shared by the command line and the assembler.
use vstd::prelude::*;

verus! {

/// Printed when the input file cannot be opened.
pub const FILE_OPEN_ERROR: &'static str = "Unable to open file. Please check if the file exists.";

/// Printed when the output file cannot be created.
pub const FILE_CREATE_ERROR: &'static str = "Unable to write to file. Please check if a valid file path is provided.";

/// The mnemonic that selects the assembler on the command line.
pub const ASSEMBLER_APP: &'static str = "ASM";

/// How to call the assembler.
pub const ASSEMBLER_HELP: &'static str = "Use the arguments \"-i\" and \"-o\" followed by a file path to ingest a Hack assembly file and convert it to binary.";

/// Appended to the input path (without its extension) when no output path is given.
pub const ASSEMBLER_DEF_EXTENSION: &'static str = "_out.hack";

/// The error for an empty instruction line.
pub const ASSEMBLER_EMPTY_LINE: &'static str = "Error: Did not expect empty line.";

/// Address of the screen memory map.
pub const SCREEN_LOC: isize = 16384;

/// Address of the keyboard memory map.
pub const KBD_LOC: isize = 24576;

/// The error for a label whose name is numeric.
pub const LABEL_ERR: &'static str = "Label name is invalid.";

} // verus!
