//! A Hack assembler: it reads Hack assembly text and writes the Hack
//! machine code, one line of bits per instruction.
pub mod applications;
pub mod cmd;
pub mod consts;
pub mod text;
