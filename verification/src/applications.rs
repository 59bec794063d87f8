//! The applications that the command line can start.
pub mod assembler;
