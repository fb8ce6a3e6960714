//! Text processing behind a small assembler / disassembler front end:
//! directive screening of assembly sources, turning an objdump listing
//! into an escaped shellcode string, decoding hex input, and the tool
//! invocations used for each supported instruction set.

pub mod text;
pub mod directives;
pub mod shellcode;
pub mod toolchain;
pub mod hexfile;
pub mod listing;
