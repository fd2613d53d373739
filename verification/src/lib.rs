//! An interpreter for a whitespace-only stack language: a decoder from the
//! three-token source alphabet to an instruction list with a label table,
//! and a virtual machine that executes the instructions against an operand
//! stack, a call stack and a key/value heap of arbitrary-precision integers.

pub mod num;
pub mod store;
pub mod insn;
pub mod decode;
pub mod vm;
pub mod laws;
