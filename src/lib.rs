//! Code generation for a macro assembly language targeting a stack machine.
pub mod arg_calls;
pub mod ast;
pub mod codegen;
pub mod error;
pub mod opcodes;
