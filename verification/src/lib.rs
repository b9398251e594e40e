//! A bytecode compiler for a small expression language.
//!
//! The crate turns a syntax tree into a linear program for a stack machine.
//! Its parts, leaves first:
//!
//! * [`op_code`]: the instruction set and its byte-exact encoding, together
//!   with a disassembler;
//! * [`object`] and [`constant_pool`]: the values a program embeds and the
//!   append-only pool that holds them;
//! * [`symbol_table`]: the mapping from names to storage slots;
//! * [`ast`]: the syntax tree;
//! * [`emission`]: the code that stands for each node of the tree;
//! * [`compiler`]: the walk over the tree that emits that code;
//! * [`laws`] and [`stream`]: what holds of every compiled program;
//! * [`compiler_test`]: a harness that runs the compiler on cases.
//!
//! Every executable function carries a contract that is checked by Verus.
pub mod op_code;

pub mod object;

pub mod constant_pool;

pub mod symbol_table;

pub mod ast;

pub mod emission;

pub mod compiler;

pub mod laws;

pub mod stream;
