//! A bytecode virtual machine for a Java-class-file-compatible instruction
//! set.
//!
//! The crate loads compiled class files, resolves their symbolic references
//! through a typed constant pool, and executes method bodies on an explicit
//! operand-stack machine.  Object storage lives on a garbage-collected heap
//! (bump allocation inside chunks, reclaimed by mark-compact), and every
//! method invocation runs in a frame allocated inside one fixed-size call
//! stack region.
//!
//! The modules follow the dependency order of the machine, leaves first:
//! `things` (the value scalar), `constant_pool`, `bytecode` (the decoder),
//! `descriptor`, the class-file readers, the class model, the call stack,
//! the heap and collector, and finally the runtime that drives the
//! interpreter.

pub mod arith;
pub mod attribute_info;
pub mod base_classes;
pub mod bytecode;
pub mod class;
pub mod class_file;
pub mod class_reader;
pub mod code;
pub mod code_reader;
pub mod constant_pool;
pub mod descriptor;
pub mod error;
pub mod field_info;
pub mod heap;
pub mod method;
pub mod method_info;
pub mod runtime;
pub mod stack;
pub mod things;
pub mod thread;
