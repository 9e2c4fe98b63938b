//! The decoded form of a method's `Code` attribute.

use vstd::prelude::*;
use crate::attribute_info::AttributeInfo;
use crate::bytecode::Instruction;

verus! {

/// A method body ready for interpretation: its declared operand-stack
/// depth and locals count, the decoded instruction sequence, the parsed
/// (but unconsumed) exception table, and any nested attributes.
#[derive(Debug)]
pub struct Code {
    pub max_stack: u16,
    pub max_locals: u16,
    pub code: Vec<Instruction>,
    pub exception_table: Vec<ExceptionTableItem>,
    pub attributes: Vec<AttributeInfo>,
}

/// One exception-table row, parsed and retained; the interpreter does
/// not consume it, since exception handling is out of scope.
#[derive(Debug, Clone, Copy, PartialEq, Eq, Structural)]
pub struct ExceptionTableItem {
    pub start_pc: u16,
    pub end_pc: u16,
    pub catch_type: u16,
    pub handler_pc: u16,
}

} // verus!
