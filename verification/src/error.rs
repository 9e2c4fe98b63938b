//! The fatal conditions a run of the machine can end in.
//!
//! The taxonomy separates resolution failures (a symbol that cannot be
//! found, a class definition that conflicts with one already loaded),
//! capacity failures (the call-stack region or the heap ceiling is
//! exhausted), and execution failures (conditions the interpreter treats
//! as unrecoverable for the current call stack).

use vstd::prelude::*;

verus! {

/// A fatal condition raised while resolving symbols or executing bytecode.
///
/// Resolution errors and capacity errors are reported with distinct
/// variants so a caller can tell a missing member from an exhausted
/// resource; execution errors are never recovered from mid-method.
#[derive(Debug, Clone, PartialEq, Eq, Structural)]
pub enum VmError {
    /// No class of the requested name could be resolved.
    ClassNotFound,
    /// A field or method lookup missed in the resolved class.
    MemberNotFound,
    /// Two class definitions of the same origin were registered for one
    /// fully-qualified name.
    MergeConflict,
    /// A constant-pool index was out of range or named an entry of the
    /// wrong kind for the instruction that consumed it.
    BadConstantPool,
    /// A structurally malformed class file: bad text, a descriptor that
    /// does not parse, or a code attribute that does not decode.
    ClassFormat,
    /// An instruction consumed an object reference that was null or did
    /// not name a live object.
    NullReference,
    /// Placing a new frame would overflow the fixed call-stack region.
    StackOverflow,
    /// The heap could not grow without exceeding its configured ceiling.
    HeapExhausted,
    /// Integer division or remainder with a zero divisor.
    DivisionByZero,
    /// An instruction popped an empty operand stack.
    EmptyOperandStack,
    /// An instruction pushed past the frame's declared operand-stack depth.
    OperandStackOverflow,
    /// A load or store named a local slot outside the frame's locals.
    LocalOutOfBounds,
    /// The program counter ran past the end of the instruction sequence.
    PcOverrun,
    /// A decoded but unimplemented instruction was reached; carries the
    /// opcode byte so the missing feature stays diagnosable.
    Unimplemented(u8),
    /// A method without a code attribute was selected for interpretation.
    AbstractMethodCall,
    /// The interpreter's explicit step budget ran out before the method
    /// returned.
    OutOfFuel,
}

} // verus!
