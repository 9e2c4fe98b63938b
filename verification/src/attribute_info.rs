//! The raw attribute record of a class file: a name index into the
//! constant pool, a length, and that many uninterpreted bytes.

use vstd::prelude::*;

verus! {

/// One attribute as read from a class file.  The info bytes are kept
/// raw; named attributes the machine understands (such as `Code`) are
/// parsed on demand.
#[derive(Debug)]
pub struct AttributeInfo {
    pub name_index: u16,
    pub attribute_length: u32,
    pub info: Vec<u8>,
}

} // verus!
