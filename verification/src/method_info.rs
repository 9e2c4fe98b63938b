//! The raw method record of a class file.

use vstd::prelude::*;
use crate::attribute_info::AttributeInfo;

verus! {

/// One method as read from a class file: access flags, name and
/// descriptor indices into the constant pool, and its attributes.
#[derive(Debug)]
pub struct MethodInfo {
    pub access_flags: u16,
    pub name_index: u16,
    pub descriptor_index: u16,
    pub attributes_count: u16,
    pub attributes: Vec<AttributeInfo>,
}

} // verus!
