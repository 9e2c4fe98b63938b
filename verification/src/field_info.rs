//! Field records: the raw form read from a class file, and the resolved
//! form a loaded class owns.

use vstd::prelude::*;
use crate::attribute_info::AttributeInfo;
use crate::constant_pool::{spec_utf8_at, utf8_at, ConstantPoolInfo};
use crate::error::VmError;
use crate::things::Value;

verus! {

/// One field as read from a class file.
#[derive(Debug)]
pub struct FieldInfo {
    pub access_flags: u16,
    pub name_index: u16,
    pub descriptor_index: u16,
    pub attributes_count: u16,
    pub attributes: Vec<AttributeInfo>,
}

/// A resolved field of a loaded class.
///
/// A static field stores its process-wide value here, in `value`; an
/// instance field stores nothing and instead carries the slot `offset`
/// assigned to it by the class's deterministic instance layout.
#[derive(Debug)]
pub struct Field {
    pub access_flags: u16,
    pub name: String,
    pub descriptor: String,
    pub value: Value,
    pub offset: usize,
}

impl Field {
    /// Whether the field is static: its access flags carry the static
    /// bit.
    pub fn is_static(&self) -> (r: bool)
        ensures
            r == (self.access_flags & 0x0008 != 0),
    {
        self.access_flags & 0x0008 != 0
    }

    /// Whether the field's declared type is an object reference: its
    /// descriptor names a class.
    pub fn is_object(&self) -> (r: bool)
        ensures
            r == (self.descriptor@.len() > 0 && self.descriptor@[0] == 'L'),
    {
        if self.descriptor.unicode_len() == 0 {
            false
        } else {
            self.descriptor.as_str().get_char(0) == 'L'
        }
    }

    /// Reads the static value boxed in the class.
    pub fn get_static(&self) -> (v: Value)
        ensures
            v == self.value,
    {
        self.value
    }

    /// Writes the static value boxed in the class.
    pub fn set_static(&mut self, val: Value)
        ensures
            *final(self) == (Field { value: val, ..*old(self) }),
    {
        self.value = val;
    }
}


impl Field {
    /// Builds a resolved field from its raw class-file record: its name
    /// and descriptor come from the constant pool; its value is zeroed
    /// and its layout offset is assigned later, by the class's
    /// deterministic instance layout.
    pub fn from_info(cp: &Vec<ConstantPoolInfo>, fi: &FieldInfo) -> (r: Result<Field, VmError>)
        ensures
            r matches Ok(f) ==> {
                &&& spec_utf8_at(cp@, fi.name_index as int) == Some(f.name@)
                &&& spec_utf8_at(cp@, fi.descriptor_index as int) == Some(f.descriptor@)
                &&& f.access_flags == fi.access_flags
                &&& f.value.bits == 0
                &&& f.offset == 0
            },
    {
        let name = utf8_at(cp, fi.name_index)?;
        let descriptor = utf8_at(cp, fi.descriptor_index)?;
        Ok(
            Field {
                access_flags: fi.access_flags,
                name,
                descriptor,
                value: Value::null(),
                offset: 0,
            },
        )
    }
}

} // verus!
