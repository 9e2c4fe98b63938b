//! The raw, structural form of a parsed class file.

use vstd::prelude::*;
use crate::attribute_info::AttributeInfo;
use crate::constant_pool::ConstantPoolInfo;
use crate::field_info::FieldInfo;
use crate::method_info::MethodInfo;

verus! {

/// A class file, read byte-exactly: magic and version numbers, the
/// constant pool (1-based, with the declared count one larger than the
/// entry list), access flags, this/super class indices, the interface
/// index list, and the field, method and attribute tables.
#[derive(Debug)]
pub struct ClassFile {
    pub magic: u32,
    pub minor_version: u16,
    pub major_version: u16,
    pub constant_pool_count: u16,
    pub constant_pool: Vec<ConstantPoolInfo>,
    pub access_flags: u16,
    pub this_class: u16,
    pub super_class: u16,
    pub interfaces_count: u16,
    pub interfaces: Vec<u16>,
    pub fields_count: u16,
    pub fields: Vec<FieldInfo>,
    pub methods_count: u16,
    pub methods: Vec<MethodInfo>,
    pub attributes_count: u16,
    pub attributes: Vec<AttributeInfo>,
}

} // verus!
