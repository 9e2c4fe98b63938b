//! The constant pool: a typed, indexable table of symbolic entries.
//!
//! Indices are 1-based; index 0 is never valid.  Entries reference other
//! entries by index only, so resolving a field or method reference is
//! always a two-hop lookup: the reference entry names a class entry and
//! a name-and-type entry, and each of those names UTF-8 entries.  The
//! pool is immutable after class load.

use vstd::prelude::*;
use vstd::utf8::{decode_utf8, valid_utf8};
use crate::error::VmError;

verus! {

/// A symbolic class reference: the index of its name.
#[derive(Debug, Clone, Copy, PartialEq, Eq, Structural)]
pub struct Class {
    pub name_index: u16,
}

/// A field reference: a class entry and a name-and-type entry.
#[derive(Debug, Clone, Copy, PartialEq, Eq, Structural)]
pub struct Fieldref {
    pub class_index: u16,
    pub name_and_type_index: u16,
}

/// A method reference: a class entry and a name-and-type entry.
#[derive(Debug, Clone, Copy, PartialEq, Eq, Structural)]
pub struct Methodref {
    pub class_index: u16,
    pub name_and_type_index: u16,
}

/// An interface-method reference, shaped like a method reference.
#[derive(Debug, Clone, Copy, PartialEq, Eq, Structural)]
pub struct InterfaceMethodref {
    pub class_index: u16,
    pub name_and_type_index: u16,
}

/// A string literal: the index of its UTF-8 text.
#[derive(Debug, Clone, Copy, PartialEq, Eq, Structural)]
pub struct JString {
    pub string_index: u16,
}

/// A 32-bit integer literal, as raw big-endian bytes.
#[derive(Debug, Clone, Copy, PartialEq, Eq, Structural)]
pub struct Integer {
    pub bytes: u32,
}

/// A 32-bit float literal, kept as its raw bit pattern.
#[derive(Debug, Clone, Copy, PartialEq, Eq, Structural)]
pub struct Float {
    pub bytes: u32,
}

/// A 64-bit integer literal in two raw halves.
#[derive(Debug, Clone, Copy, PartialEq, Eq, Structural)]
pub struct Long {
    pub high_bytes: u32,
    pub low_bytes: u32,
}

/// A 64-bit float literal, kept as its raw bit pattern halves.
#[derive(Debug, Clone, Copy, PartialEq, Eq, Structural)]
pub struct Double {
    pub high_bytes: u32,
    pub low_bytes: u32,
}

/// A member's name and type descriptor, each by index.
#[derive(Debug, Clone, Copy, PartialEq, Eq, Structural)]
pub struct NameAndType {
    pub name_index: u16,
    pub descriptor_index: u16,
}

/// UTF-8 text: the declared byte length and the bytes.
#[derive(Debug)]
pub struct Utf8 {
    pub length: u16,
    pub bytes: Vec<u8>,
}

/// A method-handle constant.
#[derive(Debug, Clone, Copy, PartialEq, Eq, Structural)]
pub struct MethodHandle {
    pub reference_kind: u8,
    pub reference_index: u16,
}

/// A method-type constant: a descriptor by index.
#[derive(Debug, Clone, Copy, PartialEq, Eq, Structural)]
pub struct MethodType {
    pub descriptor_index: u16,
}

/// An invokedynamic call site: a bootstrap-method index and a
/// name-and-type entry.
#[derive(Debug, Clone, Copy, PartialEq, Eq, Structural)]
pub struct InvokeDynamic {
    pub bootstrap_method_attr_index: u16,
    pub name_and_type_index: u16,
}

/// One constant-pool entry: a tagged variant over every entry kind the
/// class-file format defines.
#[derive(Debug)]
pub enum ConstantPoolInfo {
    Class(Class),
    Fieldref(Fieldref),
    Methodref(Methodref),
    InterfaceMethodref(InterfaceMethodref),
    JString(JString),
    Integer(Integer),
    Float(Float),
    Long(Long),
    Double(Double),
    NameAndType(NameAndType),
    Utf8(Utf8),
    MethodHandle(MethodHandle),
    MethodType(MethodType),
    InvokeDynamic(InvokeDynamic),
}

/// The text of a UTF-8 entry, if the entry is one and its bytes decode.
pub open spec fn utf8_view(e: ConstantPoolInfo) -> Option<Seq<char>> {
    match e {
        ConstantPoolInfo::Utf8(u) => if valid_utf8(u.bytes@) {
            Some(decode_utf8(u.bytes@))
        } else {
            None
        },
        _ => None,
    }
}

/// The entry at the 1-based index, if the index is in range.
pub open spec fn entry_at(cp: Seq<ConstantPoolInfo>, idx: int) -> Option<ConstantPoolInfo> {
    if 1 <= idx <= cp.len() {
        Some(cp[idx - 1])
    } else {
        None
    }
}

/// The text of the UTF-8 entry at the index.
pub open spec fn spec_utf8_at(cp: Seq<ConstantPoolInfo>, idx: int) -> Option<Seq<char>> {
    match entry_at(cp, idx) {
        Some(e) => utf8_view(e),
        None => None,
    }
}

/// The name of the class entry at the index: a one-hop lookup through
/// its name index.
pub open spec fn spec_class_name_at(cp: Seq<ConstantPoolInfo>, idx: int) -> Option<Seq<char>> {
    match entry_at(cp, idx) {
        Some(ConstantPoolInfo::Class(c)) => spec_utf8_at(cp, c.name_index as int),
        _ => None,
    }
}

/// The (name, descriptor) pair of the name-and-type entry at the index.
pub open spec fn spec_name_and_type_at(cp: Seq<ConstantPoolInfo>, idx: int) -> Option<
    (Seq<char>, Seq<char>),
> {
    match entry_at(cp, idx) {
        Some(ConstantPoolInfo::NameAndType(nt)) => match (
            spec_utf8_at(cp, nt.name_index as int),
            spec_utf8_at(cp, nt.descriptor_index as int),
        ) {
            (Some(n), Some(d)) => Some((n, d)),
            _ => None,
        },
        _ => None,
    }
}

/// The full two-hop resolution of the field reference at the index: the
/// owning class's name, the field's name, and its descriptor.
pub open spec fn spec_fieldref_at(cp: Seq<ConstantPoolInfo>, idx: int) -> Option<
    (Seq<char>, Seq<char>, Seq<char>),
> {
    match entry_at(cp, idx) {
        Some(ConstantPoolInfo::Fieldref(fr)) => match (
            spec_class_name_at(cp, fr.class_index as int),
            spec_name_and_type_at(cp, fr.name_and_type_index as int),
        ) {
            (Some(c), Some((n, d))) => Some((c, n, d)),
            _ => None,
        },
        _ => None,
    }
}

/// The full two-hop resolution of the method reference (plain or
/// interface) at the index: class name, method name, and descriptor.
pub open spec fn spec_methodref_at(cp: Seq<ConstantPoolInfo>, idx: int) -> Option<
    (Seq<char>, Seq<char>, Seq<char>),
> {
    match entry_at(cp, idx) {
        Some(ConstantPoolInfo::Methodref(mr)) => match (
            spec_class_name_at(cp, mr.class_index as int),
            spec_name_and_type_at(cp, mr.name_and_type_index as int),
        ) {
            (Some(c), Some((n, d))) => Some((c, n, d)),
            _ => None,
        },
        Some(ConstantPoolInfo::InterfaceMethodref(mr)) => match (
            spec_class_name_at(cp, mr.class_index as int),
            spec_name_and_type_at(cp, mr.name_and_type_index as int),
        ) {
            (Some(c), Some((n, d))) => Some((c, n, d)),
            _ => None,
        },
        _ => None,
    }
}

/// Relies on String::from_utf8: returns the string of the bytes exactly
/// when they are valid UTF-8, as vstd's own UTF-8 model states it.
#[verifier::external_body]
fn utf8_to_string(bytes: &Vec<u8>) -> (r: Option<String>)
    ensures
        match r {
            Some(s) => valid_utf8(bytes@) && s@ == decode_utf8(bytes@),
            None => !valid_utf8(bytes@),
        },
{
    match String::from_utf8(bytes.clone()) {
        Ok(s) => Some(s),
        Err(_) => None,
    }
}

impl ConstantPoolInfo {
    /// The entry's text, when it is a UTF-8 entry with well-formed
    /// bytes.
    pub fn utf8(&self) -> (r: Option<String>)
        ensures
            match r {
                Some(s) => utf8_view(*self) == Some(s@),
                None => utf8_view(*self) is None,
            },
    {
        match self {
            ConstantPoolInfo::Utf8(u) => utf8_to_string(&u.bytes),
            _ => None,
        }
    }

    /// The class-file tag byte of the entry's kind.
    pub fn tag(&self) -> (t: u8)
        ensures
            t == match *self {
                ConstantPoolInfo::Utf8(_) => 1u8,
                ConstantPoolInfo::Integer(_) => 3u8,
                ConstantPoolInfo::Float(_) => 4u8,
                ConstantPoolInfo::Long(_) => 5u8,
                ConstantPoolInfo::Double(_) => 6u8,
                ConstantPoolInfo::Class(_) => 7u8,
                ConstantPoolInfo::JString(_) => 8u8,
                ConstantPoolInfo::Fieldref(_) => 9u8,
                ConstantPoolInfo::Methodref(_) => 10u8,
                ConstantPoolInfo::InterfaceMethodref(_) => 11u8,
                ConstantPoolInfo::NameAndType(_) => 12u8,
                ConstantPoolInfo::MethodHandle(_) => 15u8,
                ConstantPoolInfo::MethodType(_) => 16u8,
                ConstantPoolInfo::InvokeDynamic(_) => 18u8,
            },
{
        match self {
            ConstantPoolInfo::Utf8(_) => 1,
            ConstantPoolInfo::Integer(_) => 3,
            ConstantPoolInfo::Float(_) => 4,
            ConstantPoolInfo::Long(_) => 5,
            ConstantPoolInfo::Double(_) => 6,
            ConstantPoolInfo::Class(_) => 7,
            ConstantPoolInfo::JString(_) => 8,
            ConstantPoolInfo::Fieldref(_) => 9,
            ConstantPoolInfo::Methodref(_) => 10,
            ConstantPoolInfo::InterfaceMethodref(_) => 11,
            ConstantPoolInfo::NameAndType(_) => 12,
            ConstantPoolInfo::MethodHandle(_) => 15,
            ConstantPoolInfo::MethodType(_) => 16,
            ConstantPoolInfo::InvokeDynamic(_) => 18,
        }
    }
}

/// Reads the UTF-8 text at the 1-based index.
pub fn utf8_at(cp: &Vec<ConstantPoolInfo>, idx: u16) -> (r: Result<String, VmError>)
    ensures
        match r {
            Ok(s) => spec_utf8_at(cp@, idx as int) == Some(s@),
            Err(e) => e == VmError::BadConstantPool && spec_utf8_at(cp@, idx as int) is None,
        },
{
    if idx == 0 || idx as usize > cp.len() {
        return Err(VmError::BadConstantPool);
    }
    match cp[idx as usize - 1].utf8() {
        Some(s) => Ok(s),
        None => Err(VmError::BadConstantPool),
    }
}

/// Resolves the class entry at the index to its name.
pub fn class_name_at(cp: &Vec<ConstantPoolInfo>, idx: u16) -> (r: Result<String, VmError>)
    ensures
        match r {
            Ok(s) => spec_class_name_at(cp@, idx as int) == Some(s@),
            Err(e) => e == VmError::BadConstantPool && spec_class_name_at(cp@, idx as int) is None,
        },
{
    if idx == 0 || idx as usize > cp.len() {
        return Err(VmError::BadConstantPool);
    }
    match &cp[idx as usize - 1] {
        ConstantPoolInfo::Class(c) => utf8_at(cp, c.name_index),
        _ => Err(VmError::BadConstantPool),
    }
}

/// Resolves the name-and-type entry at the index to its two strings.
pub fn name_and_type_at(cp: &Vec<ConstantPoolInfo>, idx: u16) -> (r: Result<
    (String, String),
    VmError,
>)
    ensures
        match r {
            Ok(p) => spec_name_and_type_at(cp@, idx as int) == Some((p.0@, p.1@)),
            Err(e) => e == VmError::BadConstantPool && spec_name_and_type_at(cp@, idx as int)
                is None,
        },
{
    if idx == 0 || idx as usize > cp.len() {
        return Err(VmError::BadConstantPool);
    }
    match &cp[idx as usize - 1] {
        ConstantPoolInfo::NameAndType(nt) => {
            let n = utf8_at(cp, nt.name_index)?;
            let d = utf8_at(cp, nt.descriptor_index)?;
            Ok((n, d))
        },
        _ => Err(VmError::BadConstantPool),
    }
}

/// Resolves the field reference at the index through the pool's two
/// hops: the owning class's name, the field's name, and its descriptor.
pub fn resolve_fieldref(cp: &Vec<ConstantPoolInfo>, idx: u16) -> (r: Result<
    (String, String, String),
    VmError,
>)
    ensures
        match r {
            Ok(t) => spec_fieldref_at(cp@, idx as int) == Some((t.0@, t.1@, t.2@)),
            Err(e) => e == VmError::BadConstantPool && spec_fieldref_at(cp@, idx as int) is None,
        },
{
    if idx == 0 || idx as usize > cp.len() {
        return Err(VmError::BadConstantPool);
    }
    match &cp[idx as usize - 1] {
        ConstantPoolInfo::Fieldref(fr) => {
            let c = class_name_at(cp, fr.class_index)?;
            let (n, d) = name_and_type_at(cp, fr.name_and_type_index)?;
            Ok((c, n, d))
        },
        _ => Err(VmError::BadConstantPool),
    }
}

/// Resolves the method reference at the index, plain or interface,
/// through the pool's two hops.
pub fn resolve_methodref(cp: &Vec<ConstantPoolInfo>, idx: u16) -> (r: Result<
    (String, String, String),
    VmError,
>)
    ensures
        match r {
            Ok(t) => spec_methodref_at(cp@, idx as int) == Some((t.0@, t.1@, t.2@)),
            Err(e) => e == VmError::BadConstantPool && spec_methodref_at(cp@, idx as int) is None,
        },
{
    if idx == 0 || idx as usize > cp.len() {
        return Err(VmError::BadConstantPool);
    }
    match &cp[idx as usize - 1] {
        ConstantPoolInfo::Methodref(mr) => {
            let c = class_name_at(cp, mr.class_index)?;
            let (n, d) = name_and_type_at(cp, mr.name_and_type_index)?;
            Ok((c, n, d))
        },
        ConstantPoolInfo::InterfaceMethodref(mr) => {
            let c = class_name_at(cp, mr.class_index)?;
            let (n, d) = name_and_type_at(cp, mr.name_and_type_index)?;
            Ok((c, n, d))
        },
        _ => Err(VmError::BadConstantPool),
    }
}

} // verus!
