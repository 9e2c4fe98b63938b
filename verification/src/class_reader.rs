//! The class-file reader: parses the fixed binary layout of a compiled
//! class from a byte buffer.
//!
//! The format is versioned and offset-sensitive, so the reader fails
//! fast on truncation rather than read past the buffer: every read
//! reports how far it got, and a structural error surfaces as a
//! malformed-class condition instead of a wrong-offset success.

use vstd::prelude::*;
use crate::attribute_info::AttributeInfo;
use crate::bytecode::u16_be;
use crate::code_reader::u32_be;
use crate::class_file::ClassFile;
use crate::constant_pool::{
    Class, ConstantPoolInfo, Double, Fieldref, Float, Integer, InterfaceMethodref, InvokeDynamic,
    JString, Long, MethodHandle, MethodType, Methodref, NameAndType, Utf8,
};
use crate::error::VmError;
use crate::field_info::FieldInfo;
use crate::method_info::MethodInfo;

verus! {


/// How a decoded constant-pool entry stands to the bytes it was read
/// from: its kind is the inverse of the tag byte at `pos`, its operands
/// are the big-endian fields after it, and `pos2` is the cursor after
/// the entry's whole encoding.
pub open spec fn cpinfo_shape(bytes: Seq<u8>, pos: int, e: ConstantPoolInfo, pos2: int) -> bool {
    match e {
        ConstantPoolInfo::Class(c) => bytes[pos] == 7 && c.name_index == u16_be(bytes, pos + 1)
            && pos2 == pos + 3,
        ConstantPoolInfo::Fieldref(fr) => bytes[pos] == 9 && fr.class_index == u16_be(
            bytes,
            pos + 1,
        ) && fr.name_and_type_index == u16_be(bytes, pos + 3) && pos2 == pos + 5,
        ConstantPoolInfo::Methodref(mr) => bytes[pos] == 10 && mr.class_index == u16_be(
            bytes,
            pos + 1,
        ) && mr.name_and_type_index == u16_be(bytes, pos + 3) && pos2 == pos + 5,
        ConstantPoolInfo::InterfaceMethodref(mr) => bytes[pos] == 11 && mr.class_index == u16_be(
            bytes,
            pos + 1,
        ) && mr.name_and_type_index == u16_be(bytes, pos + 3) && pos2 == pos + 5,
        ConstantPoolInfo::JString(js) => bytes[pos] == 8 && js.string_index == u16_be(
            bytes,
            pos + 1,
        ) && pos2 == pos + 3,
        ConstantPoolInfo::Integer(x) => bytes[pos] == 3 && x.bytes == u32_be(bytes, pos + 1)
            && pos2 == pos + 5,
        ConstantPoolInfo::Float(x) => bytes[pos] == 4 && x.bytes == u32_be(bytes, pos + 1) && pos2
            == pos + 5,
        ConstantPoolInfo::Long(x) => bytes[pos] == 5 && x.high_bytes == u32_be(bytes, pos + 1)
            && x.low_bytes == u32_be(bytes, pos + 5) && pos2 == pos + 9,
        ConstantPoolInfo::Double(x) => bytes[pos] == 6 && x.high_bytes == u32_be(bytes, pos + 1)
            && x.low_bytes == u32_be(bytes, pos + 5) && pos2 == pos + 9,
        ConstantPoolInfo::NameAndType(nt) => bytes[pos] == 12 && nt.name_index == u16_be(
            bytes,
            pos + 1,
        ) && nt.descriptor_index == u16_be(bytes, pos + 3) && pos2 == pos + 5,
        ConstantPoolInfo::Utf8(u) => bytes[pos] == 1 && u.length == u16_be(bytes, pos + 1)
            && u.bytes@ == bytes.subrange(pos + 3, pos + 3 + u16_be(bytes, pos + 1)) && pos2 == pos
            + 3 + u16_be(bytes, pos + 1),
        ConstantPoolInfo::MethodHandle(mh) => bytes[pos] == 15 && mh.reference_kind == bytes[pos
            + 1] && mh.reference_index == u16_be(bytes, pos + 2) && pos2 == pos + 4,
        ConstantPoolInfo::MethodType(mt) => bytes[pos] == 16 && mt.descriptor_index == u16_be(
            bytes,
            pos + 1,
        ) && pos2 == pos + 3,
        ConstantPoolInfo::InvokeDynamic(id) => bytes[pos] == 18 && id.bootstrap_method_attr_index
            == u16_be(bytes, pos + 1) && id.name_and_type_index == u16_be(bytes, pos + 3) && pos2
            == pos + 5,
    }
}

/// A cursor over the bytes of one class file.
pub struct ClassReader {
    pub bytes: Vec<u8>,
    pub pos: usize,
}

impl ClassReader {
    /// A reader positioned at the start of the bytes.
    pub fn new(bytes: Vec<u8>) -> (r: ClassReader)
        ensures
            r.bytes@ == bytes@,
            r.pos == 0,
    {
        ClassReader { bytes, pos: 0 }
    }

    /// Reads one byte, or reports truncation.
    pub fn read_u1(&mut self) -> (r: Result<u8, VmError>)
        requires
            old(self).pos <= old(self).bytes@.len(),
        ensures
            final(self).bytes@ == old(self).bytes@,
            final(self).pos <= final(self).bytes@.len(),
            match r {
                Ok(b) => old(self).pos < old(self).bytes@.len() && b == old(self).bytes@[old(
                    self,
                ).pos as int] && final(self).pos == old(self).pos + 1,
                Err(e) => e == VmError::ClassFormat && old(self).pos == old(self).bytes@.len()
                    && final(self).pos == old(self).pos,
            },
    {
        if self.pos < self.bytes.len() {
            let b = self.bytes[self.pos];
            self.pos = self.pos + 1;
            Ok(b)
        } else {
            Err(VmError::ClassFormat)
        }
    }

    /// Reads one big-endian 16-bit value: exactly the two bytes at the
    /// cursor, high first; truncation is the malformed-class condition,
    /// if and only if fewer than two bytes are left.
    pub fn read_u2(&mut self) -> (r: Result<u16, VmError>)
        requires
            old(self).pos <= old(self).bytes@.len(),
        ensures
            final(self).bytes@ == old(self).bytes@,
            final(self).pos <= final(self).bytes@.len(),
            match r {
                Ok(v) => old(self).pos + 2 <= old(self).bytes@.len() && v as int == u16_be(
                    old(self).bytes@,
                    old(self).pos as int,
                ) && final(self).pos == old(self).pos + 2,
                Err(e) => e == VmError::ClassFormat && old(self).pos + 2 > old(self).bytes@.len(),
            },
    {
        let hi = self.read_u1()?;
        let lo = self.read_u1()?;
        Ok((hi as u16) * 0x100 + (lo as u16))
    }

    /// Reads one big-endian 32-bit value: exactly the four bytes at the
    /// cursor, high first; truncation if and only if fewer than four
    /// bytes are left.
    pub fn read_u4(&mut self) -> (r: Result<u32, VmError>)
        requires
            old(self).pos <= old(self).bytes@.len(),
        ensures
            final(self).bytes@ == old(self).bytes@,
            final(self).pos <= final(self).bytes@.len(),
            match r {
                Ok(v) => old(self).pos + 4 <= old(self).bytes@.len() && v as int == u32_be(
                    old(self).bytes@,
                    old(self).pos as int,
                ) && final(self).pos == old(self).pos + 4,
                Err(e) => e == VmError::ClassFormat && old(self).pos + 4 > old(self).bytes@.len(),
            },
    {
        let hi = self.read_u2()?;
        let lo = self.read_u2()?;
        Ok((hi as u32) * 0x1_0000 + (lo as u32))
    }

    /// Reads `n` raw bytes: exactly the `n` bytes at the cursor;
    /// truncation if and only if fewer are left.
    pub fn read_n(&mut self, n: usize) -> (r: Result<Vec<u8>, VmError>)
        requires
            old(self).pos <= old(self).bytes@.len(),
        ensures
            final(self).bytes@ == old(self).bytes@,
            final(self).pos <= final(self).bytes@.len(),
            match r {
                Ok(v) => old(self).pos + n <= old(self).bytes@.len() && v@ == old(
                    self,
                ).bytes@.subrange(old(self).pos as int, old(self).pos + n) && final(self).pos
                    == old(self).pos + n,
                Err(e) => e == VmError::ClassFormat && old(self).pos + n > old(self).bytes@.len(),
            },
    {
        let mut out: Vec<u8> = Vec::new();
        let mut k: usize = 0;
        while k < n
            invariant
                k <= n,
                out@.len() == k,
                self.bytes@ == old(self).bytes@,
                self.pos <= self.bytes@.len(),
                self.pos == old(self).pos + k,
                out@ == old(self).bytes@.subrange(old(self).pos as int, old(self).pos + k),
            decreases n - k,
        {
            let b = self.read_u1()?;
            out.push(b);
            proof {
                assert(out@ =~= old(self).bytes@.subrange(
                    old(self).pos as int,
                    old(self).pos + k + 1,
                ));
            }
            k = k + 1;
        }
        Ok(out)
    }

    /// Reads one constant-pool entry: a tag byte followed by the fields
    /// of the tagged kind.  An unknown tag is a malformed-class error;
    /// on success the entry's kind is the inverse of its tag byte at the
    /// cursor, its operands are the big-endian fields that follow, and
    /// the cursor has advanced by the entry's encoded size.
    pub fn read_cpinfo(&mut self) -> (r: Result<ConstantPoolInfo, VmError>)
        requires
            old(self).pos <= old(self).bytes@.len(),
        ensures
            final(self).bytes@ == old(self).bytes@,
            final(self).pos <= final(self).bytes@.len(),
            r matches Err(e) ==> e == VmError::ClassFormat,
            r matches Ok(e) ==> old(self).pos < old(self).bytes@.len() && cpinfo_shape(
                old(self).bytes@,
                old(self).pos as int,
                e,
                final(self).pos as int,
            ),
    {
        let tag = self.read_u1()?;
        if tag == 7 {
            Ok(ConstantPoolInfo::Class(Class { name_index: self.read_u2()? }))
        } else if tag == 9 {
            Ok(
                ConstantPoolInfo::Fieldref(
                    Fieldref { class_index: self.read_u2()?, name_and_type_index: self.read_u2()? },
                ),
            )
        } else if tag == 10 {
            Ok(
                ConstantPoolInfo::Methodref(
                    Methodref {
                        class_index: self.read_u2()?,
                        name_and_type_index: self.read_u2()?,
                    },
                ),
            )
        } else if tag == 11 {
            Ok(
                ConstantPoolInfo::InterfaceMethodref(
                    InterfaceMethodref {
                        class_index: self.read_u2()?,
                        name_and_type_index: self.read_u2()?,
                    },
                ),
            )
        } else if tag == 8 {
            Ok(ConstantPoolInfo::JString(JString { string_index: self.read_u2()? }))
        } else if tag == 3 {
            Ok(ConstantPoolInfo::Integer(Integer { bytes: self.read_u4()? }))
        } else if tag == 4 {
            Ok(ConstantPoolInfo::Float(Float { bytes: self.read_u4()? }))
        } else if tag == 5 {
            Ok(
                ConstantPoolInfo::Long(
                    Long { high_bytes: self.read_u4()?, low_bytes: self.read_u4()? },
                ),
            )
        } else if tag == 6 {
            Ok(
                ConstantPoolInfo::Double(
                    Double { high_bytes: self.read_u4()?, low_bytes: self.read_u4()? },
                ),
            )
        } else if tag == 12 {
            Ok(
                ConstantPoolInfo::NameAndType(
                    NameAndType { name_index: self.read_u2()?, descriptor_index: self.read_u2()? },
                ),
            )
        } else if tag == 1 {
            let l = self.read_u2()?;
            let bytes = self.read_n(l as usize)?;
            Ok(ConstantPoolInfo::Utf8(Utf8 { length: l, bytes }))
        } else if tag == 15 {
            Ok(
                ConstantPoolInfo::MethodHandle(
                    MethodHandle {
                        reference_kind: self.read_u1()?,
                        reference_index: self.read_u2()?,
                    },
                ),
            )
        } else if tag == 16 {
            Ok(ConstantPoolInfo::MethodType(MethodType { descriptor_index: self.read_u2()? }))
        } else if tag == 18 {
            Ok(
                ConstantPoolInfo::InvokeDynamic(
                    InvokeDynamic {
                        bootstrap_method_attr_index: self.read_u2()?,
                        name_and_type_index: self.read_u2()?,
                    },
                ),
            )
        } else {
            Err(VmError::ClassFormat)
        }
    }

    /// Reads one attribute record: its name index and length from the
    /// six header bytes at the cursor, then exactly that many raw bytes.
    #[verifier::loop_isolation(false)]
    pub fn read_attributeinfo(&mut self) -> (r: Result<AttributeInfo, VmError>)
        requires
            old(self).pos <= old(self).bytes@.len(),
        ensures
            final(self).bytes@ == old(self).bytes@,
            final(self).pos <= final(self).bytes@.len(),
            r matches Err(e) ==> e == VmError::ClassFormat,
            r matches Ok(ai) ==> ({
                let pos = old(self).pos as int;
                let bytes = old(self).bytes@;
                &&& ai.name_index == u16_be(bytes, pos)
                &&& ai.attribute_length == u32_be(bytes, pos + 2)
                &&& ai.info@ == bytes.subrange(pos + 6, pos + 6 + ai.attribute_length)
                &&& final(self).pos == pos + 6 + ai.attribute_length
            }),
    {
        let name_index = self.read_u2()?;
        let attribute_length = self.read_u4()?;
        let ghost base = self.pos as int;
        let mut info: Vec<u8> = Vec::new();
        proof {
            assert(info@ =~= old(self).bytes@.subrange(base, base));
        }
        let mut k: u32 = 0;
        while k < attribute_length
            invariant
                k <= attribute_length,
                info@.len() == k,
                self.bytes@ == old(self).bytes@,
                self.pos <= self.bytes@.len(),
                self.pos == base + k,
                info@ == old(self).bytes@.subrange(base, base + k),
            decreases attribute_length - k,
        {
            let b = self.read_u1()?;
            info.push(b);
            proof {
                assert(base + k < old(self).bytes@.len());
                assert(b == old(self).bytes@[base + k]);
                assert(info@ =~= old(self).bytes@.subrange(base, base + k + 1));
            }
            k = k + 1;
        }
        Ok(AttributeInfo { name_index, attribute_length, info })
    }

    /// Reads one field record with its attributes.
    pub fn read_fieldinfo(&mut self) -> (r: Result<FieldInfo, VmError>)
        requires
            old(self).pos <= old(self).bytes@.len(),
        ensures
            final(self).bytes@ == old(self).bytes@,
            final(self).pos <= final(self).bytes@.len(),
            r matches Err(e) ==> e == VmError::ClassFormat,
            r matches Ok(fi) ==> ({
                let pos = old(self).pos as int;
                let bytes = old(self).bytes@;
                &&& fi.access_flags == u16_be(bytes, pos)
                &&& fi.name_index == u16_be(bytes, pos + 2)
                &&& fi.descriptor_index == u16_be(bytes, pos + 4)
                &&& fi.attributes_count == u16_be(bytes, pos + 6)
                &&& fi.attributes@.len() == fi.attributes_count
            }),
    {
        let access_flags = self.read_u2()?;
        let name_index = self.read_u2()?;
        let descriptor_index = self.read_u2()?;
        let attributes_count = self.read_u2()?;
        let mut attributes: Vec<AttributeInfo> = Vec::new();
        let mut k: u16 = 0;
        while k < attributes_count
            invariant
                k <= attributes_count,
                attributes@.len() == k,
                self.bytes@ == old(self).bytes@,
                self.pos <= self.bytes@.len(),
            decreases attributes_count - k,
        {
            attributes.push(self.read_attributeinfo()?);
            k = k + 1;
        }
        Ok(FieldInfo { access_flags, name_index, descriptor_index, attributes_count, attributes })
    }

    /// Reads one method record with its attributes.
    pub fn read_methodinfo(&mut self) -> (r: Result<MethodInfo, VmError>)
        requires
            old(self).pos <= old(self).bytes@.len(),
        ensures
            final(self).bytes@ == old(self).bytes@,
            final(self).pos <= final(self).bytes@.len(),
            r matches Err(e) ==> e == VmError::ClassFormat,
            r matches Ok(fi) ==> ({
                let pos = old(self).pos as int;
                let bytes = old(self).bytes@;
                &&& fi.access_flags == u16_be(bytes, pos)
                &&& fi.name_index == u16_be(bytes, pos + 2)
                &&& fi.descriptor_index == u16_be(bytes, pos + 4)
                &&& fi.attributes_count == u16_be(bytes, pos + 6)
                &&& fi.attributes@.len() == fi.attributes_count
            }),
    {
        let access_flags = self.read_u2()?;
        let name_index = self.read_u2()?;
        let descriptor_index = self.read_u2()?;
        let attributes_count = self.read_u2()?;
        let mut attributes: Vec<AttributeInfo> = Vec::new();
        let mut k: u16 = 0;
        while k < attributes_count
            invariant
                k <= attributes_count,
                attributes@.len() == k,
                self.bytes@ == old(self).bytes@,
                self.pos <= self.bytes@.len(),
            decreases attributes_count - k,
        {
            attributes.push(self.read_attributeinfo()?);
            k = k + 1;
        }
        Ok(MethodInfo { access_flags, name_index, descriptor_index, attributes_count, attributes })
    }

    /// Reads the whole class file in layout order: header, constant
    /// pool, class indices, interfaces, fields, methods and attributes.
    /// Each table's length equals its declared count (the constant pool
    /// holds one entry fewer, as the format counts from one).
    pub fn read_class(&mut self) -> (r: Result<ClassFile, VmError>)
        requires
            old(self).pos == 0,
        ensures
            match r {
                Ok(cf) => {
                    &&& old(self).bytes@.len() >= 10
                    &&& cf.magic == u32_be(old(self).bytes@, 0)
                    &&& cf.minor_version == u16_be(old(self).bytes@, 4)
                    &&& cf.major_version == u16_be(old(self).bytes@, 6)
                    &&& cf.constant_pool_count == u16_be(old(self).bytes@, 8)
                    &&& cf.constant_pool_count >= 1
                    &&& cf.constant_pool@.len() + 1 == cf.constant_pool_count
                    &&& cf.interfaces@.len() == cf.interfaces_count
                    &&& cf.fields@.len() == cf.fields_count
                    &&& cf.methods@.len() == cf.methods_count
                    &&& cf.attributes@.len() == cf.attributes_count
                },
                Err(e) => e == VmError::ClassFormat,
            },
    {
        let magic = self.read_u4()?;
        let minor_version = self.read_u2()?;
        let major_version = self.read_u2()?;
        let constant_pool_count = self.read_u2()?;
        if constant_pool_count == 0 {
            return Err(VmError::ClassFormat);
        }
        let mut constant_pool: Vec<ConstantPoolInfo> = Vec::new();
        let mut k: u16 = 0;
        while k < constant_pool_count - 1
            invariant
                k <= constant_pool_count - 1,
                constant_pool@.len() == k,
                self.bytes@ == old(self).bytes@,
                self.pos <= self.bytes@.len(),
            decreases constant_pool_count - 1 - k,
        {
            constant_pool.push(self.read_cpinfo()?);
            k = k + 1;
        }
        let access_flags = self.read_u2()?;
        let this_class = self.read_u2()?;
        let super_class = self.read_u2()?;
        let interfaces_count = self.read_u2()?;
        let mut interfaces: Vec<u16> = Vec::new();
        let mut i: u16 = 0;
        while i < interfaces_count
            invariant
                i <= interfaces_count,
                interfaces@.len() == i,
                self.bytes@ == old(self).bytes@,
                self.pos <= self.bytes@.len(),
            decreases interfaces_count - i,
        {
            interfaces.push(self.read_u2()?);
            i = i + 1;
        }
        let fields_count = self.read_u2()?;
        let mut fields: Vec<FieldInfo> = Vec::new();
        let mut f: u16 = 0;
        while f < fields_count
            invariant
                f <= fields_count,
                fields@.len() == f,
                self.bytes@ == old(self).bytes@,
                self.pos <= self.bytes@.len(),
            decreases fields_count - f,
        {
            fields.push(self.read_fieldinfo()?);
            f = f + 1;
        }
        let methods_count = self.read_u2()?;
        let mut methods: Vec<MethodInfo> = Vec::new();
        let mut m: u16 = 0;
        while m < methods_count
            invariant
                m <= methods_count,
                methods@.len() == m,
                self.bytes@ == old(self).bytes@,
                self.pos <= self.bytes@.len(),
            decreases methods_count - m,
        {
            methods.push(self.read_methodinfo()?);
            m = m + 1;
        }
        let attributes_count = self.read_u2()?;
        let mut attributes: Vec<AttributeInfo> = Vec::new();
        let mut a: u16 = 0;
        while a < attributes_count
            invariant
                a <= attributes_count,
                attributes@.len() == a,
                self.bytes@ == old(self).bytes@,
                self.pos <= self.bytes@.len(),
            decreases attributes_count - a,
        {
            attributes.push(self.read_attributeinfo()?);
            a = a + 1;
        }
        Ok(
            ClassFile {
                magic,
                minor_version,
                major_version,
                constant_pool_count,
                constant_pool,
                access_flags,
                this_class,
                super_class,
                interfaces_count,
                interfaces,
                fields_count,
                fields,
                methods_count,
                methods,
                attributes_count,
                attributes,
            },
        )
    }
}

} // verus!
