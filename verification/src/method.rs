//! Methods: host-provided (native) ones with a fixed built-in behavior,
//! and file-defined (Java) ones backed by decoded bytecode.

use vstd::prelude::*;
use crate::code::Code;
use crate::code_reader::CodeReader;
use crate::constant_pool::{spec_utf8_at, utf8_at, ConstantPoolInfo};
use crate::descriptor::{parse_descriptor, spec_args, spec_ret, DescriptorInfo, Type};
use crate::error::VmError;
use crate::method_info::MethodInfo;

verus! {

/// What a host-provided method does when invoked.  The built-in classes
/// need only constant results; a richer host interface is out of scope.
#[derive(Debug, Clone, Copy, PartialEq, Eq, Structural)]
pub enum NativeBehavior {
    /// Pop the arguments and push the constant integer.
    ReturnInt(i32),
    /// Pop the arguments and return nothing.
    ReturnVoid,
}

/// A host-provided method: no bytecode, a fixed behavior.
#[derive(Debug)]
pub struct NativeMethod {
    pub name: String,
    pub access_flags: u16,
    pub descriptor: String,
    pub parsed_descriptor: DescriptorInfo,
    pub behavior: NativeBehavior,
}

impl NativeMethod {
    /// The declared argument count.
    pub fn argc(&self) -> (n: usize)
        ensures
            n == self.parsed_descriptor.args@.len(),
    {
        self.parsed_descriptor.args.len()
    }
}

/// A file-defined method: name, flags, descriptor (raw and parsed), its
/// raw attributes by name, and its decoded code, absent for an abstract
/// or native declaration.
#[derive(Debug)]
pub struct JavaMethod {
    pub name: String,
    pub access_flags: u16,
    pub descriptor: String,
    pub parsed_descriptor: DescriptorInfo,
    pub attributes: Vec<(String, Vec<u8>)>,
    pub code: Option<Code>,
}

impl JavaMethod {
    /// Whether the method is static: its access flags carry the static
    /// bit.
    pub fn is_static(&self) -> (r: bool)
        ensures
            r == (self.access_flags & 0x0008 != 0),
    {
        self.access_flags & 0x0008 != 0
    }

    /// Builds a method from its raw class-file record: resolves its name
    /// and descriptor through the constant pool, parses the descriptor,
    /// and decodes the `Code` attribute if the record carries one.
    pub fn from_info(cp: &Vec<ConstantPoolInfo>, mi: &MethodInfo) -> (r: Result<
        JavaMethod,
        VmError,
    >)
        ensures
            r matches Ok(m) ==> {
                &&& spec_utf8_at(cp@, mi.name_index as int) == Some(m.name@)
                &&& spec_utf8_at(cp@, mi.descriptor_index as int) == Some(m.descriptor@)
                &&& m.access_flags == mi.access_flags
                &&& spec_args(m.descriptor@) == Some(
                    m.parsed_descriptor.args@.map_values(|t: Type| t@),
                )
                &&& spec_ret(m.descriptor@) == Some(m.parsed_descriptor.ret@)
                &&& m.attributes@.len() == mi.attributes@.len()
            },
    {
        let name = utf8_at(cp, mi.name_index)?;
        let descriptor = utf8_at(cp, mi.descriptor_index)?;
        let parsed = match parse_descriptor(descriptor.as_str()) {
            Some(d) => d,
            None => {
                return Err(VmError::ClassFormat);
            },
        };
        let mut attributes: Vec<(String, Vec<u8>)> = Vec::new();
        let mut i: usize = 0;
        let mut code: Option<Code> = None;
        let code_key = String::from_str("Code");
        while i < mi.attributes.len()
            invariant
                attributes@.len() == i,
                i <= mi.attributes@.len(),
            decreases mi.attributes@.len() - i,
        {
            let ai = &mi.attributes[i];
            let aname = utf8_at(cp, ai.name_index)?;
            if aname == code_key {
                let mut reader = CodeReader::new(&ai.info);
                match reader.read_code() {
                    Ok(c) => {
                        code = Some(c);
                    },
                    Err(_) => {
                        return Err(VmError::ClassFormat);
                    },
                }
            }
            let mut bytes: Vec<u8> = Vec::new();
            let mut k: usize = 0;
            while k < ai.info.len()
                invariant
                    k <= ai.info@.len(),
                decreases ai.info@.len() - k,
            {
                bytes.push(ai.info[k]);
                k = k + 1;
            }
            attributes.push((aname, bytes));
            i = i + 1;
        }
        Ok(
            JavaMethod {
                name,
                access_flags: mi.access_flags,
                descriptor,
                parsed_descriptor: parsed,
                attributes,
                code,
            },
        )
    }
}

/// A method of either origin, dispatched through one surface.
#[derive(Debug)]
pub enum Method {
    Native(NativeMethod),
    Java(JavaMethod),
}

impl Method {
    /// Builds a file-defined method from its raw record.
    pub fn from_info(cp: &Vec<ConstantPoolInfo>, mi: &MethodInfo) -> (r: Result<Method, VmError>)
        ensures
            r matches Ok(m) ==> m is Java,
    {
        Ok(Method::Java(JavaMethod::from_info(cp, mi)?))
    }

    /// The method's name.
    pub fn name(&self) -> (r: &String)
        ensures
            r@ == self.spec_name(),
    {
        match self {
            Method::Native(m) => &m.name,
            Method::Java(m) => &m.name,
        }
    }

    /// The method's raw descriptor.
    pub fn descriptor_string(&self) -> (r: &String)
        ensures
            r@ == self.spec_descriptor(),
    {
        match self {
            Method::Native(m) => &m.descriptor,
            Method::Java(m) => &m.descriptor,
        }
    }

    /// The method's parsed descriptor.
    pub fn descriptor(&self) -> (r: &DescriptorInfo)
        ensures
            match self {
                Method::Native(m) => r == &m.parsed_descriptor,
                Method::Java(m) => r == &m.parsed_descriptor,
            },
    {
        match self {
            Method::Native(m) => &m.parsed_descriptor,
            Method::Java(m) => &m.parsed_descriptor,
        }
    }

    /// The method's name, as its mathematical text.
    pub open spec fn spec_name(&self) -> Seq<char> {
        match self {
            Method::Native(m) => m.name@,
            Method::Java(m) => m.name@,
        }
    }

    /// The method's raw descriptor, as its mathematical text.
    pub open spec fn spec_descriptor(&self) -> Seq<char> {
        match self {
            Method::Native(m) => m.descriptor@,
            Method::Java(m) => m.descriptor@,
        }
    }
}

} // verus!
