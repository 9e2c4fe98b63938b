//! The built-in (native) classes the runtime registers at startup.
//!
//! These are host-provided collaborators: they carry no bytecode, only
//! fixed native behaviors, and give file-defined classes a root object
//! class and the small stream hierarchy to link against.

use vstd::prelude::*;
use crate::class::NativeClass;
use crate::descriptor::{DescriptorInfo, Type};
use crate::error::VmError;
use crate::method::{Method, NativeBehavior, NativeMethod};
use crate::runtime::Runtime;

verus! {

/// An empty host-provided class with the given links.
fn empty_native(name: &str, super_class: Option<usize>, interfaces: Vec<usize>) -> (c: NativeClass)
    ensures
        c.name@ == name@,
{
    NativeClass {
        name: String::from_str(name),
        access_flags: 0x0001,
        super_class,
        interfaces,
        static_fields: Vec::new(),
        instance_fields: Vec::new(),
        methods: Vec::new(),
    }
}

/// Registers the built-in classes: the root object class with its
/// native methods, the appendable and closeable interfaces, the output
/// stream chain, the string class, and the system class.
pub fn base_classes(rt: &mut Runtime) -> (r: Result<(), VmError>)
    requires
        old(rt).wf(),
    ensures
        final(rt).wf(),
        final(rt).classes@.len() >= old(rt).classes@.len(),
        final(rt).heap == old(rt).heap,
        final(rt).images == old(rt).images,
        final(rt).main_class == old(rt).main_class,
        r is Ok ==> exists|i: int|
            0 <= i < final(rt).classes@.len() && (#[trigger] final(rt).classes@[i]).spec_name()
                == "java/lang/Object"@,
{
    let hash_code = Method::Native(
        NativeMethod {
            name: String::from_str("hashCode"),
            access_flags: 0x0001,
            descriptor: String::from_str("()I"),
            parsed_descriptor: DescriptorInfo { ret: Type::Int, args: Vec::new() },
            behavior: NativeBehavior::ReturnInt(0),
        },
    );
    let mut equals_args: Vec<Type> = Vec::new();
    equals_args.push(Type::Object(String::from_str("java/lang/Object")));
    let equals = Method::Native(
        NativeMethod {
            name: String::from_str("equals"),
            access_flags: 0x0001,
            descriptor: String::from_str("(Ljava/lang/Object;)Z"),
            parsed_descriptor: DescriptorInfo { ret: Type::Bool, args: equals_args },
            behavior: NativeBehavior::ReturnInt(0),
        },
    );
    let mut object_methods: Vec<Method> = Vec::new();
    object_methods.push(hash_code);
    object_methods.push(equals);
    let object = NativeClass {
        name: String::from_str("java/lang/Object"),
        access_flags: 0x0001,
        super_class: None,
        interfaces: Vec::new(),
        static_fields: Vec::new(),
        instance_fields: Vec::new(),
        methods: object_methods,
    };
    let oi = rt.add_native_class(object)?;
    let ai = rt.add_native_class(empty_native("java/lang/Appendable", Some(oi), Vec::new()))?;
    let ci = rt.add_native_class(empty_native("java/io/Closeable", Some(oi), Vec::new()))?;
    let osi = rt.add_native_class(empty_native("java/io/OutputStream", Some(oi), Vec::new()))?;
    let fosi = rt.add_native_class(empty_native("java/io/FilterOutputStream", Some(osi), Vec::new()))?;
    let mut ps_ifaces: Vec<usize> = Vec::new();
    ps_ifaces.push(ai);
    ps_ifaces.push(ci);
    rt.add_native_class(empty_native("java/io/PrintStream", Some(fosi), ps_ifaces))?;
    rt.add_native_class(empty_native("java/lang/String", Some(oi), Vec::new()))?;
    rt.add_native_class(empty_native("java/lang/System", Some(oi), Vec::new()))?;
    proof {
        assert(rt.classes@[oi as int].spec_name() == "java/lang/Object"@);
    }
    Ok(())
}

} // verus!
