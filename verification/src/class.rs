//! Loaded classes: the resolved form the interpreter executes against.
//!
//! A class is polymorphic over two origins: file-defined (it carries its
//! own constant pool and bytecode-backed methods) and host-provided (its
//! methods are native, with no bytecode).  Fields are partitioned into
//! static ones, which box their process-wide value in the class, and
//! instance ones, which store nothing and carry only the slot offset the
//! deterministic layout assigned to them: instance fields are ordered by
//! name, lexicographically, so any two loads of the same class produce
//! the same layout.  Super-class and interface links are indices into
//! the runtime's class table, never raw pointers.

use vstd::prelude::*;
use vstd::multiset::Multiset;
use crate::constant_pool::ConstantPoolInfo;
use crate::error::VmError;
use crate::field_info::Field;
use crate::method::Method;
use crate::things::Value;

verus! {

/// Lexicographic order on text: the usual dictionary comparison by
/// character code, with a prefix ordered before its extensions.
pub open spec fn chars_le(a: Seq<char>, b: Seq<char>) -> bool
    decreases a.len(),
{
    if a.len() == 0 {
        true
    } else if b.len() == 0 {
        false
    } else if (a[0] as u32) < (b[0] as u32) {
        true
    } else if (a[0] as u32) > (b[0] as u32) {
        false
    } else {
        chars_le(a.skip(1), b.skip(1))
    }
}

/// Compares two strings in lexicographic order.
pub fn str_le(a: &String, b: &String) -> (r: bool)
    ensures
        r == chars_le(a@, b@),
{
    let na = a.as_str().unicode_len();
    let nb = b.as_str().unicode_len();
    proof {
        assert(a@.skip(0) =~= a@);
        assert(b@.skip(0) =~= b@);
    }
    let mut i: usize = 0;
    loop
        invariant
            i <= na,
            i <= nb,
            na == a@.len(),
            nb == b@.len(),
            chars_le(a@, b@) == chars_le(a@.skip(i as int), b@.skip(i as int)),
        decreases na - i,
    {
        proof {
            assert(a@.skip(i as int).len() == na - i);
            assert(b@.skip(i as int).len() == nb - i);
        }
        if i == na {
            return true;
        }
        if i == nb {
            return false;
        }
        let ca = a.as_str().get_char(i);
        let cb = b.as_str().get_char(i);
        proof {
            assert(a@.skip(i as int)[0] == a@[i as int]);
            assert(b@.skip(i as int)[0] == b@[i as int]);
        }
        if (ca as u32) < (cb as u32) {
            return true;
        }
        if (ca as u32) > (cb as u32) {
            return false;
        }
        proof {
            assert(a@.skip(i as int).skip(1) =~= a@.skip(i as int + 1));
            assert(b@.skip(i as int).skip(1) =~= b@.skip(i as int + 1));
        }
        i = i + 1;
    }
}

/// The order is total: of any two strings, one is at or before the
/// other.
pub proof fn lemma_chars_le_total(a: Seq<char>, b: Seq<char>)
    ensures
        chars_le(a, b) || chars_le(b, a),
    decreases a.len(),
{
    if a.len() > 0 && b.len() > 0 && (a[0] as u32) == (b[0] as u32) {
        lemma_chars_le_total(a.skip(1), b.skip(1));
    }
}

/// The first field of the name, if any.
pub open spec fn find_field(fields: Seq<Field>, name: Seq<char>) -> Option<int>
    decreases fields.len(),
{
    if fields.len() == 0 {
        None
    } else if fields[0].name@ == name {
        Some(0)
    } else {
        match find_field(fields.skip(1), name) {
            Some(i) => Some(i + 1),
            None => None,
        }
    }
}

/// A found field lies in range and carries the name searched for.
pub proof fn lemma_find_field(fields: Seq<Field>, name: Seq<char>)
    ensures
        find_field(fields, name) matches Some(i) ==> 0 <= i < fields.len() && fields[i].name@
            == name,
        find_field(fields, name) is None ==> forall|i: int|
            0 <= i < fields.len() ==> (#[trigger] fields[i]).name@ != name,
    decreases fields.len(),
{
    if fields.len() > 0 {
        lemma_find_field(fields.skip(1), name);
        if fields[0].name@ != name {
            assert forall|i: int|
                1 <= i < fields.len() implies fields.skip(1)[i - 1] == #[trigger] fields[i] by {}
        }
    }
}

/// The first method of the (name, descriptor) key, if any.  Overloads
/// are distinguished by the full descriptor, never by name alone.
pub open spec fn find_method(methods: Seq<Method>, name: Seq<char>, descriptor: Seq<char>) -> Option<
    int,
>
    decreases methods.len(),
{
    if methods.len() == 0 {
        None
    } else if methods[0].spec_name() == name && methods[0].spec_descriptor() == descriptor {
        Some(0)
    } else {
        match find_method(methods.skip(1), name, descriptor) {
            Some(i) => Some(i + 1),
            None => None,
        }
    }
}

/// A found method lies in range and carries the key searched for.
pub proof fn lemma_find_method(methods: Seq<Method>, name: Seq<char>, descriptor: Seq<char>)
    ensures
        find_method(methods, name, descriptor) matches Some(i) ==> 0 <= i < methods.len()
            && methods[i].spec_name() == name && methods[i].spec_descriptor() == descriptor,
    decreases methods.len(),
{
    if methods.len() > 0 {
        lemma_find_method(methods.skip(1), name, descriptor);
    }
}

/// Searches a field list for a name.
pub fn field_index(fields: &Vec<Field>, name: &String) -> (r: Option<usize>)
    ensures
        match r {
            Some(i) => find_field(fields@, name@) == Some(i as int),
            None => find_field(fields@, name@) is None,
        },
{
    let mut i: usize = 0;
    loop
        invariant
            i <= fields@.len(),
            forall|j: int| 0 <= j < i ==> (#[trigger] fields@[j]).name@ != name@,
        decreases fields@.len() - i,
    {
        if i == fields.len() {
            proof {
                lemma_find_field_none(fields@, name@);
            }
            return None;
        }
        if fields[i].name == *name {
            proof {
                lemma_find_field_prefix(fields@, name@, i as int);
            }
            return Some(i);
        }
        i = i + 1;
    }
}

/// A search that misses every entry finds nothing.
proof fn lemma_find_field_none(fields: Seq<Field>, name: Seq<char>)
    requires
        forall|j: int| 0 <= j < fields.len() ==> (#[trigger] fields[j]).name@ != name,
    ensures
        find_field(fields, name) is None,
    decreases fields.len(),
{
    if fields.len() > 0 {
        assert forall|j: int|
            0 <= j < fields.len() - 1 implies (#[trigger] fields.skip(1)[j]).name@ != name by {
            assert(fields.skip(1)[j] == fields[j + 1]);
        }
        lemma_find_field_none(fields.skip(1), name);
    }
}

/// If every field before `i` misses the name and field `i` carries it,
/// the search finds exactly `i`.
proof fn lemma_find_field_prefix(fields: Seq<Field>, name: Seq<char>, i: int)
    requires
        0 <= i < fields.len(),
        fields[i].name@ == name,
        forall|j: int| 0 <= j < i ==> (#[trigger] fields[j]).name@ != name,
    ensures
        find_field(fields, name) == Some(i),
    decreases i,
{
    if i == 0 {
    } else {
        assert forall|j: int|
            0 <= j < i - 1 implies (#[trigger] fields.skip(1)[j]).name@ != name by {
            assert(fields.skip(1)[j] == fields[j + 1]);
        }
        assert(fields.skip(1)[i - 1] == fields[i]);
        lemma_find_field_prefix(fields.skip(1), name, i - 1);
    }
}

/// If every method before `i` misses the key and method `i` carries it,
/// the search finds exactly `i`.
proof fn lemma_find_method_prefix(methods: Seq<Method>, name: Seq<char>, descriptor: Seq<char>, i: int)
    requires
        0 <= i < methods.len(),
        methods[i].spec_name() == name,
        methods[i].spec_descriptor() == descriptor,
        forall|j: int|
            0 <= j < i ==> (#[trigger] methods[j]).spec_name() != name || methods[j].spec_descriptor()
                != descriptor,
    ensures
        find_method(methods, name, descriptor) == Some(i),
    decreases i,
{
    if i == 0 {
    } else {
        assert forall|j: int|
            0 <= j < i - 1 implies (#[trigger] methods.skip(1)[j]).spec_name() != name || methods.skip(
            1,
        )[j].spec_descriptor() != descriptor by {
            assert(methods.skip(1)[j] == methods[j + 1]);
        }
        assert(methods.skip(1)[i - 1] == methods[i]);
        lemma_find_method_prefix(methods.skip(1), name, descriptor, i - 1);
    }
}

/// Searches a method list for a (name, descriptor) key.
pub fn method_index(methods: &Vec<Method>, name: &String, descriptor: &String) -> (r: Option<usize>)
    ensures
        match r {
            Some(i) => find_method(methods@, name@, descriptor@) == Some(i as int),
            None => find_method(methods@, name@, descriptor@) is None,
        },
{
    let mut i: usize = 0;
    loop
        invariant
            i <= methods@.len(),
            forall|j: int|
                0 <= j < i ==> (#[trigger] methods@[j]).spec_name() != name@
                    || methods@[j].spec_descriptor() != descriptor@,
        decreases methods@.len() - i,
    {
        if i == methods.len() {
            proof {
                lemma_find_method_none(methods@, name@, descriptor@);
            }
            return None;
        }
        let m = &methods[i];
        if *m.name() == *name && *m.descriptor_string() == *descriptor {
            proof {
                lemma_find_method_prefix(methods@, name@, descriptor@, i as int);
            }
            return Some(i);
        }
        i = i + 1;
    }
}

/// A search that misses every entry finds nothing.
proof fn lemma_find_method_none(methods: Seq<Method>, name: Seq<char>, descriptor: Seq<char>)
    requires
        forall|j: int|
            0 <= j < methods.len() ==> (#[trigger] methods[j]).spec_name() != name
                || methods[j].spec_descriptor() != descriptor,
    ensures
        find_method(methods, name, descriptor) is None,
    decreases methods.len(),
{
    if methods.len() > 0 {
        assert forall|j: int|
            0 <= j < methods.len() - 1 implies (#[trigger] methods.skip(1)[j]).spec_name() != name
            || methods.skip(1)[j].spec_descriptor() != descriptor by {
            assert(methods.skip(1)[j] == methods[j + 1]);
        }
        lemma_find_method_none(methods.skip(1), name, descriptor);
    }
}

/// A file-defined class.
#[derive(Debug)]
pub struct JavaClass {
    pub name: String,
    pub constant_pool: Vec<ConstantPoolInfo>,
    pub access_flags: u16,
    pub super_class: Option<usize>,
    pub interfaces: Vec<usize>,
    pub static_fields: Vec<Field>,
    pub instance_fields: Vec<Field>,
    pub methods: Vec<Method>,
    pub attributes: Vec<(String, Vec<u8>)>,
}

/// A host-provided class.
#[derive(Debug)]
pub struct NativeClass {
    pub name: String,
    pub access_flags: u16,
    pub super_class: Option<usize>,
    pub interfaces: Vec<usize>,
    pub static_fields: Vec<Field>,
    pub instance_fields: Vec<Field>,
    pub methods: Vec<Method>,
}

/// A loaded class of either origin.
#[derive(Debug)]
pub enum Class {
    Java(JavaClass),
    Native(NativeClass),
}

impl Class {
    /// The class's fully-qualified name.
    pub open spec fn spec_name(&self) -> Seq<char> {
        match self {
            Class::Java(c) => c.name@,
            Class::Native(c) => c.name@,
        }
    }

    /// The class's static fields.
    pub open spec fn spec_static_fields(&self) -> Seq<Field> {
        match self {
            Class::Java(c) => c.static_fields@,
            Class::Native(c) => c.static_fields@,
        }
    }

    /// The class's instance fields, in layout order.
    pub open spec fn spec_instance_fields(&self) -> Seq<Field> {
        match self {
            Class::Java(c) => c.instance_fields@,
            Class::Native(c) => c.instance_fields@,
        }
    }

    /// The class's constant pool; a host-provided class has none.
    pub open spec fn spec_cp(&self) -> Seq<ConstantPoolInfo> {
        match self {
            Class::Java(c) => c.constant_pool@,
            Class::Native(_) => Seq::empty(),
        }
    }

    /// The class's methods.
    pub open spec fn spec_methods(&self) -> Seq<Method> {
        match self {
            Class::Java(c) => c.methods@,
            Class::Native(c) => c.methods@,
        }
    }

    /// The class's name.
    pub fn name(&self) -> (r: &String)
        ensures
            r@ == self.spec_name(),
    {
        match self {
            Class::Java(c) => &c.name,
            Class::Native(c) => &c.name,
        }
    }

    /// The class's access flags.
    pub fn access_flags(&self) -> (r: u16)
        ensures
            r == match self {
                Class::Java(c) => c.access_flags,
                Class::Native(c) => c.access_flags,
            },
    {
        match self {
            Class::Java(c) => c.access_flags,
            Class::Native(c) => c.access_flags,
        }
    }

    /// The class-table index of the super class, absent only for the
    /// root object class.
    pub fn super_class(&self) -> (r: Option<usize>)
        ensures
            r == match self {
                Class::Java(c) => c.super_class,
                Class::Native(c) => c.super_class,
            },
    {
        match self {
            Class::Java(c) => c.super_class,
            Class::Native(c) => c.super_class,
        }
    }

    /// The class-table indices of the implemented interfaces.
    pub fn interfaces(&self) -> (r: &Vec<usize>)
        ensures
            r == match self {
                Class::Java(c) => &c.interfaces,
                Class::Native(c) => &c.interfaces,
            },
    {
        match self {
            Class::Java(c) => &c.interfaces,
            Class::Native(c) => &c.interfaces,
        }
    }

    /// The instance fields, in layout order.
    pub fn instance_fields(&self) -> (r: &Vec<Field>)
        ensures
            r@ == self.spec_instance_fields(),
    {
        match self {
            Class::Java(c) => &c.instance_fields,
            Class::Native(c) => &c.instance_fields,
        }
    }

    /// The static fields.
    pub fn static_fields(&self) -> (r: &Vec<Field>)
        ensures
            r@ == self.spec_static_fields(),
    {
        match self {
            Class::Java(c) => &c.static_fields,
            Class::Native(c) => &c.static_fields,
        }
    }

    /// The methods.
    pub fn methods(&self) -> (r: &Vec<Method>)
        ensures
            r@ == self.spec_methods(),
    {
        match self {
            Class::Java(c) => &c.methods,
            Class::Native(c) => &c.methods,
        }
    }

    /// Looks a method up by name and full descriptor.  A miss is a
    /// member-not-found condition, never a crash.
    pub fn get_method(&self, name: &String, descriptor: &String) -> (r: Option<usize>)
        ensures
            match r {
                Some(i) => find_method(self.spec_methods(), name@, descriptor@) == Some(i as int),
                None => find_method(self.spec_methods(), name@, descriptor@) is None,
            },
    {
        match self {
            Class::Java(c) => method_index(&c.methods, name, descriptor),
            Class::Native(c) => method_index(&c.methods, name, descriptor),
        }
    }

    /// The value of the static field of the name, if the class declares
    /// one.
    pub open spec fn spec_get_static(self, name: Seq<char>) -> Option<Value> {
        match find_field(self.spec_static_fields(), name) {
            Some(i) => Some(self.spec_static_fields()[i].value),
            None => None,
        }
    }

    /// Reads the static field of the name, if the class declares one.
    pub fn get_static(&self, name: &String) -> (r: Option<Value>)
        ensures
            r == self.spec_get_static(name@),
            match r {
                Some(v) => find_field(self.spec_static_fields(), name@) matches Some(i)
                    && self.spec_static_fields()[i].value == v,
                None => find_field(self.spec_static_fields(), name@) is None,
            },
    {
        let fields = match self {
            Class::Java(c) => &c.static_fields,
            Class::Native(c) => &c.static_fields,
        };
        match field_index(fields, name) {
            Some(i) => {
                proof {
                    lemma_find_field(fields@, name@);
                }
                Some(fields[i].value)
            },
            None => None,
        }
    }

    /// Writes the static field of the name; a miss reports the member
    /// as not found.  Every other field, and everything else of the
    /// class, is unchanged.
    pub fn set_static(&mut self, name: &String, val: Value) -> (r: Result<(), VmError>)
        ensures
            match r {
                Ok(()) => static_written(*old(self), *final(self), name@, val),
                Err(e) => e == VmError::MemberNotFound && *final(self) == *old(self) && find_field(
                    old(self).spec_static_fields(),
                    name@,
                ) is None,
            },
            match r {
                Ok(()) => {
                    &&& find_field(old(self).spec_static_fields(), name@) matches Some(i)
                        && final(self).spec_static_fields() == old(self).spec_static_fields().update(
                        i,
                        (Field { value: val, ..old(self).spec_static_fields()[i] }),
                    )
                    &&& final(self).spec_name() == old(self).spec_name()
                    &&& final(self).spec_instance_fields() == old(self).spec_instance_fields()
                    &&& final(self).spec_methods() == old(self).spec_methods()
                },
                Err(e) => e == VmError::MemberNotFound && *final(self) == *old(self) && find_field(
                    old(self).spec_static_fields(),
                    name@,
                ) is None,
            },
    {
        let fields = match self {
            Class::Java(c) => &mut c.static_fields,
            Class::Native(c) => &mut c.static_fields,
        };
        match field_index(fields, name) {
            Some(i) => {
                proof {
                    lemma_find_field(fields@, name@);
                }
                let mut tmp = fields.remove(i);
                tmp.value = val;
                fields.insert(i, tmp);
                proof {
                    assert(self.spec_static_fields() =~= old(self).spec_static_fields().update(
                        i as int,
                        (Field { value: val, ..old(self).spec_static_fields()[i as int] }),
                    ));
                }
                Ok(())
            },
            None => Err(VmError::MemberNotFound),
        }
    }

    /// The layout offset and reference-ness of the instance field of the
    /// name, if the class declares one.
    pub fn get_instance_field(&self, name: &String) -> (r: Option<(usize, bool)>)
        ensures
            match r {
                Some(p) => find_field(self.spec_instance_fields(), name@) matches Some(i)
                    && self.spec_instance_fields()[i].offset == p.0,
                None => find_field(self.spec_instance_fields(), name@) is None,
            },
    {
        let fields = match self {
            Class::Java(c) => &c.instance_fields,
            Class::Native(c) => &c.instance_fields,
        };
        match field_index(fields, name) {
            Some(i) => {
                proof {
                    lemma_find_field(fields@, name@);
                }
                let f = &fields[i];
                Some((f.offset, f.is_object()))
            },
            None => None,
        }
    }
}

/// How a class stands to its earlier self after one static field of the
/// name was written: exactly that field's value changed, and the class's
/// name, instance layout and methods are what they were.
pub open spec fn static_written(pre: Class, post: Class, name: Seq<char>, v: Value) -> bool {
    &&& find_field(pre.spec_static_fields(), name) matches Some(i) && post.spec_static_fields()
        == pre.spec_static_fields().update(i, (Field { value: v, ..pre.spec_static_fields()[i] }))
    &&& post.spec_name() == pre.spec_name()
    &&& post.spec_instance_fields() == pre.spec_instance_fields()
    &&& post.spec_methods() == pre.spec_methods()
    &&& post.spec_cp() == pre.spec_cp()
}

/// Clones a string.
fn clone_string(s: &String) -> (r: String)
    ensures
        r@ == s@,
{
    String::from_str(s.as_str())
}

/// Sorts fields by name, lexicographically, by insertion: the layout
/// order of a class's instance fields.  The result holds exactly the
/// given fields, reordered.
pub fn sort_fields_by_name(input: Vec<Field>) -> (r: Vec<Field>)
    ensures
        r@.to_multiset() == input@.to_multiset(),
        r@.len() == input@.len(),
        forall|i: int, j: int|
            0 <= i < j < r@.len() ==> chars_le((#[trigger] r@[i]).name@, (#[trigger] r@[j]).name@),
{
    broadcast use vstd::seq_lib::group_to_multiset_ensures;
    broadcast use vstd::multiset::group_multiset_axioms;

    let mut rest = input;
    let mut out: Vec<Field> = Vec::new();
    proof {
        assert(out@.to_multiset() =~= Multiset::<Field>::empty());
        assert(out@.to_multiset().add(rest@.to_multiset()) =~= input@.to_multiset());
    }
    while rest.len() > 0
        invariant
            out@.to_multiset().add(rest@.to_multiset()) == input@.to_multiset(),
            out@.len() + rest@.len() == input@.len(),
            forall|i: int, j: int|
                0 <= i < j < out@.len() ==> chars_le(
                    (#[trigger] out@[i]).name@,
                    (#[trigger] out@[j]).name@,
                ),
        decreases rest@.len(),
    {
        let ghost pre_rest = rest@;
        let ghost pre_out = out@;
        let f = rest.remove(0);
        proof {
            vstd::seq_lib::to_multiset_remove::<Field>(pre_rest, 0);
        }
        // Find the insertion point: the first entry ordered after `f`.
        let mut k: usize = 0;
        while k < out.len() && str_le(&out[k].name, &f.name)
            invariant
                k <= out@.len(),
                forall|i: int| 0 <= i < k ==> chars_le((#[trigger] out@[i]).name@, f.name@),
                out@ == pre_out,
            decreases out@.len() - k,
        {
            k = k + 1;
        }
        proof {
            if k < out@.len() {
                lemma_chars_le_total(out@[k as int].name@, f.name@);
            }
        }
        out.insert(k, f);
        proof {
            vstd::seq_lib::to_multiset_insert::<Field>(pre_out, k as int, f);
            assert(out@.to_multiset() == pre_out.to_multiset().insert(f));
            assert(out@.to_multiset().add(rest@.to_multiset()) =~= pre_out.to_multiset().add(
                pre_rest.to_multiset(),
            )) by {
                vstd::seq_lib::to_multiset_contains::<Field>(pre_rest, f);
                assert(pre_rest.contains(f)) by {
                    assert(pre_rest[0] == f);
                }
            }
            assert forall|i: int, j: int|
                0 <= i < j < out@.len() implies chars_le(
                (#[trigger] out@[i]).name@,
                (#[trigger] out@[j]).name@,
            ) by {
                if j < k {
                } else if i < k && j == k {
                } else if i < k && j > k {
                    assert(out@[j] == pre_out[j - 1]);
                } else if i == k {
                    assert(out@[j] == pre_out[j - 1]);
                    if j - 1 > k {
                        lemma_chars_le_transitive(
                            f.name@,
                            pre_out[k as int].name@,
                            pre_out[j - 1].name@,
                        );
                    }
                } else {
                    assert(out@[i] == pre_out[i - 1]);
                    assert(out@[j] == pre_out[j - 1]);
                }
            }
        }
    }
    proof {
        assert(rest@.to_multiset().len() == 0);
        assert(rest@.to_multiset() =~= Multiset::<Field>::empty());
        assert(out@.to_multiset().add(Multiset::<Field>::empty()) =~= out@.to_multiset());
        assert(out@.to_multiset().len() == input@.to_multiset().len());
    }
    out
}

/// The order is transitive.
pub proof fn lemma_chars_le_transitive(a: Seq<char>, b: Seq<char>, c: Seq<char>)
    requires
        chars_le(a, b),
        chars_le(b, c),
    ensures
        chars_le(a, c),
    decreases a.len(),
{
    if a.len() > 0 && b.len() > 0 && c.len() > 0 {
        if (a[0] as u32) == (b[0] as u32) && (b[0] as u32) == (c[0] as u32) {
            lemma_chars_le_transitive(a.skip(1), b.skip(1), c.skip(1));
        }
    }
}

} // verus!
