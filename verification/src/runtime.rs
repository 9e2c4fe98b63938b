//! The runtime: the class table, the heap, the loader, and the
//! interpreter that drives them.
//!
//! There is exactly one runtime per execution: it owns every loaded
//! class (an arena keyed by name; every cross-class link is an index
//! into it), the heap, and the table of class file images the loader
//! resolves names against.  Execution is single-threaded and
//! synchronous: the interpreter is one fetch-decode-execute loop over
//! the current frame of one call stack, and an invocation opcode pushes
//! a frame and continues the same loop, returning control only when the
//! callee fully returns.

use vstd::prelude::*;
use crate::class::{find_field, find_method, static_written, Class, JavaClass, NativeClass, sort_fields_by_name};
use crate::class_file::ClassFile;
use crate::class_reader::ClassReader;
use crate::bytecode::Instruction;
use crate::constant_pool::{
    class_name_at, entry_at, resolve_fieldref, resolve_methodref, spec_fieldref_at,
    spec_methodref_at, utf8_at, ConstantPoolInfo,
};
use crate::error::VmError;
use crate::field_info::Field;
use crate::heap::{heap_written, ClassLayout, Heap};
use crate::method::{JavaMethod, Method, NativeBehavior};
use crate::stack::StackFrame;
use crate::stack::Stack;
use crate::things::{int_bits, int_val, long_bits, long_val, Value};
use crate::arith;

verus! {


broadcast use crate::things::lemma_take_full, crate::things::lemma_push_concat,
    crate::things::lemma_drop_last_take, crate::things::lemma_take_of_take;

/// The call-stack region size, in value slots.
pub const STACK_SLOTS: usize = 0x8_0000;

/// The heap ceiling, in value slots.
pub const HEAP_CEILING: usize = 0x20_0000;

/// The minimum size of a freshly committed heap chunk, in value slots.
pub const HEAP_MIN_CHUNK: usize = 0x2_0000;

/// The first class of the class table whose name matches, if any.
pub open spec fn find_class_idx(classes: Seq<Class>, name: Seq<char>) -> Option<int>
    decreases classes.len(),
{
    if classes.len() == 0 {
        None
    } else if classes[0].spec_name() == name {
        Some(0)
    } else {
        match find_class_idx(classes.skip(1), name) {
            Some(i) => Some(i + 1),
            None => None,
        }
    }
}

/// A found class lies in range and carries the name searched for.
pub proof fn lemma_find_class(classes: Seq<Class>, name: Seq<char>)
    ensures
        find_class_idx(classes, name) matches Some(i) ==> 0 <= i < classes.len()
            && classes[i].spec_name() == name,
    decreases classes.len(),
{
    if classes.len() > 0 {
        lemma_find_class(classes.skip(1), name);
    }
}

/// The first image of the table whose name matches, if any.
pub open spec fn spec_find_image(images: Seq<(String, Vec<u8>)>, name: Seq<char>) -> Option<int>
    decreases images.len(),
{
    if images.len() == 0 {
        None
    } else if images[0].0@ == name {
        Some(0)
    } else {
        match spec_find_image(images.skip(1), name) {
            Some(i) => Some(i + 1),
            None => None,
        }
    }
}

/// A search that misses every image finds nothing.
proof fn lemma_find_image_none(images: Seq<(String, Vec<u8>)>, name: Seq<char>)
    requires
        forall|j: int| 0 <= j < images.len() ==> (#[trigger] images[j]).0@ != name,
    ensures
        spec_find_image(images, name) is None,
    decreases images.len(),
{
    if images.len() > 0 {
        assert forall|j: int|
            0 <= j < images.len() - 1 implies (#[trigger] images.skip(1)[j]).0@ != name by {
            assert(images.skip(1)[j] == images[j + 1]);
        }
        lemma_find_image_none(images.skip(1), name);
    }
}

/// If every image before `i` misses the name and image `i` carries it,
/// the search finds exactly `i`.
proof fn lemma_find_image_prefix(images: Seq<(String, Vec<u8>)>, name: Seq<char>, i: int)
    requires
        0 <= i < images.len(),
        images[i].0@ == name,
        forall|j: int| 0 <= j < i ==> (#[trigger] images[j]).0@ != name,
    ensures
        spec_find_image(images, name) == Some(i),
    decreases i,
{
    if i > 0 {
        assert forall|j: int|
            0 <= j < i - 1 implies (#[trigger] images.skip(1)[j]).0@ != name by {
            assert(images.skip(1)[j] == images[j + 1]);
        }
        assert(images.skip(1)[i - 1] == images[i]);
        lemma_find_image_prefix(images.skip(1), name, i - 1);
    }
}

/// What resolving a class by name does to the runtime, for every
/// outcome: the table only grows, the heap and the image table are
/// untouched, a class already loaded is returned from the cache with the
/// whole runtime unchanged, a success yields a class of the requested
/// name, and a name with no loaded class and no image fails with exactly
/// the class-not-found condition, changing nothing.
pub open spec fn load_rel(pre: Runtime, post: Runtime, name: Seq<char>, r: Result<
    usize,
    VmError,
>) -> bool {
    &&& post.wf()
    &&& post.classes@.len() >= pre.classes@.len()
    &&& post.heap == pre.heap
    &&& post.images == pre.images
    &&& post.main_class == pre.main_class
    &&& match r {
        Ok(i) => {
            &&& (i as int) < post.classes@.len()
            &&& post.classes@[i as int].spec_name() == name
            &&& (find_class_idx(pre.classes@, name) matches Some(j) ==> post == pre && i as int
                == j)
        },
        Err(e) => {
            &&& find_class_idx(pre.classes@, name) is None
            &&& (spec_find_image(pre.images@, name) is None ==> e == VmError::ClassNotFound && post
                == pre)
        },
    }
}

/// The runtime.
pub struct Runtime {
    pub classes: Vec<Class>,
    pub layouts: Vec<ClassLayout>,
    pub images: Vec<(String, Vec<u8>)>,
    pub heap: Heap,
    pub main_class: usize,
}

impl Runtime {
    /// Exactly one class of either origin may exist per fully-qualified
    /// name.
    pub open spec fn names_unique(self) -> bool {
        forall|i: int, j: int|
            0 <= i < j < self.classes@.len() ==> (#[trigger] self.classes@[i]).spec_name() != (
            #[trigger] self.classes@[j]).spec_name()
    }

    /// Well-formedness: one layout per class, one class per name, and a
    /// heap whose objects all tile under that layout table.
    pub open spec fn wf(self) -> bool {
        &&& self.layouts@.len() == self.classes@.len()
        &&& self.names_unique()
        &&& self.heap.wf(self.layouts@)
    }

    /// Searches the class table for a name.
    pub fn find_class(&self, name: &String) -> (r: Option<usize>)
        ensures
            match r {
                Some(i) => find_class_idx(self.classes@, name@) == Some(i as int) && i
                    < self.classes@.len() && self.classes@[i as int].spec_name() == name@,
                None => find_class_idx(self.classes@, name@) is None && forall|j: int|
                    0 <= j < self.classes@.len() ==> (#[trigger] self.classes@[j]).spec_name()
                        != name@,
            },
    {
        let mut i: usize = 0;
        loop
            invariant
                i <= self.classes@.len(),
                forall|j: int| 0 <= j < i ==> (#[trigger] self.classes@[j]).spec_name() != name@,
            decreases self.classes@.len() - i,
        {
            if i == self.classes.len() {
                proof {
                    lemma_find_class_none(self.classes@, name@);
                }
                return None;
            }
            if *self.classes[i].name() == *name {
                proof {
                    lemma_find_class_prefix(self.classes@, name@, i as int);
                }
                return Some(i);
            }
            i = i + 1;
        }
    }

    /// Searches the image table for a class name.
    fn find_image(&self, name: &String) -> (r: Option<usize>)
        ensures
            match r {
                Some(i) => spec_find_image(self.images@, name@) == Some(i as int) && i
                    < self.images@.len(),
                None => spec_find_image(self.images@, name@) is None,
            },
    {
        let mut i: usize = 0;
        loop
            invariant
                i <= self.images@.len(),
                forall|j: int| 0 <= j < i ==> (#[trigger] self.images@[j]).0@ != name@,
            decreases self.images@.len() - i,
        {
            if i == self.images.len() {
                proof {
                    lemma_find_image_none(self.images@, name@);
                }
                return None;
            }
            if self.images[i].0 == *name {
                proof {
                    lemma_find_image_prefix(self.images@, name@, i as int);
                }
                return Some(i);
            }
            i = i + 1;
        }
    }

    /// The per-index layout of a class: one entry per instance field in
    /// offset order, true where the field holds a reference.
    fn layout_of(fields: &Vec<Field>) -> (l: ClassLayout)
        ensures
            l.is_ref@.len() == fields@.len(),
    {
        let mut is_ref: Vec<bool> = Vec::new();
        let mut i: usize = 0;
        while i < fields.len()
            invariant
                is_ref@.len() == i,
                i <= fields@.len(),
            decreases fields@.len() - i,
        {
            is_ref.push(fields[i].is_object());
            i = i + 1;
        }
        ClassLayout { is_ref }
    }

    /// Registers a class under its name, merging with an already loaded
    /// definition of the other origin: the host-provided method table is
    /// overlaid onto the file-defined one, host methods winning on a
    /// name-and-descriptor collision.  Two definitions of the same
    /// origin for one name are a fatal merge conflict.
    pub fn add_class(&mut self, cls: Class) -> (r: Result<usize, VmError>)
        requires
            old(self).wf(),
        ensures
            final(self).wf(),
            final(self).classes@.len() >= old(self).classes@.len(),
            final(self).heap == old(self).heap,
            final(self).images == old(self).images,
            final(self).main_class == old(self).main_class,
            forall|q: int|
                0 <= q < old(self).classes@.len() ==> (#[trigger] final(self).classes@[
                    q
                ]).spec_name() == old(self).classes@[q].spec_name(),
            r matches Ok(i) ==> i < final(self).classes@.len() && final(self).classes@[
                i as int
            ].spec_name() == cls.spec_name(),
            cls is Java ==> (r matches Ok(i) ==> final(self).classes@[
                i as int
            ].spec_instance_fields() == cls.spec_instance_fields() && final(self).classes@[
                i as int
            ].spec_static_fields() == cls.spec_static_fields()),
            r matches Err(e) ==> e == VmError::MergeConflict,
    {
        let name_owned = clone_str(cls.name());
        let existing = self.find_class(&name_owned);
        match existing {
            None => {
                let layout = match &cls {
                    Class::Java(c) => Runtime::layout_of(&c.instance_fields),
                    Class::Native(c) => Runtime::layout_of(&c.instance_fields),
                };
                let ghost pre = *self;
                let idx = self.classes.len();
                self.classes.push(cls);
                self.layouts.push(layout);
                proof {
                    lemma_heap_wf_more_layouts(pre.heap, pre.layouts@, self.layouts@);
                    assert forall|a: int, b: int|
                        0 <= a < b < self.classes@.len() implies (
                    #[trigger] self.classes@[a]).spec_name() != (
                    #[trigger] self.classes@[b]).spec_name() by {
                        if b < idx {
                            assert(self.classes@[a] == pre.classes@[a]);
                            assert(self.classes@[b] == pre.classes@[b]);
                        } else {
                            assert(self.classes@[a] == pre.classes@[a]);
                            assert(self.classes@[b].spec_name() == name_owned@);
                        }
                    }
                }
                Ok(idx)
            },
            Some(i) => {
                match (&self.classes[i], cls) {
                    (Class::Java(_), Class::Native(nc)) => {
                        // Overlay the host methods onto the file-defined
                        // class in place; its index and layout stay.
                        let ghost pre = *self;
                        let existing_cls = &mut self.classes[i];
                        match existing_cls {
                            Class::Java(jc) => overlay_methods(&mut jc.methods, nc.methods),
                            Class::Native(_) => {},
                        }
                        proof {
                            assert(self.classes@[i as int].spec_name() == pre.classes@[
                                i as int
                            ].spec_name());
                            assert forall|a: int, b: int|
                                0 <= a < b < self.classes@.len() implies (
                            #[trigger] self.classes@[a]).spec_name() != (
                            #[trigger] self.classes@[b]).spec_name() by {
                                assert(self.classes@[a].spec_name() == pre.classes@[
                                    a
                                ].spec_name());
                                assert(self.classes@[b].spec_name() == pre.classes@[
                                    b
                                ].spec_name());
                            }
                            lemma_heap_wf_more_layouts(pre.heap, pre.layouts@, self.layouts@);
                        }
                        Ok(i)
                    },
                    (Class::Native(_), Class::Java(mut jc)) => {
                        // The file-defined class takes the slot; the
                        // host methods are overlaid onto it.  The slot's
                        // layout may only change shape while no object
                        // exists, since live objects are sized by it.
                        let layout = Runtime::layout_of(&jc.instance_fields);
                        let same_size = layout.is_ref.len()
                            == self.layouts[i].is_ref.len();
                        if !same_size && self.heap.chunks.len() > 0 {
                            return Err(VmError::MergeConflict);
                        }
                        let ghost pre = *self;
                        let old_cls = self.classes.remove(i);
                        match old_cls {
                            Class::Native(nc) => overlay_methods(&mut jc.methods, nc.methods),
                            Class::Java(_) => {},
                        }
                        self.classes.insert(i, Class::Java(jc));
                        self.layouts.set(i, layout);
                        proof {
                            assert(self.classes@.len() == pre.classes@.len());
                            assert(self.classes@.remove(i as int).insert(i as int, self.classes@[i as int]) == self.classes@);
                            if same_size {
                                lemma_heap_wf_layouts_compatible(pre.heap, pre.layouts@, self.layouts@);
                            } else {
                                lemma_heap_wf_layout_swap(pre.heap, pre.layouts@, self.layouts@);
                            }
                            assert(self.classes@[i as int].spec_name() == name_owned@);
                            assert forall|a: int, b: int|
                                0 <= a < b < self.classes@.len() implies (
                            #[trigger] self.classes@[a]).spec_name() != (
                            #[trigger] self.classes@[b]).spec_name() by {
                                assert(self.classes@[a].spec_name() == pre.classes@[
                                    a
                                ].spec_name());
                                assert(self.classes@[b].spec_name() == pre.classes@[
                                    b
                                ].spec_name());
                            }
                        }
                        Ok(i)
                    },
                    _ => Err(VmError::MergeConflict),
                }
            },
        }
    }

    /// Registers a host-provided class.
    pub fn add_native_class(&mut self, cls: NativeClass) -> (r: Result<usize, VmError>)
        requires
            old(self).wf(),
        ensures
            final(self).wf(),
            final(self).classes@.len() >= old(self).classes@.len(),
            final(self).heap == old(self).heap,
            final(self).images == old(self).images,
            final(self).main_class == old(self).main_class,
            forall|q: int|
                0 <= q < old(self).classes@.len() ==> (#[trigger] final(self).classes@[
                    q
                ]).spec_name() == old(self).classes@[q].spec_name(),
            r matches Ok(i) ==> i < final(self).classes@.len() && final(self).classes@[
                i as int
            ].spec_name() == cls.name@,
    {
        self.add_class(Class::Native(cls))
    }

    /// Registers a file-defined class.
    pub fn add_java_class(&mut self, cls: JavaClass) -> (r: Result<usize, VmError>)
        requires
            old(self).wf(),
        ensures
            final(self).wf(),
            final(self).classes@.len() >= old(self).classes@.len(),
            final(self).heap == old(self).heap,
            final(self).images == old(self).images,
            final(self).main_class == old(self).main_class,
            r matches Ok(i) ==> i < final(self).classes@.len() && final(self).classes@[
                i as int
            ].spec_name() == cls.name@ && final(self).classes@[
                i as int
            ].spec_instance_fields() == cls.instance_fields@ && final(self).classes@[
                i as int
            ].spec_static_fields() == cls.static_fields@,
    {
        self.add_class(Class::Java(cls))
    }

    /// Resolves a class by name, idempotently: a class already loaded is
    /// returned from the table; otherwise its image is located by name,
    /// parsed, and installed, with its super class and interfaces loaded
    /// recursively first.  A missing super class is fatal; a super-class
    /// cycle exhausts the recursion budget and reports a malformed
    /// class.
    pub fn load(&mut self, name: String, fuel: usize) -> (r: Result<usize, VmError>)
        requires
            old(self).wf(),
        ensures
            final(self).wf(),
            final(self).classes@.len() >= old(self).classes@.len(),
            r matches Ok(i) ==> i < final(self).classes@.len() && final(self).classes@[
                i as int
            ].spec_name() == name@,
            load_rel(*old(self), *final(self), name@, r),
        decreases fuel, 0int,
    {
        match self.find_class(&name) {
            Some(i) => {
                proof {
                    lemma_find_class(self.classes@, name@);
                }
                return Ok(i);
            },
            None => {},
        }
        let img = match self.find_image(&name) {
            Some(k) => k,
            None => {
                return Err(VmError::ClassNotFound);
            },
        };
        if fuel == 0 {
            // A super-class chain longer than the image table can only
            // be a cycle: a malformed class configuration.
            return Err(VmError::ClassFormat);
        }
        let bytes = clone_bytes(&self.images[img].1);
        let mut reader = ClassReader::new(bytes);
        let cf = reader.read_class()?;
        let idx = self.from_classfile(cf, fuel - 1)?;
        let found = self.find_class(&name);
        match found {
            Some(i) => {
                proof {
                    lemma_find_class(self.classes@, name@);
                }
                Ok(i)
            },
            None => Err(VmError::ClassNotFound),
        }
    }

    /// Installs a parsed class file: resolves its own name, loads its
    /// super class and interfaces, partitions its fields into static and
    /// instance ones, assigns the deterministic instance layout (fields
    /// sorted by name, offset equal to rank), builds its methods, and
    /// registers the class under the merge rules.
    #[verifier::loop_isolation(false)]
    pub fn from_classfile(&mut self, c: ClassFile, fuel: usize) -> (r: Result<usize, VmError>)
        requires
            old(self).wf(),
        ensures
            final(self).wf(),
            final(self).classes@.len() >= old(self).classes@.len(),
            final(self).heap == old(self).heap,
            final(self).images == old(self).images,
            final(self).main_class == old(self).main_class,
            r matches Ok(i) ==> i < final(self).classes@.len() && ({
                let cls = final(self).classes@[i as int];
                &&& crate::constant_pool::spec_class_name_at(c.constant_pool@, c.this_class as int)
                    == Some(cls.spec_name())
                &&& forall|p: int|
                    0 <= p < cls.spec_instance_fields().len() ==> (
                    #[trigger] cls.spec_instance_fields()[p]).offset == p
                &&& forall|p: int, q: int|
                    0 <= p < q < cls.spec_instance_fields().len() ==> crate::class::chars_le(
                        cls.spec_instance_fields()[p].name@,
                        cls.spec_instance_fields()[q].name@,
                    )
                &&& forall|p: int|
                    0 <= p < cls.spec_instance_fields().len() ==> ((
                    #[trigger] cls.spec_instance_fields()[p]).access_flags & 0x0008) == 0
                &&& forall|p: int|
                    0 <= p < cls.spec_static_fields().len() ==> ((
                    #[trigger] cls.spec_static_fields()[p]).access_flags & 0x0008) != 0
            }),
        decreases fuel, 1int,
    {
        let cp = &c.constant_pool;
        let name = class_name_at(cp, c.this_class)?;
        let super_class: Option<usize> = if c.super_class == 0 {
            None
        } else {
            let super_name = class_name_at(cp, c.super_class)?;
            Some(self.load(super_name, fuel)?)
        };
        let mut interfaces: Vec<usize> = Vec::new();
        let mut k: usize = 0;
        while k < c.interfaces.len()
            invariant
                self.wf(),
                self.classes@.len() >= old(self).classes@.len(),
                self.heap == old(self).heap,
                self.images == old(self).images,
                self.main_class == old(self).main_class,
                k <= c.interfaces@.len(),
            decreases c.interfaces@.len() - k,
        {
            let iname = class_name_at(cp, c.interfaces[k])?;
            let ii = self.load(iname, fuel)?;
            interfaces.push(ii);
            k = k + 1;
        }
        let mut static_fields: Vec<Field> = Vec::new();
        let mut instance_fields: Vec<Field> = Vec::new();
        let mut fi: usize = 0;
        while fi < c.fields.len()
            invariant
                forall|p: int|
                    0 <= p < static_fields@.len() ==> ((#[trigger] static_fields@[p]).access_flags
                        & 0x0008) != 0,
                forall|p: int|
                    0 <= p < instance_fields@.len() ==> ((
                    #[trigger] instance_fields@[p]).access_flags & 0x0008) == 0,
            decreases c.fields@.len() - fi,
        {
            let f = Field::from_info(cp, &c.fields[fi])?;
            if f.is_static() {
                static_fields.push(f);
            } else {
                instance_fields.push(f);
            }
            fi = fi + 1;
        }
        // The deterministic instance layout: sort by name, then the
        // offset is the rank in the sorted order.
        let sorted = sort_fields_by_name(instance_fields);
        let ghost sorted_seq = sorted@;
        proof {
            broadcast use vstd::seq_lib::group_to_multiset_ensures;

            assert forall|p: int|
                0 <= p < sorted_seq.len() implies ((#[trigger] sorted_seq[p]).access_flags
                & 0x0008) == 0 by {
                assert(sorted_seq.to_multiset().contains(sorted_seq[p])) by {
                    assert(sorted_seq.to_multiset().count(sorted_seq[p]) > 0);
                }
                assert(instance_fields@.to_multiset().contains(sorted_seq[p]));
                assert(instance_fields@.contains(sorted_seq[p]));
            }
        }
        let mut laid_out: Vec<Field> = Vec::new();
        let mut oi: usize = 0;
        let n_inst = sorted.len();
        let mut sorted_mut = sorted;
        proof {
            assert(sorted_mut@ =~= sorted_seq.skip(0));
        }
        while oi < n_inst
            invariant
                oi <= n_inst,
                n_inst == sorted_mut@.len() + laid_out@.len(),
                laid_out@.len() == oi,
                sorted_mut@ == sorted_seq.skip(oi as int),
                forall|p: int|
                    0 <= p < oi ==> #[trigger] laid_out@[p] == (Field {
                        offset: p as usize,
                        ..sorted_seq[p]
                    }),
            decreases n_inst - oi,
        {
            let mut f = sorted_mut.remove(0);
            proof {
                assert(sorted_seq.skip(oi as int)[0] == sorted_seq[oi as int]);
                assert(sorted_mut@ =~= sorted_seq.skip(oi as int + 1));
            }
            f.offset = oi;
            laid_out.push(f);
            oi = oi + 1;
        }
        proof {
            assert forall|p: int|
                0 <= p < laid_out@.len() implies (#[trigger] laid_out@[p]).offset == p && (
            laid_out@[p].access_flags & 0x0008) == 0 && laid_out@[p].name@ == sorted_seq[p].name@ by {}
            assert forall|p: int, q: int|
                0 <= p < q < laid_out@.len() implies crate::class::chars_le(
                laid_out@[p].name@,
                laid_out@[q].name@,
            ) by {}
        }
        let mut methods: Vec<Method> = Vec::new();
        let mut mi: usize = 0;
        while mi < c.methods.len()
            decreases c.methods@.len() - mi,
        {
            let m = JavaMethod::from_info(cp, &c.methods[mi])?;
            methods.push(Method::Java(m));
            mi = mi + 1;
        }
        let mut attributes: Vec<(String, Vec<u8>)> = Vec::new();
        let mut ai: usize = 0;
        while ai < c.attributes.len()
            decreases c.attributes@.len() - ai,
        {
            let a = &c.attributes[ai];
            let aname = utf8_at(cp, a.name_index)?;
            attributes.push((aname, clone_bytes(&a.info)));
            ai = ai + 1;
        }
        let cls = JavaClass {
            name,
            constant_pool: c.constant_pool,
            access_flags: c.access_flags,
            super_class,
            interfaces,
            static_fields,
            instance_fields: laid_out,
            methods,
            attributes,
        };
        self.add_java_class(cls)
    }

    /// A string value; string objects are not yet modeled, so the null
    /// reference stands in for every string.
    pub fn new_string(&mut self, _contents: &str) -> (v: Value)
        ensures
            v.bits == 0,
    {
        Value::null()
    }

    /// Resolves a loaded class by name without loading.
    pub fn get_class(&self, name: &String) -> (r: Result<usize, VmError>)
        ensures
            match r {
                Ok(i) => find_class_idx(self.classes@, name@) == Some(i as int) && i
                    < self.classes@.len(),
                Err(e) => e == VmError::ClassNotFound && find_class_idx(self.classes@, name@)
                    is None,
            },
    {
        match self.find_class(name) {
            Some(i) => Ok(i),
            None => Err(VmError::ClassNotFound),
        }
    }
}

/// Clones a string.
fn clone_str(s: &String) -> (r: String)
    ensures
        r@ == s@,
{
    String::from_str(s.as_str())
}

/// Clones a byte vector.
fn clone_bytes(b: &Vec<u8>) -> (r: Vec<u8>)
    ensures
        r@ == b@,
{
    let mut out: Vec<u8> = Vec::new();
    let mut i: usize = 0;
    while i < b.len()
        invariant
            i <= b@.len(),
            out@ == b@.subrange(0, i as int),
        decreases b@.len() - i,
    {
        out.push(b[i]);
        proof {
            assert(out@ =~= b@.subrange(0, i + 1));
        }
        i = i + 1;
    }
    proof {
        assert(b@.subrange(0, b@.len() as int) =~= b@);
    }
    out
}

/// Overlays one method table onto another: every entry of `over` wins
/// on a name-and-descriptor collision, and every key `over` holds
/// resolves in the result to exactly its entry.
fn overlay_methods(base: &mut Vec<Method>, over: Vec<Method>)
    ensures
        forall|n: Seq<char>, d: Seq<char>|
            (#[trigger] find_method(over@, n, d)) matches Some(j) ==> find_method(
                final(base)@,
                n,
                d,
            ) == Some(j) && final(base)@[j] == over@[j],
{
    let mut kept: Vec<Method> = Vec::new();
    let n_over = over.len();
    let ghost over_seq = over@;
    let mut rest = over;
    let mut taken: usize = 0;
    while taken < n_over
        invariant
            taken <= n_over,
            kept@.len() == taken,
            rest@.len() + taken == n_over,
            over_seq =~= kept@ + rest@,
        decreases n_over - taken,
    {
        let m = rest.remove(0);
        let ghost pre_kept = kept@;
        kept.push(m);
        proof {
            assert(kept@ =~= pre_kept.push(over_seq[taken as int]));
            assert(over_seq =~= kept@ + rest@);
        }
        taken = taken + 1;
    }
    // Keep only the base entries whose key the overlay does not define.
    let nb = base.len();
    let mut bi: usize = 0;
    while bi < nb
        invariant
            bi <= nb,
            base@.len() + bi == nb,
            kept@.len() >= n_over,
            forall|q: int| 0 <= q < n_over ==> kept@[q] == over_seq[q],
        decreases nb - bi,
    {
        let b = base.remove(0);
        match crate::class::method_index(&kept, b.name(), b.descriptor_string()) {
            Some(_) => {},
            None => {
                let ghost pre = kept@;
                kept.push(b);
                proof {
                    assert forall|q: int| 0 <= q < n_over implies kept@[q] == over_seq[q] by {
                        assert(kept@[q] == pre[q]);
                    }
                }
            },
        }
        bi = bi + 1;
    }
    *base = kept;
    proof {
        assert forall|n: Seq<char>, d: Seq<char>|
            (#[trigger] find_method(over_seq, n, d)) is Some implies ({
            let j = find_method(over_seq, n, d)->Some_0;
            find_method(base@, n, d) == Some(j) && base@[j] == over_seq[j]
        }) by {
            crate::class::lemma_find_method(over_seq, n, d);
            lemma_find_method_same_prefix(over_seq, base@, n, d);
        }
    }
}

/// A search over a sequence that extends a prefix with the same leading
/// entries finds the same first hit, provided the prefix holds one.
proof fn lemma_find_method_same_prefix(a: Seq<Method>, b: Seq<Method>, n: Seq<char>, d: Seq<char>)
    requires
        a.len() <= b.len(),
        forall|q: int| 0 <= q < a.len() ==> b[q] == a[q],
        find_method(a, n, d) is Some,
    ensures
        find_method(b, n, d) == find_method(a, n, d),
    decreases a.len(),
{
    if a.len() > 0 {
        if a[0].spec_name() == n && a[0].spec_descriptor() == d {
        } else {
            assert forall|q: int| 0 <= q < a.len() - 1 implies b.skip(1)[q] == a.skip(1)[q] by {
                assert(a.skip(1)[q] == a[q + 1]);
                assert(b.skip(1)[q] == b[q + 1]);
            }
            lemma_find_method_same_prefix(a.skip(1), b.skip(1), n, d);
        }
    }
}

/// A search that misses every class finds nothing.
proof fn lemma_find_class_none(classes: Seq<Class>, name: Seq<char>)
    requires
        forall|j: int| 0 <= j < classes.len() ==> (#[trigger] classes[j]).spec_name() != name,
    ensures
        find_class_idx(classes, name) is None,
    decreases classes.len(),
{
    if classes.len() > 0 {
        assert forall|j: int|
            0 <= j < classes.len() - 1 implies (#[trigger] classes.skip(1)[j]).spec_name()
            != name by {
            assert(classes.skip(1)[j] == classes[j + 1]);
        }
        lemma_find_class_none(classes.skip(1), name);
    }
}

/// If every class before `i` misses the name and class `i` carries it,
/// the search finds exactly `i`.
proof fn lemma_find_class_prefix(classes: Seq<Class>, name: Seq<char>, i: int)
    requires
        0 <= i < classes.len(),
        classes[i].spec_name() == name,
        forall|j: int| 0 <= j < i ==> (#[trigger] classes[j]).spec_name() != name,
    ensures
        find_class_idx(classes, name) == Some(i),
    decreases i,
{
    if i > 0 {
        assert forall|j: int|
            0 <= j < i - 1 implies (#[trigger] classes.skip(1)[j]).spec_name() != name by {
            assert(classes.skip(1)[j] == classes[j + 1]);
        }
        assert(classes.skip(1)[i - 1] == classes[i]);
        lemma_find_class_prefix(classes.skip(1), name, i - 1);
    }
}

/// A well-formed heap stays well-formed when the layout table grows:
/// existing objects name only existing classes.
proof fn lemma_heap_wf_more_layouts(h: Heap, l1: Seq<ClassLayout>, l2: Seq<ClassLayout>)
    requires
        h.wf(l1),
        l1.len() <= l2.len(),
        forall|i: int| 0 <= i < l1.len() ==> l2[i] == l1[i],
    ensures
        h.wf(l2),
{
    assert forall|c: int|
        0 <= c < h.chunks@.len() implies crate::heap::tile(
        (#[trigger] h.chunks@[c]).data@,
        l2,
        0,
        h.chunks@[c].cursor as int,
    ) is Some by {
        crate::heap::lemma_tile_more_layouts(
            h.chunks@[c].data@,
            l1,
            l2,
            0,
            h.chunks@[c].cursor as int,
        );
    }
}

/// Any layout table of equal length keeps an empty heap well-formed.
proof fn lemma_heap_wf_layout_swap(h: Heap, l1: Seq<ClassLayout>, l2: Seq<ClassLayout>)
    requires
        h.wf(l1),
        h.chunks@.len() == 0,
        l2.len() == l1.len(),
    ensures
        h.wf(l2),
{
    assert(crate::heap::Heap::sum_committed(h.chunks@) == 0);
}

/// A layout table whose classes keep their field counts preserves the
/// heap's tiling: tiling is sized by field counts alone.
proof fn lemma_heap_wf_layouts_compatible(h: Heap, l1: Seq<ClassLayout>, l2: Seq<ClassLayout>)
    requires
        h.wf(l1),
        l2.len() == l1.len(),
        forall|i: int|
            0 <= i < l1.len() ==> (#[trigger] l2[i]).is_ref@.len() == l1[i].is_ref@.len(),
    ensures
        h.wf(l2),
{
    assert forall|c: int|
        0 <= c < h.chunks@.len() implies crate::heap::tile(
        (#[trigger] h.chunks@[c]).data@,
        l2,
        0,
        h.chunks@[c].cursor as int,
    ) is Some by {
        lemma_tile_same_sizes(h.chunks@[c].data@, l1, l2, 0, h.chunks@[c].cursor as int);
    }
}

/// Tiling depends on class sizes only.
proof fn lemma_tile_same_sizes(
    data: Seq<Value>,
    l1: Seq<ClassLayout>,
    l2: Seq<ClassLayout>,
    off: int,
    cursor: int,
)
    requires
        0 <= off <= cursor,
        crate::heap::tile(data, l1, off, cursor) is Some,
        l2.len() == l1.len(),
        forall|i: int|
            0 <= i < l1.len() ==> (#[trigger] l2[i]).is_ref@.len() == l1[i].is_ref@.len(),
    ensures
        crate::heap::tile(data, l2, off, cursor) == crate::heap::tile(data, l1, off, cursor),
    decreases cursor - off,
{
    if off < cursor {
        let c = data[off].bits as int;
        let sz = crate::heap::class_size(l1, c);
        assert(crate::heap::class_size(l2, c) == sz);
        lemma_tile_same_sizes(data, l1, l2, off + sz, cursor);
    }
}


/// Pops the top of the current frame's operand stack, or reports the
/// empty-stack execution error with the stack untouched.
fn pop_value(stack: &mut Stack) -> (r: Result<Value, VmError>)
    requires
        old(stack).wf(),
        old(stack).depth() > 0,
    ensures
        final(stack).wf(),
        final(stack).depth() == old(stack).depth(),
        final(stack).capacity() == old(stack).capacity(),
        Stack::frames_preserved(*old(stack), *final(stack), old(stack).depth() - 1),
        match r {
            Ok(v) => {
                &&& old(stack).frame(old(stack).depth() - 1).sp > 0
                &&& v == old(stack).stack_of(old(stack).depth() - 1).last()
                &&& final(stack).stack_of(final(stack).depth() - 1) == old(stack).stack_of(
                    old(stack).depth() - 1,
                ).drop_last()
                &&& final(stack).locals_of(final(stack).depth() - 1) == old(stack).locals_of(
                    old(stack).depth() - 1,
                )
                &&& final(stack).frame(final(stack).depth() - 1) == (StackFrame {
                    sp: (old(stack).frame(old(stack).depth() - 1).sp - 1) as u16,
                    ..old(stack).frame(old(stack).depth() - 1)
                })
            },
            Err(e) => e == VmError::EmptyOperandStack && *final(stack) == *old(stack)
                && old(stack).frame(old(stack).depth() - 1).sp == 0,
        },
{
    let f = stack.current();
    if f.sp == 0 {
        return Err(VmError::EmptyOperandStack);
    }
    Ok(stack.pop())
}

/// Pushes onto the current frame's operand stack, or reports overflow
/// of the frame's declared depth with the stack untouched.
fn push_value(stack: &mut Stack, v: Value) -> (r: Result<(), VmError>)
    requires
        old(stack).wf(),
        old(stack).depth() > 0,
    ensures
        final(stack).wf(),
        final(stack).depth() == old(stack).depth(),
        final(stack).capacity() == old(stack).capacity(),
        Stack::frames_preserved(*old(stack), *final(stack), old(stack).depth() - 1),
        match r {
            Ok(()) => {
                &&& old(stack).frame(old(stack).depth() - 1).sp < old(stack).frame(
                    old(stack).depth() - 1,
                ).max_stack
                &&& final(stack).stack_of(final(stack).depth() - 1) == old(stack).stack_of(
                    old(stack).depth() - 1,
                ).push(v)
                &&& final(stack).locals_of(final(stack).depth() - 1) == old(stack).locals_of(
                    old(stack).depth() - 1,
                )
                &&& final(stack).frame(final(stack).depth() - 1) == (StackFrame {
                    sp: (old(stack).frame(old(stack).depth() - 1).sp + 1) as u16,
                    ..old(stack).frame(old(stack).depth() - 1)
                })
            },
            Err(e) => e == VmError::OperandStackOverflow && *final(stack) == *old(stack)
                && old(stack).frame(old(stack).depth() - 1).sp >= old(stack).frame(
                old(stack).depth() - 1,
            ).max_stack,
        },
{
    let f = stack.current();
    if f.sp >= f.max_stack {
        return Err(VmError::OperandStackOverflow);
    }
    stack.push(v);
    Ok(())
}

/// Reads a local of the current frame, or reports an out-of-range slot.
fn local_get(stack: &Stack, n: u16) -> (r: Result<Value, VmError>)
    requires
        stack.wf(),
        stack.depth() > 0,
    ensures
        match r {
            Ok(v) => {
                &&& n < stack.frame(stack.depth() - 1).max_locals
                &&& v == stack.locals_of(stack.depth() - 1)[n as int]
            },
            Err(e) => e == VmError::LocalOutOfBounds && n >= stack.frame(
                stack.depth() - 1,
            ).max_locals,
        },
{
    let f = stack.current();
    if n >= f.max_locals {
        return Err(VmError::LocalOutOfBounds);
    }
    Ok(stack.get(n))
}

/// Writes a local of the current frame, or reports an out-of-range
/// slot with the stack untouched.
fn local_set(stack: &mut Stack, n: u16, v: Value) -> (r: Result<(), VmError>)
    requires
        old(stack).wf(),
        old(stack).depth() > 0,
    ensures
        final(stack).wf(),
        final(stack).depth() == old(stack).depth(),
        final(stack).capacity() == old(stack).capacity(),
        Stack::frames_preserved(*old(stack), *final(stack), old(stack).depth() - 1),
        match r {
            Ok(()) => {
                &&& n < old(stack).frame(old(stack).depth() - 1).max_locals
                &&& final(stack).locals_of(final(stack).depth() - 1) == old(stack).locals_of(
                    old(stack).depth() - 1,
                ).update(n as int, v)
                &&& final(stack).stack_of(final(stack).depth() - 1) == old(stack).stack_of(
                    old(stack).depth() - 1,
                )
                &&& final(stack).frame(final(stack).depth() - 1) == old(stack).frame(
                    old(stack).depth() - 1,
                )
            },
            Err(e) => e == VmError::LocalOutOfBounds && *final(stack) == *old(stack) && n >= old(
                stack,
            ).frame(old(stack).depth() - 1).max_locals,
        },
{
    let f = stack.current();
    if n >= f.max_locals {
        return Err(VmError::LocalOutOfBounds);
    }
    stack.set(n, v);
    Ok(())
}


/// The instruction the interpreter fetches at a frame position, or the
/// fatal condition the fetch reports: the code-overrun condition exactly
/// when the counter has run past the end of the method's instruction
/// sequence, and a malformed-class condition when the frame names no
/// bytecode-backed method.
pub open spec fn spec_fetch(rt: Runtime, ci: int, mi: int, pc: int) -> Result<
    Instruction,
    VmError,
> {
    if ci >= rt.classes@.len() {
        Err(VmError::ClassFormat)
    } else {
        let ms = rt.classes@[ci].spec_methods();
        if mi >= ms.len() {
            Err(VmError::ClassFormat)
        } else {
            match ms[mi] {
                Method::Java(jm) => match jm.code {
                    Some(code) => if pc >= code.code@.len() {
                        Err(VmError::PcOverrun)
                    } else {
                        Ok(code.code@[pc])
                    },
                    None => Err(VmError::AbstractMethodCall),
                },
                Method::Native(_) => Err(VmError::ClassFormat),
            }
        }
    }
}

/// The two-hop resolution of the field reference at index `n` of class
/// `ci`'s constant pool, or the condition on which it fails.
pub open spec fn spec_fieldref_of(rt: Runtime, ci: int, n: int) -> Result<
    (Seq<char>, Seq<char>, Seq<char>),
    VmError,
> {
    if ci >= rt.classes@.len() {
        Err(VmError::ClassFormat)
    } else {
        match rt.classes@[ci] {
            Class::Native(_) => Err(VmError::ClassFormat),
            Class::Java(jc) => match spec_fieldref_at(jc.constant_pool@, n) {
                Some(t) => Ok(t),
                None => Err(VmError::BadConstantPool),
            },
        }
    }
}

/// The two-hop resolution of the method reference (plain or interface)
/// at index `n` of class `ci`'s constant pool.
pub open spec fn spec_methodref_of(rt: Runtime, ci: int, n: int) -> Result<
    (Seq<char>, Seq<char>, Seq<char>),
    VmError,
> {
    if ci >= rt.classes@.len() {
        Err(VmError::ClassFormat)
    } else {
        match rt.classes@[ci] {
            Class::Native(_) => Err(VmError::ClassFormat),
            Class::Java(jc) => match spec_methodref_at(jc.constant_pool@, n) {
                Some(t) => Ok(t),
                None => Err(VmError::BadConstantPool),
            },
        }
    }
}

/// The loadable value of the single-slot constant-pool entry at index
/// `n` of class `ci`, or the condition on which the load fails.
pub open spec fn spec_constant_value(rt: Runtime, ci: int, n: int) -> Result<Value, VmError> {
    if ci >= rt.classes@.len() {
        Err(VmError::ClassFormat)
    } else {
        match rt.classes@[ci] {
            Class::Native(_) => Err(VmError::ClassFormat),
            Class::Java(jc) => match entry_at(jc.constant_pool@, n) {
                Some(ConstantPoolInfo::Integer(x)) => Ok(
                    Value { bits: int_bits(arith::wrap32(x.bytes as int)) },
                ),
                Some(ConstantPoolInfo::Float(x)) => Ok(Value { bits: x.bytes as u64 }),
                Some(ConstantPoolInfo::JString(_)) => Ok(Value { bits: 0 }),
                _ => Err(VmError::BadConstantPool),
            },
        }
    }
}

/// The loadable value of the two-slot constant-pool entry at index `n`
/// of class `ci`.
pub open spec fn spec_constant_value2(rt: Runtime, ci: int, n: int) -> Result<Value, VmError> {
    if ci >= rt.classes@.len() {
        Err(VmError::ClassFormat)
    } else {
        match rt.classes@[ci] {
            Class::Native(_) => Err(VmError::ClassFormat),
            Class::Java(jc) => match entry_at(jc.constant_pool@, n) {
                Some(ConstantPoolInfo::Long(x)) => Ok(
                    Value { bits: ((x.high_bytes as int) * 0x1_0000_0000 + x.low_bytes as int) as u64 },
                ),
                Some(ConstantPoolInfo::Double(x)) => Ok(
                    Value { bits: ((x.high_bytes as int) * 0x1_0000_0000 + x.low_bytes as int) as u64 },
                ),
                _ => Err(VmError::BadConstantPool),
            },
        }
    }
}

impl Runtime {
    /// Fetches the instruction at the frame's program counter.  Running
    /// the counter past the end of the instruction sequence is the code
    /// overrun fatal condition.
    fn fetch(&self, class_idx: usize, method_idx: usize, pc: usize) -> (r: Result<
        Instruction,
        VmError,
    >)
        ensures
            r == spec_fetch(*self, class_idx as int, method_idx as int, pc as int),
            r is Ok ==> pc < usize::MAX,
    {
        if class_idx >= self.classes.len() {
            return Err(VmError::ClassFormat);
        }
        let cls = &self.classes[class_idx];
        let methods = cls.methods();
        if method_idx >= methods.len() {
            return Err(VmError::ClassFormat);
        }
        match &methods[method_idx] {
            Method::Java(jm) => match &jm.code {
                Some(code) => {
                    let n = code.code.len();
                    if pc >= n {
                        Err(VmError::PcOverrun)
                    } else {
                        Ok(code.code[pc])
                    }
                },
                None => Err(VmError::AbstractMethodCall),
            },
            Method::Native(_) => Err(VmError::ClassFormat),
        }
    }

    /// Resolves the field reference at the index through the current
    /// class's constant pool: the owning class's name, the field's
    /// name, and its descriptor.
    fn fieldref_of(&self, class_idx: usize, n: u16) -> (r: Result<(String, String, String), VmError>)
        ensures
            match r {
                Ok(t) => spec_fieldref_of(*self, class_idx as int, n as int) == Ok::<
                    (Seq<char>, Seq<char>, Seq<char>),
                    VmError,
                >((t.0@, t.1@, t.2@)),
                Err(e) => spec_fieldref_of(*self, class_idx as int, n as int) == Err::<
                    (Seq<char>, Seq<char>, Seq<char>),
                    VmError,
                >(e),
            },
            r matches Ok(t) ==> class_idx < self.classes@.len()
                && crate::constant_pool::spec_fieldref_at(
                self.classes@[class_idx as int].spec_cp(),
                n as int,
            ) == Some((t.0@, t.1@, t.2@)),
    {
        if class_idx >= self.classes.len() {
            return Err(VmError::ClassFormat);
        }
        match &self.classes[class_idx] {
            Class::Java(jc) => resolve_fieldref(&jc.constant_pool, n),
            Class::Native(_) => Err(VmError::ClassFormat),
        }
    }

    /// Resolves the method reference (plain or interface) at the index
    /// through the current class's constant pool.
    fn methodref_of(&self, class_idx: usize, n: u16) -> (r: Result<
        (String, String, String),
        VmError,
    >)
        ensures
            match r {
                Ok(t) => spec_methodref_of(*self, class_idx as int, n as int) == Ok::<
                    (Seq<char>, Seq<char>, Seq<char>),
                    VmError,
                >((t.0@, t.1@, t.2@)),
                Err(e) => spec_methodref_of(*self, class_idx as int, n as int) == Err::<
                    (Seq<char>, Seq<char>, Seq<char>),
                    VmError,
                >(e),
            },
    {
        if class_idx >= self.classes.len() {
            return Err(VmError::ClassFormat);
        }
        match &self.classes[class_idx] {
            Class::Java(jc) => resolve_methodref(&jc.constant_pool, n),
            Class::Native(_) => Err(VmError::ClassFormat),
        }
    }

    /// The loadable value of a single-slot constant-pool entry: an
    /// integer, a raw float bit pattern, or a string reference (strings
    /// are not yet modeled, so the null reference stands in).
    fn constant_value(&self, class_idx: usize, n: u16) -> (r: Result<Value, VmError>)
        ensures
            r == spec_constant_value(*self, class_idx as int, n as int),
    {
        if class_idx >= self.classes.len() {
            return Err(VmError::ClassFormat);
        }
        let cp = match &self.classes[class_idx] {
            Class::Java(jc) => &jc.constant_pool,
            Class::Native(_) => {
                return Err(VmError::ClassFormat);
            },
        };
        if n == 0 || n as usize > cp.len() {
            return Err(VmError::BadConstantPool);
        }
        match &cp[n as usize - 1] {
            ConstantPoolInfo::Integer(x) => {
                let b = x.bytes;
                if b < 0x8000_0000 {
                    Ok(Value::nint(b as i32))
                } else {
                    Ok(Value::nint((b as i64 - 0x1_0000_0000i64) as i32))
                }
            },
            ConstantPoolInfo::Float(x) => Ok(Value { bits: x.bytes as u64 }),
            ConstantPoolInfo::JString(_) => Ok(Value::null()),
            _ => Err(VmError::BadConstantPool),
        }
    }

    /// The loadable value of a two-slot constant-pool entry: a long or
    /// a raw double bit pattern.
    fn constant_value2(&self, class_idx: usize, n: u16) -> (r: Result<Value, VmError>)
        ensures
            r == spec_constant_value2(*self, class_idx as int, n as int),
    {
        if class_idx >= self.classes.len() {
            return Err(VmError::ClassFormat);
        }
        let cp = match &self.classes[class_idx] {
            Class::Java(jc) => &jc.constant_pool,
            Class::Native(_) => {
                return Err(VmError::ClassFormat);
            },
        };
        if n == 0 || n as usize > cp.len() {
            return Err(VmError::BadConstantPool);
        }
        match &cp[n as usize - 1] {
            ConstantPoolInfo::Long(x) => Ok(
                Value { bits: (x.high_bytes as u64) * 0x1_0000_0000 + (x.low_bytes as u64) },
            ),
            ConstantPoolInfo::Double(x) => Ok(
                Value { bits: (x.high_bytes as u64) * 0x1_0000_0000 + (x.low_bytes as u64) },
            ),
            _ => Err(VmError::BadConstantPool),
        }
    }

    /// Performs an invocation: resolves the method reference through
    /// the caller's constant pool, loads the target class, and either
    /// runs the native behavior in place or pushes a frame for the
    /// callee with the popped arguments placed in ascending local slots
    /// (they are popped in reverse).  The whole effect, for every
    /// outcome, is `invoke_rel`.
    ///
    /// Resolution is static: the method is looked up on the referenced
    /// class, not the receiver's run-time class; true virtual dispatch
    /// is a known gap of this milestone.
    #[verifier::loop_isolation(false)]
    #[verifier::rlimit(100)]
    #[verifier::spinoff_prover]
    fn do_invoke(&mut self, stack: &mut Stack, class_idx: usize, n: u16) -> (r: Result<
        (),
        VmError,
    >)
        requires
            old(self).wf(),
            old(stack).wf(),
            old(stack).depth() >= 1,
        ensures
            final(self).wf(),
            final(stack).wf(),
            final(stack).depth() >= old(stack).depth(),
            final(stack).capacity() == old(stack).capacity(),
            Stack::frames_preserved(*old(stack), *final(stack), old(stack).depth() - 1),
            final(self).classes@.len() >= old(self).classes@.len(),
            invoke_rel(
                *old(self),
                *old(stack),
                *final(self),
                *final(stack),
                class_idx as int,
                n as int,
                r,
            ),
    {
        let (cn, mn, md) = match self.methodref_of(class_idx, n) {
            Ok(t) => t,
            Err(e) => {
                return Err(e);
            },
        };
        let ghost cnv = cn@;
        let ghost tq = spec_methodref_of(*old(self), class_idx as int, n as int)->Ok_0;
        proof {
            assert(tq.0 == cnv);
        }
        let lf = self.images.len();
        let ci = match self.load(cn, lf) {
            Ok(c) => c,
            Err(e) => {
                proof {
                    assert(load_rel(*old(self), *self, tq.0, Err::<usize, VmError>(e)));
                }
                return Err(e);
            },
        };
        proof {
            assert(load_rel(*old(self), *self, tq.0, Ok::<usize, VmError>(ci)));
        }
        let mi = match self.classes[ci].get_method(&mn, &md) {
            Some(mi) => mi,
            None => {
                return Err(VmError::MemberNotFound);
            },
        };
        proof {
            crate::class::lemma_find_method(self.classes@[ci as int].spec_methods(), mn@, md@);
        }
        let cls = &self.classes[ci];
        let methods = cls.methods();
        match &methods[mi] {
            Method::Native(nm) => {
                let argc = nm.argc();
                let behavior = nm.behavior;
                let mut k: usize = 0;
                let ghost pre = *stack;
                while k < argc
                    invariant
                        k <= argc,
                        k <= pre.cur_stack().len(),
                        k <= pre.cur_frame().sp,
                        stack.depth() >= 1,
                        same_top_shape(pre, *stack),
                        stack.cur_locals() == pre.cur_locals(),
                        stack.cur_frame() == (StackFrame {
                            sp: (pre.cur_frame().sp - k) as u16,
                            ..pre.cur_frame()
                        }),
                        stack.cur_stack() == popped(pre, k as int),
                    decreases argc - k,
                {
                    match pop_value(stack) {
                        Ok(_) => {},
                        Err(e) => {
                            proof {
                                assert(underflowed(pre, *stack, argc as int));
                            }
                            return Err(e);
                        },
                    }
                    proof {
                        assert(stack.cur_stack() =~= popped(pre, k as int + 1));
                    }
                    k = k + 1;
                }
                match behavior {
                    NativeBehavior::ReturnInt(x) => {
                        match push_value(stack, Value::nint(x)) {
                            Ok(()) => {},
                            Err(e) => {
                                return Err(e);
                            },
                        }
                    },
                    NativeBehavior::ReturnVoid => {},
                }
                Ok(())
            },
            Method::Java(jm) => {
                let (ml, ms) = match &jm.code {
                    Some(c) => (c.max_locals, c.max_stack),
                    None => {
                        return Err(VmError::AbstractMethodCall);
                    },
                };
                let argc = jm.parsed_descriptor.args.len();
                if argc > ml as usize {
                    return Err(VmError::ClassFormat);
                }
                let mut args: Vec<Value> = Vec::new();
                let mut k: usize = 0;
                let ghost pre = *stack;
                while k < argc
                    invariant
                        k <= argc,
                        k <= pre.cur_stack().len(),
                        k <= pre.cur_frame().sp,
                        args@.len() == k,
                        stack.depth() >= 1,
                        same_top_shape(pre, *stack),
                        stack.cur_locals() == pre.cur_locals(),
                        stack.cur_frame() == (StackFrame {
                            sp: (pre.cur_frame().sp - k) as u16,
                            ..pre.cur_frame()
                        }),
                        stack.cur_stack() == popped(pre, k as int),
                        forall|q: int|
                            0 <= q < k ==> args@[q] == pre.cur_stack()[pre.cur_stack().len() - 1
                                - q],
                    decreases argc - k,
                {
                    let v = match pop_value(stack) {
                        Ok(v) => v,
                        Err(e) => {
                            proof {
                                assert(underflowed(pre, *stack, argc as int));
                            }
                            return Err(e);
                        },
                    };
                    proof {
                        assert(stack.cur_stack() =~= popped(pre, k as int + 1));
                        assert(v == pre.cur_stack()[pre.cur_stack().len() - 1 - k]);
                    }
                    args.push(v);
                    k = k + 1;
                }
                proof {
                    assert(stack.top() == pre.top());
                }
                match stack.call(ml, ms, ci, mi) {
                    Ok(()) => {},
                    Err(e) => {
                        return Err(e);
                    },
                }
                let ghost mid = *stack;
                let mut k2: usize = 0;
                while k2 < argc
                    invariant
                        k2 <= argc,
                        argc <= ml as usize,
                        args@.len() == argc,
                        stack.wf(),
                        stack.depth() == mid.depth(),
                        stack.depth() >= 2,
                        stack.capacity() == mid.capacity(),
                        Stack::frames_preserved(mid, *stack, mid.depth() - 1),
                        stack.cur_frame() == mid.cur_frame(),
                        stack.cur_stack() == mid.cur_stack(),
                        stack.cur_locals().len() == ml as int,
                        forall|q: int|
                            argc - k2 <= q < argc ==> stack.cur_locals()[q] == args@[argc - 1 - q],
                        forall|q: int|
                            0 <= q < argc - k2 ==> stack.cur_locals()[q] == mid.cur_locals()[q],
                        forall|q: int|
                            argc <= q < ml ==> stack.cur_locals()[q] == mid.cur_locals()[q],
                    decreases argc - k2,
                {
                    stack.set((argc - 1 - k2) as u16, args[k2]);
                    k2 = k2 + 1;
                }
                proof {
                    assert forall|q: int|
                        0 <= q < argc implies stack.cur_locals()[q] == pre.cur_stack()[
                        pre.cur_stack().len() - argc + q
                    ] by {
                        assert(stack.cur_locals()[q] == args@[argc - 1 - q]);
                    }
                    assert forall|q: int|
                        argc <= q < ml implies stack.cur_locals()[q] == (Value { bits: 0 }) by {
                        assert(mid.cur_locals()[q] == Seq::new(
                            ml as nat,
                            |j: int| Value { bits: 0 },
                        )[q]);
                    }
                    assert(java_call_rel(
                        pre,
                        *stack,
                        ci as int,
                        mi as int,
                        ml as int,
                        ms as int,
                        argc as int,
                        Ok::<(), VmError>(()),
                    ));
                }
                Ok(())
            },
        }
    }

    /// Executes one frame-local instruction: the exec counterpart of
    /// `pure_step`, exact per opcode and per outcome.
    #[verifier::rlimit(100)]
    #[verifier::spinoff_prover]
    fn step_frame_insn(stack: &mut Stack, insn: Instruction) -> (r: Result<(), VmError>)
        requires
            old(stack).wf(),
            old(stack).depth() >= 1,
            old(stack).cur_frame().pc < usize::MAX,
            pure_insn(insn),
        ensures
            final(stack).wf(),
            final(stack).depth() == old(stack).depth(),
            final(stack).capacity() == old(stack).capacity(),
            Stack::frames_preserved(*old(stack), *final(stack), old(stack).depth() - 1),
            match r {
                Ok(()) => pure_step(*old(stack), *final(stack), insn, StepOut::Continue),
                Err(e) => pure_step(*old(stack), *final(stack), insn, StepOut::Failed(e)),
            },
    {
        let f = stack.current();
        let pc = f.pc;
        match insn {
            Instruction::Nop => {
                stack.set_pc(pc + 1);
                Ok(())
            },
            Instruction::AconstNull => {
                push_value(stack, Value::null())?;
                stack.set_pc(pc + 1);
                Ok(())
            },
            Instruction::Ipush(x) => {
                push_value(stack, Value::nint(x as i32))?;
                stack.set_pc(pc + 1);
                Ok(())
            },
            Instruction::Lpush(x) => {
                push_value(stack, Value::nlong(x as i64))?;
                stack.set_pc(pc + 1);
                Ok(())
            },
            Instruction::Iload(x) | Instruction::Lload(x) | Instruction::Fload(x)
                | Instruction::Dload(x) | Instruction::Aload(x) => {
                let v = local_get(stack, x)?;
                push_value(stack, v)?;
                stack.set_pc(pc + 1);
                Ok(())
            },
            Instruction::Istore(x) | Instruction::Lstore(x) | Instruction::Fstore(x)
                | Instruction::Dstore(x) | Instruction::Astore(x) => {
                let v = pop_value(stack)?;
                local_set(stack, x, v)?;
                stack.set_pc(pc + 1);
                Ok(())
            },
            Instruction::Pop => {
                pop_value(stack)?;
                stack.set_pc(pc + 1);
                Ok(())
            },
            Instruction::Pop2 => {
                pop_value(stack)?;
                pop_value(stack)?;
                stack.set_pc(pc + 1);
                Ok(())
            },
            Instruction::Dup => {
                let v = pop_value(stack)?;
                push_value(stack, v)?;
                match push_value(stack, v) {
                    Ok(()) => {},
                    Err(e) => {
                        proof {
                            assert(stack.cur_stack() =~= old(stack).cur_stack());
                        }
                        return Err(e);
                    },
                }
                proof {
                    assert(stack.cur_stack() =~= popped(*old(stack), 1) + seq![v, v]);
                }
                stack.set_pc(pc + 1);
                Ok(())
            },
            Instruction::Swap => {
                let a = pop_value(stack)?;
                let b = pop_value(stack)?;
                push_value(stack, a)?;
                push_value(stack, b)?;
                proof {
                    assert(stack.cur_stack() =~= popped(*old(stack), 2) + seq![
                        old(stack).cur_stack()[old(stack).cur_stack().len() - 1],
                        old(stack).cur_stack()[old(stack).cur_stack().len() - 2],
                    ]);
                }
                stack.set_pc(pc + 1);
                Ok(())
            },
            Instruction::Iadd => {
                let v2 = pop_value(stack)?;
                let v1 = pop_value(stack)?;
                push_value(stack, Value::nint(arith::jint_add(v1.as_int(), v2.as_int())))?;
                stack.set_pc(pc + 1);
                Ok(())
            },
            Instruction::Isub => {
                let v2 = pop_value(stack)?;
                let v1 = pop_value(stack)?;
                push_value(stack, Value::nint(arith::jint_sub(v1.as_int(), v2.as_int())))?;
                stack.set_pc(pc + 1);
                Ok(())
            },
            Instruction::Imul => {
                let v2 = pop_value(stack)?;
                let v1 = pop_value(stack)?;
                push_value(stack, Value::nint(arith::jint_mul(v1.as_int(), v2.as_int())))?;
                stack.set_pc(pc + 1);
                Ok(())
            },
            Instruction::Idiv => {
                let v2 = pop_value(stack)?;
                let v1 = pop_value(stack)?;
                let q = arith::jint_div(v1.as_int(), v2.as_int())?;
                push_value(stack, Value::nint(q))?;
                stack.set_pc(pc + 1);
                Ok(())
            },
            Instruction::Irem => {
                let v2 = pop_value(stack)?;
                let v1 = pop_value(stack)?;
                let m = arith::jint_rem(v1.as_int(), v2.as_int())?;
                push_value(stack, Value::nint(m))?;
                stack.set_pc(pc + 1);
                Ok(())
            },
            Instruction::Ineg => {
                let v = pop_value(stack)?;
                push_value(stack, Value::nint(arith::jint_neg(v.as_int())))?;
                stack.set_pc(pc + 1);
                Ok(())
            },
            Instruction::Ladd => {
                let v2 = pop_value(stack)?;
                let v1 = pop_value(stack)?;
                push_value(stack, Value::nlong(arith::jlong_add(v1.as_long(), v2.as_long())))?;
                stack.set_pc(pc + 1);
                Ok(())
            },
            Instruction::Lsub => {
                let v2 = pop_value(stack)?;
                let v1 = pop_value(stack)?;
                push_value(stack, Value::nlong(arith::jlong_sub(v1.as_long(), v2.as_long())))?;
                stack.set_pc(pc + 1);
                Ok(())
            },
            Instruction::Lmul => {
                let v2 = pop_value(stack)?;
                let v1 = pop_value(stack)?;
                push_value(stack, Value::nlong(arith::jlong_mul(v1.as_long(), v2.as_long())))?;
                stack.set_pc(pc + 1);
                Ok(())
            },
            Instruction::Ldiv => {
                let v2 = pop_value(stack)?;
                let v1 = pop_value(stack)?;
                let q = arith::jlong_div(v1.as_long(), v2.as_long())?;
                push_value(stack, Value::nlong(q))?;
                stack.set_pc(pc + 1);
                Ok(())
            },
            Instruction::Lrem => {
                let v2 = pop_value(stack)?;
                let v1 = pop_value(stack)?;
                let m = arith::jlong_rem(v1.as_long(), v2.as_long())?;
                push_value(stack, Value::nlong(m))?;
                stack.set_pc(pc + 1);
                Ok(())
            },
            Instruction::Lneg => {
                let v = pop_value(stack)?;
                push_value(stack, Value::nlong(arith::jlong_neg(v.as_long())))?;
                stack.set_pc(pc + 1);
                Ok(())
            },
            Instruction::Ishl => {
                let v2 = pop_value(stack)?;
                let v1 = pop_value(stack)?;
                push_value(stack, arith::vint_shl(v1, v2))?;
                stack.set_pc(pc + 1);
                Ok(())
            },
            Instruction::Ishr => {
                let v2 = pop_value(stack)?;
                let v1 = pop_value(stack)?;
                push_value(stack, arith::vint_shr(v1, v2))?;
                stack.set_pc(pc + 1);
                Ok(())
            },
            Instruction::Iushr => {
                let v2 = pop_value(stack)?;
                let v1 = pop_value(stack)?;
                push_value(stack, arith::vint_ushr(v1, v2))?;
                stack.set_pc(pc + 1);
                Ok(())
            },
            Instruction::Lshl => {
                let v2 = pop_value(stack)?;
                let v1 = pop_value(stack)?;
                push_value(stack, arith::vlong_shl(v1, v2))?;
                stack.set_pc(pc + 1);
                Ok(())
            },
            Instruction::Lshr => {
                let v2 = pop_value(stack)?;
                let v1 = pop_value(stack)?;
                push_value(stack, arith::vlong_shr(v1, v2))?;
                stack.set_pc(pc + 1);
                Ok(())
            },
            Instruction::Lushr => {
                let v2 = pop_value(stack)?;
                let v1 = pop_value(stack)?;
                push_value(stack, arith::vlong_ushr(v1, v2))?;
                stack.set_pc(pc + 1);
                Ok(())
            },
            Instruction::Iand => {
                let v2 = pop_value(stack)?;
                let v1 = pop_value(stack)?;
                push_value(stack, arith::vint_and(v1, v2))?;
                stack.set_pc(pc + 1);
                Ok(())
            },
            Instruction::Ior => {
                let v2 = pop_value(stack)?;
                let v1 = pop_value(stack)?;
                push_value(stack, arith::vint_or(v1, v2))?;
                stack.set_pc(pc + 1);
                Ok(())
            },
            Instruction::Ixor => {
                let v2 = pop_value(stack)?;
                let v1 = pop_value(stack)?;
                push_value(stack, arith::vint_xor(v1, v2))?;
                stack.set_pc(pc + 1);
                Ok(())
            },
            Instruction::Land => {
                let v2 = pop_value(stack)?;
                let v1 = pop_value(stack)?;
                push_value(stack, arith::vlong_and(v1, v2))?;
                stack.set_pc(pc + 1);
                Ok(())
            },
            Instruction::Lor => {
                let v2 = pop_value(stack)?;
                let v1 = pop_value(stack)?;
                push_value(stack, arith::vlong_or(v1, v2))?;
                stack.set_pc(pc + 1);
                Ok(())
            },
            Instruction::Lxor => {
                let v2 = pop_value(stack)?;
                let v1 = pop_value(stack)?;
                push_value(stack, arith::vlong_xor(v1, v2))?;
                stack.set_pc(pc + 1);
                Ok(())
            },
            Instruction::Iinc(idx, c) => {
                proof {
                    crate::things::lemma_int_round_trip(c as int);
                }
                let v = local_get(stack, idx)?;
                local_set(stack, idx, Value::nint(arith::jint_add(v.as_int(), c as i32)))?;
                stack.set_pc(pc + 1);
                Ok(())
            },
            Instruction::I2l => {
                let v = pop_value(stack)?;
                push_value(stack, arith::v_i2l(v))?;
                stack.set_pc(pc + 1);
                Ok(())
            },
            Instruction::L2i => {
                let v = pop_value(stack)?;
                push_value(stack, arith::v_l2i(v))?;
                stack.set_pc(pc + 1);
                Ok(())
            },
            Instruction::I2b => {
                let v = pop_value(stack)?;
                push_value(stack, arith::v_i2b(v))?;
                stack.set_pc(pc + 1);
                Ok(())
            },
            Instruction::I2c => {
                let v = pop_value(stack)?;
                push_value(stack, arith::v_i2c(v))?;
                stack.set_pc(pc + 1);
                Ok(())
            },
            Instruction::I2s => {
                let v = pop_value(stack)?;
                push_value(stack, arith::v_i2s(v))?;
                stack.set_pc(pc + 1);
                Ok(())
            },
            Instruction::Lcmp => {
                let v2 = pop_value(stack)?;
                let v1 = pop_value(stack)?;
                push_value(stack, Value::nint(arith::jlong_cmp(v1.as_long(), v2.as_long())))?;
                stack.set_pc(pc + 1);
                Ok(())
            },
            Instruction::Ifeq(t) => {
                let v = pop_value(stack)?;
                if v.as_int() == 0 {
                    stack.set_pc(t as usize);
                } else {
                    stack.set_pc(pc + 1);
                }
                Ok(())
            },
            Instruction::Ifne(t) => {
                let v = pop_value(stack)?;
                if v.as_int() != 0 {
                    stack.set_pc(t as usize);
                } else {
                    stack.set_pc(pc + 1);
                }
                Ok(())
            },
            Instruction::Iflt(t) => {
                let v = pop_value(stack)?;
                if v.as_int() < 0 {
                    stack.set_pc(t as usize);
                } else {
                    stack.set_pc(pc + 1);
                }
                Ok(())
            },
            Instruction::Ifge(t) => {
                let v = pop_value(stack)?;
                if v.as_int() >= 0 {
                    stack.set_pc(t as usize);
                } else {
                    stack.set_pc(pc + 1);
                }
                Ok(())
            },
            Instruction::Ifgt(t) => {
                let v = pop_value(stack)?;
                if v.as_int() > 0 {
                    stack.set_pc(t as usize);
                } else {
                    stack.set_pc(pc + 1);
                }
                Ok(())
            },
            Instruction::Ifle(t) => {
                let v = pop_value(stack)?;
                if v.as_int() <= 0 {
                    stack.set_pc(t as usize);
                } else {
                    stack.set_pc(pc + 1);
                }
                Ok(())
            },
            Instruction::IfIcmpeq(t) => {
                let v2 = pop_value(stack)?;
                let v1 = pop_value(stack)?;
                if v1.as_int() == v2.as_int() {
                    stack.set_pc(t as usize);
                } else {
                    stack.set_pc(pc + 1);
                }
                Ok(())
            },
            Instruction::IfIcmpne(t) => {
                let v2 = pop_value(stack)?;
                let v1 = pop_value(stack)?;
                if v1.as_int() != v2.as_int() {
                    stack.set_pc(t as usize);
                } else {
                    stack.set_pc(pc + 1);
                }
                Ok(())
            },
            Instruction::IfIcmplt(t) => {
                let v2 = pop_value(stack)?;
                let v1 = pop_value(stack)?;
                if v1.as_int() < v2.as_int() {
                    stack.set_pc(t as usize);
                } else {
                    stack.set_pc(pc + 1);
                }
                Ok(())
            },
            Instruction::IfIcmpge(t) => {
                let v2 = pop_value(stack)?;
                let v1 = pop_value(stack)?;
                if v1.as_int() >= v2.as_int() {
                    stack.set_pc(t as usize);
                } else {
                    stack.set_pc(pc + 1);
                }
                Ok(())
            },
            Instruction::IfIcmpgt(t) => {
                let v2 = pop_value(stack)?;
                let v1 = pop_value(stack)?;
                if v1.as_int() > v2.as_int() {
                    stack.set_pc(t as usize);
                } else {
                    stack.set_pc(pc + 1);
                }
                Ok(())
            },
            Instruction::IfIcmple(t) => {
                let v2 = pop_value(stack)?;
                let v1 = pop_value(stack)?;
                if v1.as_int() <= v2.as_int() {
                    stack.set_pc(t as usize);
                } else {
                    stack.set_pc(pc + 1);
                }
                Ok(())
            },
            Instruction::IfAcmpeq(t) => {
                let v2 = pop_value(stack)?;
                let v1 = pop_value(stack)?;
                if v1.bits == v2.bits {
                    stack.set_pc(t as usize);
                } else {
                    stack.set_pc(pc + 1);
                }
                Ok(())
            },
            Instruction::IfAcmpne(t) => {
                let v2 = pop_value(stack)?;
                let v1 = pop_value(stack)?;
                if v1.bits != v2.bits {
                    stack.set_pc(t as usize);
                } else {
                    stack.set_pc(pc + 1);
                }
                Ok(())
            },
            Instruction::Goto(t) => {
                stack.set_pc(t as usize);
                Ok(())
            },
            _ => {
                proof {
                    assert(false);
                }
                Err(VmError::ClassFormat)
            },
        }
    }

    /// Executes one `getstatic`: the exec counterpart of
    /// `getstatic_step`.
    #[verifier::rlimit(100)]
    #[verifier::spinoff_prover]
    fn step_getstatic(&mut self, stack: &mut Stack, n: u16) -> (r: Result<(), VmError>)
        requires
            old(self).wf(),
            old(stack).wf(),
            old(stack).depth() >= 1,
            old(stack).cur_frame().pc < usize::MAX,
        ensures
            final(self).wf(),
            final(stack).wf(),
            final(stack).depth() == old(stack).depth(),
            final(stack).capacity() == old(stack).capacity(),
            Stack::frames_preserved(*old(stack), *final(stack), old(stack).depth() - 1),
            final(self).classes@.len() >= old(self).classes@.len(),
            match r {
                Ok(()) => getstatic_step(
                    *old(self),
                    *old(stack),
                    *final(self),
                    *final(stack),
                    n as int,
                    StepOut::Continue,
                ),
                Err(e) => getstatic_step(
                    *old(self),
                    *old(stack),
                    *final(self),
                    *final(stack),
                    n as int,
                    StepOut::Failed(e),
                ),
            },
    {
        let f = stack.current();
        let (cn, fnm, _d) = match self.fieldref_of(f.class, n) {
            Ok(t) => t,
            Err(e) => {
                return Err(e);
            },
        };
        let ghost cnv = cn@;
        let ghost tq = spec_fieldref_of(*old(self), f.class as int, n as int)->Ok_0;
        proof {
            assert(tq.0 == cnv);
        }
        let lf = self.images.len();
        let ci = match self.load(cn, lf) {
            Ok(c) => c,
            Err(e) => {
                proof {
                    assert(load_rel(*old(self), *self, tq.0, Err::<usize, VmError>(e)));
                }
                return Err(e);
            },
        };
        proof {
            assert(load_rel(*old(self), *self, tq.0, Ok::<usize, VmError>(ci)));
        }
        let v = match self.classes[ci].get_static(&fnm) {
            Some(v) => v,
            None => {
                return Err(VmError::MemberNotFound);
            },
        };
        push_value(stack, v)?;
        stack.set_pc(f.pc + 1);
        Ok(())
    }

    /// Executes one `putstatic`: the exec counterpart of
    /// `putstatic_step`.
    #[verifier::rlimit(100)]
    #[verifier::spinoff_prover]
    fn step_putstatic(&mut self, stack: &mut Stack, n: u16) -> (r: Result<(), VmError>)
        requires
            old(self).wf(),
            old(stack).wf(),
            old(stack).depth() >= 1,
            old(stack).cur_frame().pc < usize::MAX,
        ensures
            final(self).wf(),
            final(stack).wf(),
            final(stack).depth() == old(stack).depth(),
            final(stack).capacity() == old(stack).capacity(),
            Stack::frames_preserved(*old(stack), *final(stack), old(stack).depth() - 1),
            final(self).classes@.len() >= old(self).classes@.len(),
            match r {
                Ok(()) => putstatic_step(
                    *old(self),
                    *old(stack),
                    *final(self),
                    *final(stack),
                    n as int,
                    StepOut::Continue,
                ),
                Err(e) => putstatic_step(
                    *old(self),
                    *old(stack),
                    *final(self),
                    *final(stack),
                    n as int,
                    StepOut::Failed(e),
                ),
            },
    {
        let f = stack.current();
        let (cn, fnm, _d) = match self.fieldref_of(f.class, n) {
            Ok(t) => t,
            Err(e) => {
                return Err(e);
            },
        };
        let ghost cnv = cn@;
        let ghost tq = spec_fieldref_of(*old(self), f.class as int, n as int)->Ok_0;
        proof {
            assert(tq.0 == cnv);
        }
        let lf = self.images.len();
        let ci = match self.load(cn, lf) {
            Ok(c) => c,
            Err(e) => {
                proof {
                    assert(load_rel(*old(self), *self, tq.0, Err::<usize, VmError>(e)));
                }
                return Err(e);
            },
        };
        let ghost mid = *self;
        proof {
            assert(load_rel(*old(self), mid, tq.0, Ok::<usize, VmError>(ci)));
        }
        let v = match pop_value(stack) {
            Ok(v) => v,
            Err(e) => {
                return Err(e);
            },
        };
        let cls = &mut self.classes[ci];
        match cls.set_static(&fnm, v) {
            Ok(()) => {},
            Err(e) => {
                proof {
                    assert(self.classes@ =~= mid.classes@);
                    assert(self.heap == mid.heap);
                    assert(self.wf());
                }
                return Err(e);
            },
        }
        proof {
            assert(self.classes@ =~= mid.classes@.update(ci as int, self.classes@[ci as int]));
            assert(self.classes@[ci as int].spec_name() == mid.classes@[ci as int].spec_name());
            assert forall|a: int, b: int|
                0 <= a < b < self.classes@.len() implies (#[trigger] self.classes@[a]).spec_name()
                != (#[trigger] self.classes@[b]).spec_name() by {
                assert(self.classes@[a].spec_name() == mid.classes@[a].spec_name());
                assert(self.classes@[b].spec_name() == mid.classes@[b].spec_name());
            }
            assert(self.wf());
        }
        stack.set_pc(f.pc + 1);
        Ok(())
    }

    /// Executes one `getfield`: the exec counterpart of `getfield_step`.
    #[verifier::rlimit(100)]
    #[verifier::spinoff_prover]
    fn step_getfield(&mut self, stack: &mut Stack, n: u16) -> (r: Result<(), VmError>)
        requires
            old(self).wf(),
            old(stack).wf(),
            old(stack).depth() >= 1,
            old(stack).cur_frame().pc < usize::MAX,
        ensures
            final(self).wf(),
            final(stack).wf(),
            final(stack).depth() == old(stack).depth(),
            final(stack).capacity() == old(stack).capacity(),
            Stack::frames_preserved(*old(stack), *final(stack), old(stack).depth() - 1),
            final(self).classes@.len() >= old(self).classes@.len(),
            match r {
                Ok(()) => getfield_step(
                    *old(self),
                    *old(stack),
                    *final(self),
                    *final(stack),
                    n as int,
                    StepOut::Continue,
                ),
                Err(e) => getfield_step(
                    *old(self),
                    *old(stack),
                    *final(self),
                    *final(stack),
                    n as int,
                    StepOut::Failed(e),
                ),
            },
    {
        let f = stack.current();
        let (cn, fnm, _d) = match self.fieldref_of(f.class, n) {
            Ok(t) => t,
            Err(e) => {
                return Err(e);
            },
        };
        let ghost cnv = cn@;
        let ghost tq = spec_fieldref_of(*old(self), f.class as int, n as int)->Ok_0;
        proof {
            assert(tq.0 == cnv);
        }
        let lf = self.images.len();
        let ci = match self.load(cn, lf) {
            Ok(c) => c,
            Err(e) => {
                proof {
                    assert(load_rel(*old(self), *self, tq.0, Err::<usize, VmError>(e)));
                }
                return Err(e);
            },
        };
        proof {
            assert(load_rel(*old(self), *self, tq.0, Ok::<usize, VmError>(ci)));
        }
        let objv = pop_value(stack)?;
        let robj = match objv.to_object() {
            Some(r) => r,
            None => {
                return Err(VmError::NullReference);
            },
        };
        if !self.heap.find_object(&self.layouts, robj) {
            return Err(VmError::NullReference);
        }
        let off = match self.classes[ci].get_instance_field(&fnm) {
            Some((o, _)) => o,
            None => {
                return Err(VmError::MemberNotFound);
            },
        };
        let rc = self.heap.read_class(&self.layouts, robj);
        if off >= self.layouts[rc].is_ref.len() {
            return Err(VmError::MemberNotFound);
        }
        let v = self.heap.get_field(&self.layouts, robj, off);
        push_value(stack, v)?;
        stack.set_pc(f.pc + 1);
        Ok(())
    }

    /// Executes one `putfield`: the exec counterpart of `putfield_step`.
    #[verifier::rlimit(100)]
    #[verifier::spinoff_prover]
    fn step_putfield(&mut self, stack: &mut Stack, n: u16) -> (r: Result<(), VmError>)
        requires
            old(self).wf(),
            old(stack).wf(),
            old(stack).depth() >= 1,
            old(stack).cur_frame().pc < usize::MAX,
        ensures
            final(self).wf(),
            final(stack).wf(),
            final(stack).depth() == old(stack).depth(),
            final(stack).capacity() == old(stack).capacity(),
            Stack::frames_preserved(*old(stack), *final(stack), old(stack).depth() - 1),
            final(self).classes@.len() >= old(self).classes@.len(),
            match r {
                Ok(()) => putfield_step(
                    *old(self),
                    *old(stack),
                    *final(self),
                    *final(stack),
                    n as int,
                    StepOut::Continue,
                ),
                Err(e) => putfield_step(
                    *old(self),
                    *old(stack),
                    *final(self),
                    *final(stack),
                    n as int,
                    StepOut::Failed(e),
                ),
            },
    {
        let f = stack.current();
        let (cn, fnm, _d) = match self.fieldref_of(f.class, n) {
            Ok(t) => t,
            Err(e) => {
                return Err(e);
            },
        };
        let ghost cnv = cn@;
        let ghost tq = spec_fieldref_of(*old(self), f.class as int, n as int)->Ok_0;
        proof {
            assert(tq.0 == cnv);
        }
        let lf = self.images.len();
        let ci = match self.load(cn, lf) {
            Ok(c) => c,
            Err(e) => {
                proof {
                    assert(load_rel(*old(self), *self, tq.0, Err::<usize, VmError>(e)));
                }
                return Err(e);
            },
        };
        let ghost mid = *self;
        proof {
            assert(load_rel(*old(self), mid, tq.0, Ok::<usize, VmError>(ci)));
        }
        let v = pop_value(stack)?;
        let objv = pop_value(stack)?;
        let robj = match objv.to_object() {
            Some(r) => r,
            None => {
                return Err(VmError::NullReference);
            },
        };
        if !self.heap.find_object(&self.layouts, robj) {
            return Err(VmError::NullReference);
        }
        let off = match self.classes[ci].get_instance_field(&fnm) {
            Some((o, _)) => o,
            None => {
                return Err(VmError::MemberNotFound);
            },
        };
        let rc = self.heap.read_class(&self.layouts, robj);
        if off >= self.layouts[rc].is_ref.len() {
            return Err(VmError::MemberNotFound);
        }
        self.heap.set_field(&self.layouts, robj, off, v);
        stack.set_pc(f.pc + 1);
        Ok(())
    }

    /// Executes the single instruction at the current frame's counter:
    /// one step of the small-step relation `step_rel`, relative to the
    /// entry depth.
    #[verifier::rlimit(100)]
    #[verifier::spinoff_prover]
    fn step(&mut self, stack: &mut Stack, entry_depth: usize) -> (r: Result<StepExit, VmError>)
        requires
            old(self).wf(),
            old(stack).wf(),
            old(stack).depth() >= entry_depth,
            entry_depth >= 1,
        ensures
            final(self).wf(),
            final(stack).wf(),
            final(stack).capacity() == old(stack).capacity(),
            final(self).classes@.len() >= old(self).classes@.len(),
            Stack::frames_preserved(*old(stack), *final(stack), entry_depth - 1),
            match r {
                Ok(StepExit::Cont) => final(stack).depth() >= entry_depth && step_rel(
                    *old(self),
                    *old(stack),
                    *final(self),
                    *final(stack),
                    entry_depth as int,
                    StepOut::Continue,
                ),
                Ok(StepExit::Done(v)) => final(stack).depth() == entry_depth - 1 && step_rel(
                    *old(self),
                    *old(stack),
                    *final(self),
                    *final(stack),
                    entry_depth as int,
                    StepOut::Returned(v),
                ),
                Err(e) => final(stack).depth() >= entry_depth - 1 && step_rel(
                    *old(self),
                    *old(stack),
                    *final(self),
                    *final(stack),
                    entry_depth as int,
                    StepOut::Failed(e),
                ),
            },
    {
        let f = stack.current();
        let insn = self.fetch(f.class, f.method, f.pc)?;
        let pc = f.pc;
        match insn {
            Instruction::Ldc(n) => {
                let v = self.constant_value(f.class, n)?;
                push_value(stack, v)?;
                stack.set_pc(pc + 1);
                Ok(StepExit::Cont)
            },
            Instruction::LdcW(n) => {
                let v = self.constant_value(f.class, n)?;
                push_value(stack, v)?;
                stack.set_pc(pc + 1);
                Ok(StepExit::Cont)
            },
            Instruction::Ldc2W(n) => {
                let v = self.constant_value2(f.class, n)?;
                push_value(stack, v)?;
                stack.set_pc(pc + 1);
                Ok(StepExit::Cont)
            },
            Instruction::Getstatic(n) => {
                self.step_getstatic(stack, n)?;
                Ok(StepExit::Cont)
            },
            Instruction::Putstatic(n) => {
                self.step_putstatic(stack, n)?;
                Ok(StepExit::Cont)
            },
            Instruction::Getfield(n) => {
                self.step_getfield(stack, n)?;
                Ok(StepExit::Cont)
            },
            Instruction::Putfield(n) => {
                self.step_putfield(stack, n)?;
                Ok(StepExit::Cont)
            },
            Instruction::Invokevirtual(n) | Instruction::Invokespecial(n)
                | Instruction::Invokestatic(n) | Instruction::Invokeinterface(n)
                | Instruction::Invokedynamic(n) => {
                // Invokedynamic is not resolved via a bootstrap method:
                // it is treated as a plain invocation, an explicit
                // non-goal.
                stack.set_pc(pc + 1);
                let ghost mid_st = *stack;
                proof {
                    assert(advanced_pc(*old(stack), mid_st));
                }
                match self.do_invoke(stack, f.class, n) {
                    Ok(()) => Ok(StepExit::Cont),
                    Err(e) => Err(e),
                }
            },
            Instruction::Ireturn | Instruction::Lreturn | Instruction::Freturn
                | Instruction::Dreturn | Instruction::Areturn => {
                let v = pop_value(stack)?;
                stack.ret();
                if stack.frame_count() < entry_depth {
                    return Ok(StepExit::Done(Some(v)));
                }
                push_value(stack, v)?;
                Ok(StepExit::Cont)
            },
            Instruction::Return => {
                stack.ret();
                if stack.frame_count() < entry_depth {
                    return Ok(StepExit::Done(None));
                }
                Ok(StepExit::Cont)
            },
            Instruction::Unsupported(op) => Err(VmError::Unimplemented(op)),
            _ => {
                Runtime::step_frame_insn(stack, insn)?;
                Ok(StepExit::Cont)
            },
        }
    }

    /// The fetch-decode-execute loop: runs the method of the current
    /// frame until it returns or a fatal condition ends the run, one
    /// instruction per step of the explicit step budget.  What the run
    /// did is stated by `execute_post`: a trace of small steps, each per
    /// `step_rel`, leads from the entry state to the reported result.
    ///
    /// An invocation pushes a frame and the same loop continues in the
    /// callee; a return pops back.  Every frame beneath the entry frame
    /// is left exactly as it was (the frame-isolation guarantee), and
    /// on a normal return the entry frame itself has been discarded.
    #[verifier::rlimit(100)]
    #[verifier::spinoff_prover]
    pub fn execute(&mut self, stack: &mut Stack, fuel: u64) -> (r: Result<Option<Value>, VmError>)
        requires
            old(self).wf(),
            old(stack).wf(),
            old(stack).depth() >= 1,
        ensures
            final(self).wf(),
            final(stack).wf(),
            final(stack).capacity() == old(stack).capacity(),
            Stack::frames_preserved(*old(stack), *final(stack), old(stack).depth() - 1),
            final(stack).depth() >= old(stack).depth() - 1,
            r is Ok ==> final(stack).depth() == old(stack).depth() - 1,
            exists|tr: Seq<(Runtime, Stack)>| #[trigger] execute_post(
                *old(self),
                *old(stack),
                *final(self),
                *final(stack),
                fuel as int,
                r,
                tr,
            ),
    {
        let entry_depth = stack.frame_count();
        let mut gas = fuel;
        let ghost mut tr: Seq<(Runtime, Stack)> = seq![(*self, *stack)];
        loop
            invariant
                self.wf(),
                stack.wf(),
                stack.depth() >= entry_depth,
                entry_depth == old(stack).depth(),
                entry_depth >= 1,
                stack.capacity() == old(stack).capacity(),
                Stack::frames_preserved(*old(stack), *stack, entry_depth - 1),
                gas <= fuel,
                tr.len() == fuel - gas + 1,
                tr[0] == (*old(self), *old(stack)),
                tr.last() == (*self, *stack),
                is_trace(tr, entry_depth as int),
            decreases gas,
        {
            if gas == 0 {
                proof {
                    assert(execute_post(
                        *old(self),
                        *old(stack),
                        *self,
                        *stack,
                        fuel as int,
                        Err::<Option<Value>, VmError>(VmError::OutOfFuel),
                        tr,
                    ));
                }
                return Err(VmError::OutOfFuel);
            }
            gas = gas - 1;
            let ghost pre_rt = *self;
            let ghost pre_st = *stack;
            let res = self.step(stack, entry_depth);
            match res {
                Ok(StepExit::Cont) => {
                    proof {
                        let prev = tr;
                        tr = tr.push((*self, *stack));
                        assert forall|i: int|
                            0 <= i < tr.len() - 1 implies step_rel(
                            (#[trigger] tr[i]).0,
                            tr[i].1,
                            tr[i + 1].0,
                            tr[i + 1].1,
                            entry_depth as int,
                            StepOut::Continue,
                        ) by {
                            if i < prev.len() - 1 {
                                assert(tr[i] == prev[i]);
                                assert(tr[i + 1] == prev[i + 1]);
                            } else {
                                assert(tr[i] == (pre_rt, pre_st));
                                assert(tr[i + 1] == (*self, *stack));
                            }
                        }
                    }
                },
                Ok(StepExit::Done(v)) => {
                    proof {
                        assert(execute_post(
                            *old(self),
                            *old(stack),
                            *self,
                            *stack,
                            fuel as int,
                            Ok::<Option<Value>, VmError>(v),
                            tr,
                        ));
                    }
                    return Ok(v);
                },
                Err(e) => {
                    proof {
                        assert(execute_post(
                            *old(self),
                            *old(stack),
                            *self,
                            *stack,
                            fuel as int,
                            Err::<Option<Value>, VmError>(e),
                            tr,
                        ));
                    }
                    return Err(e);
                },
            }
        }
    }

    /// Builds the runtime: an empty class table filled with the
    /// built-in classes, the heap, the given class-file images, and the
    /// main class parsed and installed from its own image bytes.
    pub fn new(main_image: Vec<u8>, images: Vec<(String, Vec<u8>)>) -> (r: Result<Runtime, VmError>)
        ensures
            r matches Ok(rt) ==> {
                &&& rt.wf()
                &&& rt.main_class < rt.classes@.len()
                &&& rt.images == images
                &&& rt.heap.ceiling == HEAP_CEILING
                &&& rt.heap.min_chunk == HEAP_MIN_CHUNK
                &&& rt.heap.chunks@.len() == 0
                &&& ({
                    let cls = rt.classes@[rt.main_class as int];
                    &&& forall|p: int|
                        0 <= p < cls.spec_instance_fields().len() ==> (
                        #[trigger] cls.spec_instance_fields()[p]).offset == p
                    &&& forall|p: int, q: int|
                        0 <= p < q < cls.spec_instance_fields().len() ==> crate::class::chars_le(
                            cls.spec_instance_fields()[p].name@,
                            cls.spec_instance_fields()[q].name@,
                        )
                })
            },
    {
        let mut rt = Runtime {
            classes: Vec::new(),
            layouts: Vec::new(),
            images,
            heap: Heap::new(HEAP_CEILING, HEAP_MIN_CHUNK),
            main_class: 0,
        };
        crate::base_classes::base_classes(&mut rt)?;
        let mut reader = ClassReader::new(main_image);
        let cf = reader.read_class()?;
        let lf = rt.images.len();
        let idx = rt.from_classfile(cf, lf)?;
        rt.main_class = idx;
        Ok(rt)
    }

    /// Locates and runs the main entry point: `main` is looked up by
    /// trying, in order, `static void main(String[])`, `static int
    /// main()` and `static long main()`, and executed on a fresh call
    /// stack; the member-not-found condition is reported exactly when
    /// none of the three descriptors resolves.  On a run, the whole
    /// execution is stated by `execute_post` from the entry state: one
    /// zeroed frame of the chosen method at the base of an empty region.
    #[verifier::rlimit(100)]
    #[verifier::spinoff_prover]
    pub fn run_main(&mut self) -> (r: Result<Option<Value>, VmError>)
        requires
            old(self).wf(),
            old(self).main_class < old(self).classes@.len(),
        ensures
            final(self).wf(),
            ({
                let cls = old(self).classes@[old(self).main_class as int];
                match main_method_idx(cls) {
                    None => r == Err::<Option<Value>, VmError>(VmError::MemberNotFound)
                        && *final(self) == *old(self),
                    Some(mi) => match cls.spec_methods()[mi] {
                        Method::Native(_) => r == Err::<Option<Value>, VmError>(
                            VmError::ClassFormat,
                        ) && *final(self) == *old(self),
                        Method::Java(jm) => match jm.code {
                            None => r == Err::<Option<Value>, VmError>(
                                VmError::AbstractMethodCall,
                            ) && *final(self) == *old(self),
                            Some(c) => {
                                ||| (r == Err::<Option<Value>, VmError>(VmError::StackOverflow)
                                    && c.max_locals + c.max_stack > STACK_SLOTS && *final(self)
                                    == *old(self))
                                ||| (exists|st0: Stack, st1: Stack, tr: Seq<(Runtime, Stack)>|
                                    {
                                        &&& #[trigger] main_entry_frame(
                                            st0,
                                            old(self).main_class as int,
                                            mi,
                                            c.max_locals as int,
                                            c.max_stack as int,
                                        )
                                        &&& #[trigger] execute_post(
                                            *old(self),
                                            st0,
                                            *final(self),
                                            st1,
                                            0xffff_ffff_ffff_ffff,
                                            r,
                                            tr,
                                        )
                                    })
                            },
                        },
                    },
                }
            }),
    {
        let mc = self.main_class;
        let name = String::from_str("main");
        let d1 = String::from_str("([Ljava/lang/String;)V");
        let d2 = String::from_str("()I");
        let d3 = String::from_str("()J");
        let cls = &self.classes[mc];
        let mi = match cls.get_method(&name, &d1) {
            Some(i) => i,
            None => match cls.get_method(&name, &d2) {
                Some(i) => i,
                None => match cls.get_method(&name, &d3) {
                    Some(i) => i,
                    None => {
                        return Err(VmError::MemberNotFound);
                    },
                },
            },
        };
        proof {
            crate::class::lemma_find_method(cls.spec_methods(), name@, d1@);
            crate::class::lemma_find_method(cls.spec_methods(), name@, d2@);
            crate::class::lemma_find_method(cls.spec_methods(), name@, d3@);
            assert(main_method_idx(*cls) == Some(mi as int));
        }
        let methods = cls.methods();
        let (ml, ms) = match &methods[mi] {
            Method::Java(jm) => match &jm.code {
                Some(c) => (c.max_locals, c.max_stack),
                None => {
                    return Err(VmError::AbstractMethodCall);
                },
            },
            Method::Native(_) => {
                return Err(VmError::ClassFormat);
            },
        };
        let mut stack = Stack::new(STACK_SLOTS);
        match stack.call(ml, ms, mc, mi) {
            Ok(()) => {},
            Err(e) => {
                return Err(e);
            },
        }
        let ghost st0 = stack;
        proof {
            assert(main_entry_frame(st0, mc as int, mi as int, ml as int, ms as int));
        }
        let r = self.execute(&mut stack, 0xffff_ffff_ffff_ffffu64);
        proof {
            let trc = choose|tr: Seq<(Runtime, Stack)>|
                execute_post(*old(self), st0, *self, stack, 0xffff_ffff_ffff_ffff, r, tr);
            assert(execute_post(*old(self), st0, *self, stack, 0xffff_ffff_ffff_ffff, r, trc));
        }
        r
    }
}

/// What one interpreter step produced: the loop goes on, the entry
/// frame's method returned a value (or none), or a fatal condition ended
/// the run.
pub enum StepOut {
    Continue,
    Returned(Option<Value>),
    Failed(VmError),
}

/// How the interpreter loop leaves one executed instruction: go on, or
/// hand the entry frame's result out.
pub enum StepExit {
    Cont,
    Done(Option<Value>),
}

/// The two stacks have the same frames below the top, and the top frame
/// keeps its place, sizes, class and method: only its operand depth, its
/// counter, and its slots may differ.
pub open spec fn same_top_shape(pre: Stack, post: Stack) -> bool {
    &&& post.wf()
    &&& post.depth() == pre.depth()
    &&& post.capacity() == pre.capacity()
    &&& Stack::frames_preserved(pre, post, pre.depth() - 1)
    &&& post.cur_frame().base == pre.cur_frame().base
    &&& post.cur_frame().max_locals == pre.cur_frame().max_locals
    &&& post.cur_frame().max_stack == pre.cur_frame().max_stack
    &&& post.cur_frame().class == pre.cur_frame().class
    &&& post.cur_frame().method == pre.cur_frame().method
}

/// The current operand stack with its top `k` values popped.
pub open spec fn popped(s: Stack, k: int) -> Seq<Value> {
    s.cur_stack().take(s.cur_stack().len() - k)
}

/// A step that pops `k` operands of the top frame, pushes `outs` in
/// their place and moves the counter to `pc2`; locals and every other
/// frame are untouched.
pub open spec fn frame_op(pre: Stack, post: Stack, k: int, outs: Seq<Value>, pc2: int) -> bool {
    &&& same_top_shape(pre, post)
    &&& pre.cur_stack().len() >= k
    &&& post.cur_stack() == popped(pre, k) + outs
    &&& post.cur_locals() == pre.cur_locals()
    &&& post.cur_frame().pc == pc2
}

/// A step that failed underflowing the operand stack: every available
/// operand was popped before the shortfall surfaced; locals, counter and
/// every other frame are untouched.
pub open spec fn underflowed(pre: Stack, post: Stack, k: int) -> bool {
    &&& same_top_shape(pre, post)
    &&& pre.cur_stack().len() < k
    &&& post.cur_stack().len() == 0
    &&& post.cur_locals() == pre.cur_locals()
    &&& post.cur_frame().pc == pre.cur_frame().pc
}

/// A step that popped the top operand and then failed: locals, counter
/// and every other frame are untouched.
pub open spec fn popped_one(pre: Stack, post: Stack) -> bool {
    &&& same_top_shape(pre, post)
    &&& pre.cur_stack().len() >= 1
    &&& post.cur_stack() == pre.cur_stack().drop_last()
    &&& post.cur_locals() == pre.cur_locals()
    &&& post.cur_frame().pc == pre.cur_frame().pc
}

/// A step that popped the top two operands and then failed.
pub open spec fn popped_two(pre: Stack, post: Stack) -> bool {
    &&& same_top_shape(pre, post)
    &&& pre.cur_stack().len() >= 2
    &&& post.cur_stack() == popped(pre, 2)
    &&& post.cur_locals() == pre.cur_locals()
    &&& post.cur_frame().pc == pre.cur_frame().pc
}

/// Pushing one constant: the step of every constant-push opcode.  It
/// overflows the frame's declared operand depth exactly when the stack
/// is already full, and then changes nothing.
pub open spec fn push_step(pre: Stack, post: Stack, v: Value, out: StepOut) -> bool {
    match out {
        StepOut::Continue => {
            &&& pre.cur_frame().sp < pre.cur_frame().max_stack
            &&& frame_op(pre, post, 0, seq![v], pre.cur_frame().pc + 1)
        },
        StepOut::Failed(e) => {
            &&& e == VmError::OperandStackOverflow
            &&& pre.cur_frame().sp >= pre.cur_frame().max_stack
            &&& post == pre
        },
        StepOut::Returned(_) => false,
    }
}

/// Loading local `x` onto the operand stack.
pub open spec fn load_step(pre: Stack, post: Stack, x: int, out: StepOut) -> bool {
    match out {
        StepOut::Continue => {
            &&& x < pre.cur_frame().max_locals
            &&& pre.cur_frame().sp < pre.cur_frame().max_stack
            &&& frame_op(pre, post, 0, seq![pre.cur_locals()[x]], pre.cur_frame().pc + 1)
        },
        StepOut::Failed(e) => post == pre && ((e == VmError::LocalOutOfBounds && x
            >= pre.cur_frame().max_locals) || (e == VmError::OperandStackOverflow && x
            < pre.cur_frame().max_locals && pre.cur_frame().sp >= pre.cur_frame().max_stack)),
        StepOut::Returned(_) => false,
    }
}

/// Storing the popped top of stack into local `x`.
pub open spec fn store_step(pre: Stack, post: Stack, x: int, out: StepOut) -> bool {
    match out {
        StepOut::Continue => {
            &&& pre.cur_stack().len() >= 1
            &&& x < pre.cur_frame().max_locals
            &&& same_top_shape(pre, post)
            &&& post.cur_stack() == pre.cur_stack().drop_last()
            &&& post.cur_locals() == pre.cur_locals().update(x, pre.cur_stack().last())
            &&& post.cur_frame().pc == pre.cur_frame().pc + 1
        },
        StepOut::Failed(e) => {
            ||| (e == VmError::EmptyOperandStack && pre.cur_frame().sp == 0 && post == pre)
            ||| (e == VmError::LocalOutOfBounds && pre.cur_frame().sp > 0 && x
                >= pre.cur_frame().max_locals && popped_one(pre, post))
        },
        StepOut::Returned(_) => false,
    }
}

/// A binary operation: pop two, push the operator's result; the divisor
/// is unconstrained.
pub open spec fn binop_step(
    pre: Stack,
    post: Stack,
    f: spec_fn(Value, Value) -> Value,
    out: StepOut,
) -> bool {
    match out {
        StepOut::Continue => {
            let s = pre.cur_stack();
            &&& s.len() >= 2
            &&& frame_op(pre, post, 2, seq![f(s[s.len() - 2], s[s.len() - 1])], pre.cur_frame().pc + 1)
        },
        StepOut::Failed(e) => e == VmError::EmptyOperandStack && underflowed(pre, post, 2),
        StepOut::Returned(_) => false,
    }
}

/// A division-family operation: pop two, push the operator's result if
/// the divisor (the top operand) is nonzero, and report the division
/// fatal condition exactly when it is zero.
pub open spec fn divop_step(
    pre: Stack,
    post: Stack,
    f: spec_fn(Value, Value) -> Value,
    zero: spec_fn(Value) -> bool,
    out: StepOut,
) -> bool {
    match out {
        StepOut::Continue => {
            let s = pre.cur_stack();
            &&& s.len() >= 2
            &&& !zero(s[s.len() - 1])
            &&& frame_op(pre, post, 2, seq![f(s[s.len() - 2], s[s.len() - 1])], pre.cur_frame().pc + 1)
        },
        StepOut::Failed(e) => {
            ||| (e == VmError::EmptyOperandStack && underflowed(pre, post, 2))
            ||| (e == VmError::DivisionByZero && pre.cur_stack().len() >= 2 && zero(
                pre.cur_stack().last(),
            ) && popped_two(pre, post))
        },
        StepOut::Returned(_) => false,
    }
}

/// A unary operation: pop one, push the operator's result.
pub open spec fn unop_step(
    pre: Stack,
    post: Stack,
    f: spec_fn(Value) -> Value,
    out: StepOut,
) -> bool {
    match out {
        StepOut::Continue => {
            let s = pre.cur_stack();
            &&& s.len() >= 1
            &&& frame_op(pre, post, 1, seq![f(s.last())], pre.cur_frame().pc + 1)
        },
        StepOut::Failed(e) => e == VmError::EmptyOperandStack && underflowed(pre, post, 1),
        StepOut::Returned(_) => false,
    }
}

/// Duplicating the top of stack.
pub open spec fn dup_step(pre: Stack, post: Stack, out: StepOut) -> bool {
    match out {
        StepOut::Continue => {
            let s = pre.cur_stack();
            &&& s.len() >= 1
            &&& pre.cur_frame().sp < pre.cur_frame().max_stack
            &&& frame_op(pre, post, 1, seq![s.last(), s.last()], pre.cur_frame().pc + 1)
        },
        StepOut::Failed(e) => {
            ||| (e == VmError::EmptyOperandStack && underflowed(pre, post, 1))
            ||| (e == VmError::OperandStackOverflow && pre.cur_stack().len() >= 1
                && pre.cur_frame().sp >= pre.cur_frame().max_stack && same_top_shape(pre, post)
                && post.cur_stack() == pre.cur_stack() && post.cur_locals() == pre.cur_locals()
                && post.cur_frame().pc == pre.cur_frame().pc)
        },
        StepOut::Returned(_) => false,
    }
}

/// Incrementing local `x` by the signed constant `c`, with 32-bit
/// wraparound.
pub open spec fn iinc_step(pre: Stack, post: Stack, x: int, c: int, out: StepOut) -> bool {
    match out {
        StepOut::Continue => {
            &&& x < pre.cur_frame().max_locals
            &&& same_top_shape(pre, post)
            &&& post.cur_stack() == pre.cur_stack()
            &&& post.cur_locals() == pre.cur_locals().update(
                x,
                arith::sv_iadd(pre.cur_locals()[x], (Value { bits: int_bits(c) })),
            )
            &&& post.cur_frame().pc == pre.cur_frame().pc + 1
        },
        StepOut::Failed(e) => e == VmError::LocalOutOfBounds && x >= pre.cur_frame().max_locals
            && post == pre,
        StepOut::Returned(_) => false,
    }
}

/// A one-operand conditional branch: pop the value; the counter moves to
/// the pre-resolved absolute target exactly when the condition holds of
/// it, and falls through otherwise.
pub open spec fn branch1_step(
    pre: Stack,
    post: Stack,
    t: int,
    cond: spec_fn(Value) -> bool,
    out: StepOut,
) -> bool {
    match out {
        StepOut::Continue => {
            let s = pre.cur_stack();
            &&& s.len() >= 1
            &&& same_top_shape(pre, post)
            &&& post.cur_stack() == s.drop_last()
            &&& post.cur_locals() == pre.cur_locals()
            &&& post.cur_frame().pc == (if cond(s.last()) {
                t
            } else {
                pre.cur_frame().pc + 1
            })
        },
        StepOut::Failed(e) => e == VmError::EmptyOperandStack && underflowed(pre, post, 1),
        StepOut::Returned(_) => false,
    }
}

/// A two-operand conditional branch: pop both; the counter moves to the
/// target exactly when the condition holds of them in push order.
pub open spec fn branch2_step(
    pre: Stack,
    post: Stack,
    t: int,
    cond: spec_fn(Value, Value) -> bool,
    out: StepOut,
) -> bool {
    match out {
        StepOut::Continue => {
            let s = pre.cur_stack();
            &&& s.len() >= 2
            &&& same_top_shape(pre, post)
            &&& post.cur_stack() == popped(pre, 2)
            &&& post.cur_locals() == pre.cur_locals()
            &&& post.cur_frame().pc == (if cond(s[s.len() - 2], s[s.len() - 1]) {
                t
            } else {
                pre.cur_frame().pc + 1
            })
        },
        StepOut::Failed(e) => e == VmError::EmptyOperandStack && underflowed(pre, post, 2),
        StepOut::Returned(_) => false,
    }
}

/// The stack after the top frame was discarded, every remaining frame
/// intact.
pub open spec fn popped_frame(pre: Stack, post: Stack) -> bool {
    &&& post.wf()
    &&& post.capacity() == pre.capacity()
    &&& post.depth() == pre.depth() - 1
    &&& Stack::frames_preserved(pre, post, post.depth())
}

/// A typed return: pop the returned value and discard the frame.  At the
/// entry depth the loop ends, yielding exactly the popped value; deeper,
/// the value is pushed onto the caller's operand stack and the loop goes
/// on in the caller.
pub open spec fn vreturn_step(pre: Stack, post: Stack, ed: int, out: StepOut) -> bool {
    match out {
        StepOut::Returned(v) => {
            &&& pre.depth() == ed
            &&& pre.cur_stack().len() >= 1
            &&& v == Some(pre.cur_stack().last())
            &&& popped_frame(pre, post)
        },
        StepOut::Continue => {
            let caller = pre.frame(pre.depth() - 2);
            &&& pre.depth() > ed
            &&& pre.cur_stack().len() >= 1
            &&& caller.sp < caller.max_stack
            &&& post.wf()
            &&& post.capacity() == pre.capacity()
            &&& post.depth() == pre.depth() - 1
            &&& Stack::frames_preserved(pre, post, post.depth() - 1)
            &&& post.cur_frame() == (StackFrame { sp: (caller.sp + 1) as u16, ..caller })
            &&& post.cur_stack() == pre.stack_of(pre.depth() - 2).push(pre.cur_stack().last())
            &&& post.cur_locals() == pre.locals_of(pre.depth() - 2)
        },
        StepOut::Failed(e) => {
            ||| (e == VmError::EmptyOperandStack && pre.cur_frame().sp == 0 && post == pre)
            ||| (e == VmError::OperandStackOverflow && pre.depth() > ed && pre.cur_stack().len()
                >= 1 && pre.frame(pre.depth() - 2).sp >= pre.frame(pre.depth() - 2).max_stack
                && popped_frame(pre, post))
        },
    }
}

/// A void return: discard the frame.  At the entry depth the loop ends
/// with no value; deeper, the loop goes on in the caller.
pub open spec fn retvoid_step(pre: Stack, post: Stack, ed: int, out: StepOut) -> bool {
    match out {
        StepOut::Returned(v) => pre.depth() == ed && v == None::<Value> && popped_frame(pre, post),
        StepOut::Continue => pre.depth() > ed && popped_frame(pre, post),
        StepOut::Failed(_) => false,
    }
}

/// The step of every opcode whose whole effect lies in the current
/// frame: constants, loads, stores, stack shuffles, arithmetic, logic,
/// conversions, comparisons and branches.  Exact per opcode, over the
/// spec-level value operations.
pub open spec fn pure_step(pre: Stack, post: Stack, insn: Instruction, out: StepOut) -> bool {
    match insn {
        Instruction::Nop => out == StepOut::Continue && frame_op(
            pre,
            post,
            0,
            Seq::empty(),
            pre.cur_frame().pc + 1,
        ),
        Instruction::AconstNull => push_step(pre, post, (Value { bits: 0 }), out),
        Instruction::Ipush(x) => push_step(pre, post, (Value { bits: int_bits(x as int) }), out),
        Instruction::Lpush(x) => push_step(pre, post, (Value { bits: long_bits(x as int) }), out),
        Instruction::Iload(x) => load_step(pre, post, x as int, out),
        Instruction::Lload(x) => load_step(pre, post, x as int, out),
        Instruction::Fload(x) => load_step(pre, post, x as int, out),
        Instruction::Dload(x) => load_step(pre, post, x as int, out),
        Instruction::Aload(x) => load_step(pre, post, x as int, out),
        Instruction::Istore(x) => store_step(pre, post, x as int, out),
        Instruction::Lstore(x) => store_step(pre, post, x as int, out),
        Instruction::Fstore(x) => store_step(pre, post, x as int, out),
        Instruction::Dstore(x) => store_step(pre, post, x as int, out),
        Instruction::Astore(x) => store_step(pre, post, x as int, out),
        Instruction::Pop => match out {
            StepOut::Continue => pre.cur_stack().len() >= 1 && frame_op(
                pre,
                post,
                1,
                Seq::empty(),
                pre.cur_frame().pc + 1,
            ),
            StepOut::Failed(e) => e == VmError::EmptyOperandStack && underflowed(pre, post, 1),
            StepOut::Returned(_) => false,
        },
        Instruction::Pop2 => match out {
            StepOut::Continue => pre.cur_stack().len() >= 2 && frame_op(
                pre,
                post,
                2,
                Seq::empty(),
                pre.cur_frame().pc + 1,
            ),
            StepOut::Failed(e) => e == VmError::EmptyOperandStack && underflowed(pre, post, 2),
            StepOut::Returned(_) => false,
        },
        Instruction::Dup => dup_step(pre, post, out),
        Instruction::Swap => match out {
            StepOut::Continue => {
                let s = pre.cur_stack();
                s.len() >= 2 && frame_op(
                    pre,
                    post,
                    2,
                    seq![s[s.len() - 1], s[s.len() - 2]],
                    pre.cur_frame().pc + 1,
                )
            },
            StepOut::Failed(e) => e == VmError::EmptyOperandStack && underflowed(pre, post, 2),
            StepOut::Returned(_) => false,
        },
        Instruction::Iadd => binop_step(pre, post, |a: Value, b: Value| arith::sv_iadd(a, b), out),
        Instruction::Isub => binop_step(pre, post, |a: Value, b: Value| arith::sv_isub(a, b), out),
        Instruction::Imul => binop_step(pre, post, |a: Value, b: Value| arith::sv_imul(a, b), out),
        Instruction::Idiv => divop_step(
            pre,
            post,
            |a: Value, b: Value| arith::sv_idiv(a, b),
            |v: Value| int_val(v.bits) == 0,
            out,
        ),
        Instruction::Irem => divop_step(
            pre,
            post,
            |a: Value, b: Value| arith::sv_irem(a, b),
            |v: Value| int_val(v.bits) == 0,
            out,
        ),
        Instruction::Ineg => unop_step(pre, post, |a: Value| arith::sv_ineg(a), out),
        Instruction::Ladd => binop_step(pre, post, |a: Value, b: Value| arith::sv_ladd(a, b), out),
        Instruction::Lsub => binop_step(pre, post, |a: Value, b: Value| arith::sv_lsub(a, b), out),
        Instruction::Lmul => binop_step(pre, post, |a: Value, b: Value| arith::sv_lmul(a, b), out),
        Instruction::Ldiv => divop_step(
            pre,
            post,
            |a: Value, b: Value| arith::sv_ldiv(a, b),
            |v: Value| long_val(v.bits) == 0,
            out,
        ),
        Instruction::Lrem => divop_step(
            pre,
            post,
            |a: Value, b: Value| arith::sv_lrem(a, b),
            |v: Value| long_val(v.bits) == 0,
            out,
        ),
        Instruction::Lneg => unop_step(pre, post, |a: Value| arith::sv_lneg(a), out),
        Instruction::Ishl => binop_step(pre, post, |a: Value, b: Value| arith::sv_ishl(a, b), out),
        Instruction::Ishr => binop_step(pre, post, |a: Value, b: Value| arith::sv_ishr(a, b), out),
        Instruction::Iushr => binop_step(
            pre,
            post,
            |a: Value, b: Value| arith::sv_iushr(a, b),
            out,
        ),
        Instruction::Lshl => binop_step(pre, post, |a: Value, b: Value| arith::sv_lshl(a, b), out),
        Instruction::Lshr => binop_step(pre, post, |a: Value, b: Value| arith::sv_lshr(a, b), out),
        Instruction::Lushr => binop_step(
            pre,
            post,
            |a: Value, b: Value| arith::sv_lushr(a, b),
            out,
        ),
        Instruction::Iand => binop_step(pre, post, |a: Value, b: Value| arith::sv_iand(a, b), out),
        Instruction::Ior => binop_step(pre, post, |a: Value, b: Value| arith::sv_ior(a, b), out),
        Instruction::Ixor => binop_step(pre, post, |a: Value, b: Value| arith::sv_ixor(a, b), out),
        Instruction::Land => binop_step(pre, post, |a: Value, b: Value| arith::sv_land(a, b), out),
        Instruction::Lor => binop_step(pre, post, |a: Value, b: Value| arith::sv_lor(a, b), out),
        Instruction::Lxor => binop_step(pre, post, |a: Value, b: Value| arith::sv_lxor(a, b), out),
        Instruction::Iinc(x, c) => iinc_step(pre, post, x as int, c as int, out),
        Instruction::I2l => unop_step(pre, post, |a: Value| arith::sv_i2l(a), out),
        Instruction::L2i => unop_step(pre, post, |a: Value| arith::sv_l2i(a), out),
        Instruction::I2b => unop_step(pre, post, |a: Value| arith::sv_i2b(a), out),
        Instruction::I2c => unop_step(pre, post, |a: Value| arith::sv_i2c(a), out),
        Instruction::I2s => unop_step(pre, post, |a: Value| arith::sv_i2s(a), out),
        Instruction::Lcmp => binop_step(pre, post, |a: Value, b: Value| arith::sv_lcmp(a, b), out),
        Instruction::Ifeq(t) => branch1_step(
            pre,
            post,
            t as int,
            |v: Value| int_val(v.bits) == 0,
            out,
        ),
        Instruction::Ifne(t) => branch1_step(
            pre,
            post,
            t as int,
            |v: Value| int_val(v.bits) != 0,
            out,
        ),
        Instruction::Iflt(t) => branch1_step(
            pre,
            post,
            t as int,
            |v: Value| int_val(v.bits) < 0,
            out,
        ),
        Instruction::Ifge(t) => branch1_step(
            pre,
            post,
            t as int,
            |v: Value| int_val(v.bits) >= 0,
            out,
        ),
        Instruction::Ifgt(t) => branch1_step(
            pre,
            post,
            t as int,
            |v: Value| int_val(v.bits) > 0,
            out,
        ),
        Instruction::Ifle(t) => branch1_step(
            pre,
            post,
            t as int,
            |v: Value| int_val(v.bits) <= 0,
            out,
        ),
        Instruction::IfIcmpeq(t) => branch2_step(
            pre,
            post,
            t as int,
            |a: Value, b: Value| int_val(a.bits) == int_val(b.bits),
            out,
        ),
        Instruction::IfIcmpne(t) => branch2_step(
            pre,
            post,
            t as int,
            |a: Value, b: Value| int_val(a.bits) != int_val(b.bits),
            out,
        ),
        Instruction::IfIcmplt(t) => branch2_step(
            pre,
            post,
            t as int,
            |a: Value, b: Value| int_val(a.bits) < int_val(b.bits),
            out,
        ),
        Instruction::IfIcmpge(t) => branch2_step(
            pre,
            post,
            t as int,
            |a: Value, b: Value| int_val(a.bits) >= int_val(b.bits),
            out,
        ),
        Instruction::IfIcmpgt(t) => branch2_step(
            pre,
            post,
            t as int,
            |a: Value, b: Value| int_val(a.bits) > int_val(b.bits),
            out,
        ),
        Instruction::IfIcmple(t) => branch2_step(
            pre,
            post,
            t as int,
            |a: Value, b: Value| int_val(a.bits) <= int_val(b.bits),
            out,
        ),
        Instruction::IfAcmpeq(t) => branch2_step(
            pre,
            post,
            t as int,
            |a: Value, b: Value| a.bits == b.bits,
            out,
        ),
        Instruction::IfAcmpne(t) => branch2_step(
            pre,
            post,
            t as int,
            |a: Value, b: Value| a.bits != b.bits,
            out,
        ),
        Instruction::Goto(t) => out == StepOut::Continue && frame_op(
            pre,
            post,
            0,
            Seq::empty(),
            t as int,
        ),
        _ => false,
    }
}

/// Whether the opcode's whole effect lies in the current frame.
pub open spec fn pure_insn(insn: Instruction) -> bool {
    match insn {
        Instruction::Ldc(_) => false,
        Instruction::LdcW(_) => false,
        Instruction::Ldc2W(_) => false,
        Instruction::Getstatic(_) => false,
        Instruction::Putstatic(_) => false,
        Instruction::Getfield(_) => false,
        Instruction::Putfield(_) => false,
        Instruction::Invokevirtual(_) => false,
        Instruction::Invokespecial(_) => false,
        Instruction::Invokestatic(_) => false,
        Instruction::Invokeinterface(_) => false,
        Instruction::Invokedynamic(_) => false,
        Instruction::Ireturn => false,
        Instruction::Lreturn => false,
        Instruction::Freturn => false,
        Instruction::Dreturn => false,
        Instruction::Areturn => false,
        Instruction::Return => false,
        Instruction::Unsupported(_) => false,
        _ => true,
    }
}

/// The layout offset of the instance field of the name, if the class
/// declares one.
pub open spec fn spec_instance_offset(c: Class, name: Seq<char>) -> Option<int> {
    match find_field(c.spec_instance_fields(), name) {
        Some(i) => Some(c.spec_instance_fields()[i].offset as int),
        None => None,
    }
}

/// Loading a single- or two-slot constant onto the operand stack.
pub open spec fn ldc_step(
    pre_rt: Runtime,
    pre_st: Stack,
    post_rt: Runtime,
    post_st: Stack,
    n: int,
    wide: bool,
    out: StepOut,
) -> bool {
    &&& post_rt == pre_rt
    &&& match (if wide {
        spec_constant_value2(pre_rt, pre_st.cur_frame().class as int, n)
    } else {
        spec_constant_value(pre_rt, pre_st.cur_frame().class as int, n)
    }) {
        Ok(v) => push_step(pre_st, post_st, v, out),
        Err(e) => out == StepOut::Failed(e) && post_st == pre_st,
    }
}

/// Reading a static field: resolve the reference through the frame
/// class's constant pool, load the owning class (from the cache if it is
/// already loaded, per `load_rel`), and push the value last written to
/// that class's static-field table; nothing else changes.
pub open spec fn getstatic_step(
    pre_rt: Runtime,
    pre_st: Stack,
    post_rt: Runtime,
    post_st: Stack,
    n: int,
    out: StepOut,
) -> bool {
    match spec_fieldref_of(pre_rt, pre_st.cur_frame().class as int, n) {
        Err(e) => out == StepOut::Failed(e) && post_rt == pre_rt && post_st == pre_st,
        Ok(t) => {
            ||| (exists|e: VmError|
                out == StepOut::Failed(e) && #[trigger] load_rel(pre_rt, post_rt, t.0, Err(e))
                    && post_st == pre_st)
            ||| (exists|ci: usize|
                {
                    &&& #[trigger] load_rel(pre_rt, post_rt, t.0, Ok(ci))
                    &&& match post_rt.classes@[ci as int].spec_get_static(t.1) {
                        None => out == StepOut::Failed(VmError::MemberNotFound) && post_st
                            == pre_st,
                        Some(v) => push_step(pre_st, post_st, v, out),
                    }
                })
        },
    }
}

/// Writing a static field: resolve, load the owning class, pop the
/// value and store it in that class's static-field table; every other
/// class, every other field and the heap are untouched.
pub open spec fn putstatic_step(
    pre_rt: Runtime,
    pre_st: Stack,
    post_rt: Runtime,
    post_st: Stack,
    n: int,
    out: StepOut,
) -> bool {
    match spec_fieldref_of(pre_rt, pre_st.cur_frame().class as int, n) {
        Err(e) => out == StepOut::Failed(e) && post_rt == pre_rt && post_st == pre_st,
        Ok(t) => {
            ||| (exists|e: VmError|
                out == StepOut::Failed(e) && #[trigger] load_rel(pre_rt, post_rt, t.0, Err(e))
                    && post_st == pre_st)
            ||| (exists|ci: usize, mid: Runtime|
                {
                    &&& #[trigger] load_rel(pre_rt, mid, t.0, Ok(ci))
                    &&& if pre_st.cur_frame().sp == 0 {
                        out == StepOut::Failed(VmError::EmptyOperandStack) && post_rt == mid
                            && post_st == pre_st
                    } else {
                        match out {
                            StepOut::Failed(e) => e == VmError::MemberNotFound
                                && post_rt.classes@ == mid.classes@ && post_rt.layouts
                                == mid.layouts && post_rt.heap == mid.heap && post_rt.images
                                == mid.images && post_rt.main_class == mid.main_class
                                && post_rt.wf() && find_field(
                                mid.classes@[ci as int].spec_static_fields(),
                                t.1,
                            ) is None && popped_one(pre_st, post_st),
                            StepOut::Continue => {
                                &&& static_written(
                                    mid.classes@[ci as int],
                                    post_rt.classes@[ci as int],
                                    t.1,
                                    pre_st.cur_stack().last(),
                                )
                                &&& post_rt.classes@ == mid.classes@.update(
                                    ci as int,
                                    post_rt.classes@[ci as int],
                                )
                                &&& post_rt.layouts == mid.layouts
                                &&& post_rt.heap == mid.heap
                                &&& post_rt.images == mid.images
                                &&& post_rt.main_class == mid.main_class
                                &&& post_rt.wf()
                                &&& same_top_shape(pre_st, post_st)
                                &&& post_st.cur_stack() == pre_st.cur_stack().drop_last()
                                &&& post_st.cur_locals() == pre_st.cur_locals()
                                &&& post_st.cur_frame().pc == pre_st.cur_frame().pc + 1
                            },
                            StepOut::Returned(_) => false,
                        }
                    }
                })
        },
    }
}

/// Reading an instance field: resolve, load the field's class, pop the
/// object reference, and push the value held in the object's slot at the
/// field's layout offset; a null or dangling reference and a missing
/// member are distinct fatal conditions, and the heap is untouched.
pub open spec fn getfield_step(
    pre_rt: Runtime,
    pre_st: Stack,
    post_rt: Runtime,
    post_st: Stack,
    n: int,
    out: StepOut,
) -> bool {
    match spec_fieldref_of(pre_rt, pre_st.cur_frame().class as int, n) {
        Err(e) => out == StepOut::Failed(e) && post_rt == pre_rt && post_st == pre_st,
        Ok(t) => {
            ||| (exists|e: VmError|
                out == StepOut::Failed(e) && #[trigger] load_rel(pre_rt, post_rt, t.0, Err(e))
                    && post_st == pre_st)
            ||| (exists|ci: usize|
                {
                    &&& #[trigger] load_rel(pre_rt, post_rt, t.0, Ok(ci))
                    &&& if pre_st.cur_frame().sp == 0 {
                        out == StepOut::Failed(VmError::EmptyOperandStack) && post_st == pre_st
                    } else {
                        match pre_st.cur_stack().last().object() {
                            None => out == StepOut::Failed(VmError::NullReference) && popped_one(
                                pre_st,
                                post_st,
                            ),
                            Some(robj) => if !post_rt.heap.is_object(post_rt.layouts@, robj) {
                                out == StepOut::Failed(VmError::NullReference) && popped_one(
                                    pre_st,
                                    post_st,
                                )
                            } else {
                                match spec_instance_offset(post_rt.classes@[ci as int], t.1) {
                                    None => out == StepOut::Failed(VmError::MemberNotFound)
                                        && popped_one(pre_st, post_st),
                                    Some(off) => if off >= post_rt.layouts@[post_rt.heap.class_of(
                                        robj,
                                    )].is_ref@.len() {
                                        out == StepOut::Failed(VmError::MemberNotFound)
                                            && popped_one(pre_st, post_st)
                                    } else {
                                        out == StepOut::Continue && frame_op(
                                            pre_st,
                                            post_st,
                                            1,
                                            seq![post_rt.heap.field_of(robj, off)],
                                            pre_st.cur_frame().pc + 1,
                                        )
                                    },
                                }
                            },
                        }
                    }
                })
        },
    }
}

/// Writing an instance field: resolve, load the field's class, pop the
/// value and below it the object reference, and write the value into
/// the object's slot at the field's layout offset; every other slot of
/// the heap keeps its contents.
pub open spec fn putfield_step(
    pre_rt: Runtime,
    pre_st: Stack,
    post_rt: Runtime,
    post_st: Stack,
    n: int,
    out: StepOut,
) -> bool {
    match spec_fieldref_of(pre_rt, pre_st.cur_frame().class as int, n) {
        Err(e) => out == StepOut::Failed(e) && post_rt == pre_rt && post_st == pre_st,
        Ok(t) => {
            ||| (exists|e: VmError|
                out == StepOut::Failed(e) && #[trigger] load_rel(pre_rt, post_rt, t.0, Err(e))
                    && post_st == pre_st)
            ||| (exists|ci: usize, mid: Runtime|
                {
                    &&& #[trigger] load_rel(pre_rt, mid, t.0, Ok(ci))
                    &&& if pre_st.cur_stack().len() < 2 {
                        out == StepOut::Failed(VmError::EmptyOperandStack) && post_rt == mid
                            && underflowed(pre_st, post_st, 2)
                    } else {
                        let v = pre_st.cur_stack().last();
                        let objv = pre_st.cur_stack()[pre_st.cur_stack().len() - 2];
                        match objv.object() {
                            None => out == StepOut::Failed(VmError::NullReference) && post_rt
                                == mid && popped_two(pre_st, post_st),
                            Some(robj) => if !mid.heap.is_object(mid.layouts@, robj) {
                                out == StepOut::Failed(VmError::NullReference) && post_rt == mid
                                    && popped_two(pre_st, post_st)
                            } else {
                                match spec_instance_offset(mid.classes@[ci as int], t.1) {
                                    None => out == StepOut::Failed(VmError::MemberNotFound)
                                        && post_rt == mid && popped_two(pre_st, post_st),
                                    Some(off) => if off >= mid.layouts@[mid.heap.class_of(
                                        robj,
                                    )].is_ref@.len() {
                                        out == StepOut::Failed(VmError::MemberNotFound) && post_rt
                                            == mid && popped_two(pre_st, post_st)
                                    } else {
                                        &&& out == StepOut::Continue
                                        &&& post_rt.classes == mid.classes
                                        &&& post_rt.layouts == mid.layouts
                                        &&& post_rt.images == mid.images
                                        &&& post_rt.main_class == mid.main_class
                                        &&& heap_written(
                                            mid.heap,
                                            post_rt.heap,
                                            mid.layouts@,
                                            robj,
                                            off,
                                            v,
                                        )
                                        &&& post_rt.wf()
                                        &&& frame_op(
                                            pre_st,
                                            post_st,
                                            2,
                                            Seq::empty(),
                                            pre_st.cur_frame().pc + 1,
                                        )
                                    },
                                }
                            },
                        }
                    }
                })
        },
    }
}

/// How the native argument handling leaves the caller's frame: the
/// declared argument count is popped and the built-in behavior's result,
/// if it returns one, is pushed; the counter does not move here (the
/// invoke step advanced it before resolving).
pub open spec fn native_args_rel(
    pre: Stack,
    post: Stack,
    argc: int,
    behavior: NativeBehavior,
    r: Result<(), VmError>,
) -> bool {
    match r {
        Err(e) => {
            ||| (e == VmError::EmptyOperandStack && underflowed(pre, post, argc))
            ||| (e == VmError::OperandStackOverflow && pre.cur_stack().len() >= argc
                && behavior is ReturnInt && pre.cur_frame().sp - argc >= pre.cur_frame().max_stack
                && same_top_shape(pre, post) && post.cur_stack() == popped(pre, argc)
                && post.cur_locals() == pre.cur_locals() && post.cur_frame().pc
                == pre.cur_frame().pc)
        },
        Ok(()) => {
            &&& pre.cur_stack().len() >= argc
            &&& same_top_shape(pre, post)
            &&& post.cur_locals() == pre.cur_locals()
            &&& post.cur_frame().pc == pre.cur_frame().pc
            &&& post.cur_stack() == (match behavior {
                NativeBehavior::ReturnInt(x) => popped(pre, argc).push(
                    Value { bits: int_bits(x as int) },
                ),
                NativeBehavior::ReturnVoid => popped(pre, argc),
            })
        },
    }
}

/// How a bytecode-backed invocation leaves the stack: the declared
/// argument count is popped from the caller and a fresh zeroed frame for
/// the callee is placed above it, the popped arguments standing in the
/// callee's low local slots in ascending declaration order (they were
/// popped in reverse).
pub open spec fn java_call_rel(
    pre: Stack,
    post: Stack,
    ci: int,
    mi: int,
    ml: int,
    ms: int,
    argc: int,
    r: Result<(), VmError>,
) -> bool {
    match r {
        Err(e) => {
            ||| (e == VmError::EmptyOperandStack && underflowed(pre, post, argc))
            ||| (e == VmError::StackOverflow && pre.cur_stack().len() >= argc && same_top_shape(
                pre,
                post,
            ) && post.cur_stack() == popped(pre, argc) && post.cur_locals() == pre.cur_locals()
                && post.cur_frame().pc == pre.cur_frame().pc && pre.top() + ml + ms
                > pre.capacity())
        },
        Ok(()) => {
            let s = pre.cur_stack();
            &&& s.len() >= argc
            &&& post.wf()
            &&& post.depth() == pre.depth() + 1
            &&& post.capacity() == pre.capacity()
            &&& Stack::frames_preserved(pre, post, pre.depth() - 1)
            &&& post.frame(pre.depth() - 1) == (StackFrame {
                sp: (pre.cur_frame().sp - argc) as u16,
                ..pre.cur_frame()
            })
            &&& post.stack_of(pre.depth() - 1) == popped(pre, argc)
            &&& post.locals_of(pre.depth() - 1) == pre.cur_locals()
            &&& post.cur_frame().max_locals == ml
            &&& post.cur_frame().max_stack == ms
            &&& post.cur_frame().class == ci
            &&& post.cur_frame().method == mi
            &&& post.cur_frame().pc == 0
            &&& post.cur_frame().sp == 0
            &&& post.cur_locals().len() == ml
            &&& forall|q: int| 0 <= q < argc ==> post.cur_locals()[q] == s[s.len() - argc + q]
            &&& forall|q: int|
                argc <= q < ml ==> post.cur_locals()[q] == (Value { bits: 0 })
        },
    }
}

/// What one invocation does, for every outcome: the method reference is
/// resolved through the caller's constant pool, the referenced class is
/// loaded (statically: by the referenced class, not the receiver's
/// run-time class), the method is looked up by name and full descriptor
/// (a miss is the member-not-found condition), and the call is performed
/// natively in place or by placing a frame.
pub open spec fn invoke_rel(
    pre_rt: Runtime,
    pre_st: Stack,
    post_rt: Runtime,
    post_st: Stack,
    ci0: int,
    n: int,
    r: Result<(), VmError>,
) -> bool {
    match spec_methodref_of(pre_rt, ci0, n) {
        Err(e) => r == Err::<(), VmError>(e) && post_rt == pre_rt && post_st == pre_st,
        Ok(t) => {
            ||| (exists|e: VmError|
                r == Err::<(), VmError>(e) && #[trigger] load_rel(pre_rt, post_rt, t.0, Err(e))
                    && post_st == pre_st)
            ||| (exists|ci: usize|
                {
                    &&& #[trigger] load_rel(pre_rt, post_rt, t.0, Ok(ci))
                    &&& match find_method(post_rt.classes@[ci as int].spec_methods(), t.1, t.2) {
                        None => r == Err::<(), VmError>(VmError::MemberNotFound) && post_st
                            == pre_st,
                        Some(mi) => match post_rt.classes@[ci as int].spec_methods()[mi] {
                            Method::Native(nm) => native_args_rel(
                                pre_st,
                                post_st,
                                nm.parsed_descriptor.args@.len() as int,
                                nm.behavior,
                                r,
                            ),
                            Method::Java(jm) => match jm.code {
                                None => r == Err::<(), VmError>(VmError::AbstractMethodCall)
                                    && post_st == pre_st,
                                Some(c) => if jm.parsed_descriptor.args@.len()
                                    > c.max_locals as int {
                                    r == Err::<(), VmError>(VmError::ClassFormat) && post_st
                                        == pre_st
                                } else {
                                    java_call_rel(
                                        pre_st,
                                        post_st,
                                        ci as int,
                                        mi,
                                        c.max_locals as int,
                                        c.max_stack as int,
                                        jm.parsed_descriptor.args@.len() as int,
                                        r,
                                    )
                                },
                            },
                        },
                    }
                })
        },
    }
}

/// The stack as the invoke step first leaves it: the same in everything
/// but the counter, which has moved past the invoke instruction (the
/// callee will return there).
pub open spec fn advanced_pc(pre: Stack, mid: Stack) -> bool {
    &&& same_top_shape(pre, mid)
    &&& mid.cur_stack() == pre.cur_stack()
    &&& mid.cur_locals() == pre.cur_locals()
    &&& mid.cur_frame().pc == pre.cur_frame().pc + 1
}

/// An invocation step: the counter moves past the instruction, then the
/// invocation runs per `invoke_rel`.
pub open spec fn invoke_step(
    pre_rt: Runtime,
    pre_st: Stack,
    post_rt: Runtime,
    post_st: Stack,
    n: int,
    out: StepOut,
) -> bool {
    exists|mid: Stack|
        {
            &&& #[trigger] advanced_pc(pre_st, mid)
            &&& match out {
                StepOut::Continue => invoke_rel(
                    pre_rt,
                    mid,
                    post_rt,
                    post_st,
                    pre_st.cur_frame().class as int,
                    n,
                    Ok(()),
                ),
                StepOut::Failed(e) => invoke_rel(
                    pre_rt,
                    mid,
                    post_rt,
                    post_st,
                    pre_st.cur_frame().class as int,
                    n,
                    Err(e),
                ),
                StepOut::Returned(_) => false,
            }
        }
}

/// The small-step relation of the interpreter: what one iteration of the
/// fetch-decode-execute loop does, for every instruction and every
/// outcome, relative to the entry depth `ed` (the frame whose return
/// ends the loop).  The fetched instruction is the one at the current
/// frame's counter in its method's decoded sequence; a fetch that fails
/// (the code-overrun condition among them) changes nothing.
pub open spec fn step_rel(
    pre_rt: Runtime,
    pre_st: Stack,
    post_rt: Runtime,
    post_st: Stack,
    ed: int,
    out: StepOut,
) -> bool {
    &&& pre_st.depth() >= ed >= 1
    &&& match spec_fetch(
        pre_rt,
        pre_st.cur_frame().class as int,
        pre_st.cur_frame().method as int,
        pre_st.cur_frame().pc as int,
    ) {
        Err(e) => out == StepOut::Failed(e) && post_rt == pre_rt && post_st == pre_st,
        Ok(insn) => match insn {
            Instruction::Ldc(n) => ldc_step(pre_rt, pre_st, post_rt, post_st, n as int, false, out),
            Instruction::LdcW(n) => ldc_step(
                pre_rt,
                pre_st,
                post_rt,
                post_st,
                n as int,
                false,
                out,
            ),
            Instruction::Ldc2W(n) => ldc_step(
                pre_rt,
                pre_st,
                post_rt,
                post_st,
                n as int,
                true,
                out,
            ),
            Instruction::Getstatic(n) => getstatic_step(
                pre_rt,
                pre_st,
                post_rt,
                post_st,
                n as int,
                out,
            ),
            Instruction::Putstatic(n) => putstatic_step(
                pre_rt,
                pre_st,
                post_rt,
                post_st,
                n as int,
                out,
            ),
            Instruction::Getfield(n) => getfield_step(
                pre_rt,
                pre_st,
                post_rt,
                post_st,
                n as int,
                out,
            ),
            Instruction::Putfield(n) => putfield_step(
                pre_rt,
                pre_st,
                post_rt,
                post_st,
                n as int,
                out,
            ),
            Instruction::Invokevirtual(n) | Instruction::Invokespecial(n)
                | Instruction::Invokestatic(n) | Instruction::Invokeinterface(n)
                | Instruction::Invokedynamic(n) => invoke_step(
                pre_rt,
                pre_st,
                post_rt,
                post_st,
                n as int,
                out,
            ),
            Instruction::Ireturn | Instruction::Lreturn | Instruction::Freturn
                | Instruction::Dreturn | Instruction::Areturn => post_rt == pre_rt && vreturn_step(
                pre_st,
                post_st,
                ed,
                out,
            ),
            Instruction::Return => post_rt == pre_rt && retvoid_step(pre_st, post_st, ed, out),
            Instruction::Unsupported(op) => out == StepOut::Failed(VmError::Unimplemented(op))
                && post_rt == pre_rt && post_st == pre_st,
            _ => post_rt == pre_rt && pure_step(pre_st, post_st, insn, out),
        },
    }
}

/// A trace: consecutive machine states, each reached from the one before
/// it by one continuing interpreter step.
pub open spec fn is_trace(tr: Seq<(Runtime, Stack)>, ed: int) -> bool {
    forall|i: int|
        0 <= i < tr.len() - 1 ==> step_rel(
            (#[trigger] tr[i]).0,
            tr[i].1,
            tr[i + 1].0,
            tr[i + 1].1,
            ed,
            StepOut::Continue,
        )
}

/// What a whole interpreter run states: a trace of continuing steps
/// leads from the entry state to a last state, from which one final step
/// returns the entry frame's value (on success) or raises the fatal
/// condition reported (on failure); the explicit step budget bounds the
/// trace, and only its exhaustion reports the out-of-fuel condition.
pub open spec fn execute_post(
    pre_rt: Runtime,
    pre_st: Stack,
    post_rt: Runtime,
    post_st: Stack,
    fuel: int,
    r: Result<Option<Value>, VmError>,
    tr: Seq<(Runtime, Stack)>,
) -> bool {
    let ed = pre_st.depth();
    &&& tr.len() >= 1
    &&& tr.len() <= fuel + 1
    &&& tr[0] == (pre_rt, pre_st)
    &&& is_trace(tr, ed)
    &&& match r {
        Ok(v) => step_rel(tr.last().0, tr.last().1, post_rt, post_st, ed, StepOut::Returned(v)),
        Err(e) => {
            ||| (e == VmError::OutOfFuel && tr.len() == fuel + 1 && tr.last() == (post_rt, post_st))
            ||| step_rel(tr.last().0, tr.last().1, post_rt, post_st, ed, StepOut::Failed(e))
        },
    }
}


/// The index of the entry-point method: the first of the three accepted
/// `main` descriptors that resolves, if any does.
pub open spec fn main_method_idx(cls: Class) -> Option<int> {
    if find_method(cls.spec_methods(), "main"@, "([Ljava/lang/String;)V"@) is Some {
        find_method(cls.spec_methods(), "main"@, "([Ljava/lang/String;)V"@)
    } else if find_method(cls.spec_methods(), "main"@, "()I"@) is Some {
        find_method(cls.spec_methods(), "main"@, "()I"@)
    } else {
        find_method(cls.spec_methods(), "main"@, "()J"@)
    }
}

/// The machine's entry state: one zeroed frame of the entry method at
/// the base of a fresh region of the configured size.
pub open spec fn main_entry_frame(st: Stack, ci: int, mi: int, ml: int, ms: int) -> bool {
    &&& st.wf()
    &&& st.depth() == 1
    &&& st.capacity() == STACK_SLOTS
    &&& st.frame(0) == (StackFrame {
        base: 0,
        max_locals: ml as u16,
        max_stack: ms as u16,
        sp: 0,
        pc: 0,
        class: ci as usize,
        method: mi as usize,
    })
    &&& st.locals_of(0) == Seq::new(ml as nat, |k: int| Value { bits: 0 })
}


/// Frame isolation, stated of the small-step relation: no interpreter
/// step touches any frame lying below both the frame it started in and
/// the frame it ended in.  In particular, everything a callee and its
/// own callees do leaves every one of the caller's slots exactly as the
/// invoke step left them, until the matching return pushes the result;
/// with `vreturn_step` and `java_call_rel` this gives the caller's
/// locals back unchanged and its operand depth down by the argument
/// count and up by one per returned value.
pub proof fn lemma_step_isolates_frames(
    pre_rt: Runtime,
    pre_st: Stack,
    post_rt: Runtime,
    post_st: Stack,
    ed: int,
    out: StepOut,
    k: int,
)
    requires
        step_rel(pre_rt, pre_st, post_rt, post_st, ed, out),
        0 <= k < pre_st.depth() - 1,
        k < post_st.depth() - 1,
    ensures
        post_st.frame(k) == pre_st.frame(k),
        post_st.locals_of(k) == pre_st.locals_of(k),
        post_st.stack_of(k) == pre_st.stack_of(k),
{
}

} // verus!
