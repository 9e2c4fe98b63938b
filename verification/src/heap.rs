//! The heap: object storage in bump-allocated chunks, reclaimed by a
//! mark-compact collector.
//!
//! A chunk is one contiguous run of value slots with a bump cursor;
//! objects are allocated by advancing the cursor and never freed
//! individually.  An object is a header slot holding its class index
//! followed by one slot per instance field; which fields hold object
//! references is given by the class layout table that every operation
//! receives.  When the current chunk lacks room a new chunk is appended,
//! sized to at least the configured minimum, provided the heap's total
//! committed size stays below its ceiling; otherwise allocation fails
//! and the caller must collect before retrying.

use vstd::prelude::*;
use crate::error::VmError;
use crate::stack::Stack;
use crate::things::{ObjRef, Value, ref_bits};

verus! {

/// The instance-field layout of one class: one entry per field, true
/// where the field holds an object reference.  The field count is the
/// length.
#[derive(Debug)]
pub struct ClassLayout {
    pub is_ref: Vec<bool>,
}

/// One contiguous run of value slots with a bump cursor.  Slots below
/// the cursor hold objects; the tail above it is open for allocation.
#[derive(Debug)]
pub struct Chunk {
    pub data: Vec<Value>,
    pub cursor: usize,
}

/// The heap: an ordered list of chunks, the total committed slot count,
/// its configured ceiling, and the minimum size of a freshly appended
/// chunk.
#[derive(Debug)]
pub struct Heap {
    pub chunks: Vec<Chunk>,
    pub committed: usize,
    pub ceiling: usize,
    pub min_chunk: usize,
}

/// The slot size of an object of class `c`: one header slot plus one per
/// field.
pub open spec fn class_size(layouts: Seq<ClassLayout>, c: int) -> int {
    1 + layouts[c].is_ref@.len() as int
}

/// Tiles the slots from `off` up to `cursor` into objects: each object's
/// header names a class of the table and the next object starts right
/// after its fields.  Returns the object start offsets in order, or
/// nothing if the region does not tile.
pub open spec fn tile(data: Seq<Value>, layouts: Seq<ClassLayout>, off: int, cursor: int) -> Option<
    Seq<int>,
>
    decreases cursor - off,
{
    if off == cursor {
        Some(Seq::empty())
    } else if off < 0 || off > cursor || cursor > data.len() {
        None
    } else {
        let c = data[off].bits as int;
        if c < 0 || c >= layouts.len() {
            None
        } else {
            let sz = class_size(layouts, c);
            if off + sz > cursor {
                None
            } else {
                match tile(data, layouts, off + sz, cursor) {
                    Some(rest) => Some(seq![off] + rest),
                    None => None,
                }
            }
        }
    }
}

/// A tiled region's offsets are strictly increasing, in range, and each
/// object ends where the next begins (or at the cursor).
pub proof fn lemma_tile_offsets(data: Seq<Value>, layouts: Seq<ClassLayout>, off: int, cursor: int)
    requires
        0 <= off <= cursor,
        tile(data, layouts, off, cursor) is Some,
    ensures
        ({
            let objs = tile(data, layouts, off, cursor)->Some_0;
            &&& forall|i: int, j: int| 0 <= i < j < objs.len() ==> objs[i] < objs[j]
            &&& forall|i: int| 0 <= i < objs.len() ==> off <= #[trigger] objs[i] < cursor
            &&& forall|i: int|
                0 <= i < objs.len() ==> {
                    let c = data[#[trigger] objs[i]].bits as int;
                    &&& 0 <= c < layouts.len()
                    &&& objs[i] + class_size(layouts, c) == if i + 1 < objs.len() {
                        objs[i + 1]
                    } else {
                        cursor
                    }
                }
            &&& (objs.len() > 0 ==> objs[0] == off)
            &&& (off == cursor <==> objs.len() == 0)
        }),
    decreases cursor - off,
{
    let objs = tile(data, layouts, off, cursor)->Some_0;
    if off == cursor {
    } else {
        let c = data[off].bits as int;
        let sz = class_size(layouts, c);
        let rest = tile(data, layouts, off + sz, cursor)->Some_0;
        lemma_tile_offsets(data, layouts, off + sz, cursor);
        assert(objs == seq![off] + rest);
        assert forall|i: int| 0 <= i < objs.len() implies off <= #[trigger] objs[i] < cursor by {
            if i > 0 {
                assert(objs[i] == rest[i - 1]);
            }
        }
        assert forall|i: int|
            0 <= i < objs.len() implies {
            let cc = data[#[trigger] objs[i]].bits as int;
            &&& 0 <= cc < layouts.len()
            &&& objs[i] + class_size(layouts, cc) == if i + 1 < objs.len() {
                objs[i + 1]
            } else {
                cursor
            }
        } by {
            if i == 0 {
                if rest.len() > 0 {
                    assert(objs[1] == rest[0]);
                }
            } else {
                assert(objs[i] == rest[i - 1]);
                if i + 1 < objs.len() {
                    assert(objs[i + 1] == rest[i]);
                }
            }
        }
    }
}

/// Tiling reads only the slots of the region, so any data that agrees on
/// them tiles the same way.
pub proof fn lemma_tile_agree(
    d1: Seq<Value>,
    d2: Seq<Value>,
    layouts: Seq<ClassLayout>,
    off: int,
    cursor: int,
)
    requires
        0 <= off,
        cursor <= d1.len(),
        cursor <= d2.len(),
        forall|j: int| off <= j < cursor ==> d1[j] == d2[j],
    ensures
        tile(d1, layouts, off, cursor) == tile(d2, layouts, off, cursor),
    decreases cursor - off,
{
    if off >= cursor {
    } else {
        let c = d1[off].bits as int;
        if 0 <= c < layouts.len() {
            let sz = class_size(layouts, c);
            if off + sz <= cursor {
                lemma_tile_agree(d1, d2, layouts, off + sz, cursor);
            }
        }
    }
}

/// Updating a slot that is not an object header leaves the tiling as it
/// was.
pub proof fn lemma_tile_update(
    data: Seq<Value>,
    layouts: Seq<ClassLayout>,
    off: int,
    cursor: int,
    p: int,
    v: Value,
)
    requires
        0 <= off <= cursor,
        tile(data, layouts, off, cursor) is Some,
        0 <= p < data.len(),
        !tile(data, layouts, off, cursor)->Some_0.contains(p),
    ensures
        tile(data.update(p, v), layouts, off, cursor) == tile(data, layouts, off, cursor),
    decreases cursor - off,
{
    let objs = tile(data, layouts, off, cursor)->Some_0;
    if off == cursor {
    } else {
        let c = data[off].bits as int;
        let sz = class_size(layouts, c);
        let rest = tile(data, layouts, off + sz, cursor)->Some_0;
        assert(objs == seq![off] + rest);
        assert(objs[0] == off);
        assert(objs.contains(off));
        assert(p != off);
        assert forall|k: int| 0 <= k < rest.len() implies rest[k] != p by {
            assert(objs[k + 1] == rest[k]);
            assert(objs.contains(objs[k + 1]));
        }
        assert(!rest.contains(p));
        lemma_tile_update(data, layouts, off + sz, cursor, p, v);
        assert(data.update(p, v)[off] == data[off]);
    }
}

/// Extending a tiled region with one well-formed object at its end tiles
/// again, with the new object's offset appended.
pub proof fn lemma_tile_extend(
    data: Seq<Value>,
    layouts: Seq<ClassLayout>,
    off: int,
    cursor: int,
    c: int,
)
    requires
        0 <= off <= cursor,
        cursor <= data.len(),
        tile(data, layouts, off, cursor) is Some,
        0 <= c < layouts.len(),
        data[cursor].bits == c,
        cursor + class_size(layouts, c) <= data.len(),
    ensures
        tile(data, layouts, off, cursor + class_size(layouts, c)) == Some(
            tile(data, layouts, off, cursor)->Some_0 + seq![cursor],
        ),
    decreases cursor - off,
{
    let sz = class_size(layouts, c);
    if off == cursor {
        assert(tile(data, layouts, off + sz, cursor + sz) == Some(Seq::<int>::empty()));
        assert(tile(data, layouts, off, cursor + sz) == Some(seq![off] + Seq::<int>::empty()));
        assert(seq![off] + Seq::<int>::empty() =~= Seq::<int>::empty() + seq![off]);
        assert(tile(data, layouts, off, cursor)->Some_0 =~= Seq::<int>::empty());
    } else {
        let c0 = data[off].bits as int;
        let sz0 = class_size(layouts, c0);
        lemma_tile_extend(data, layouts, off + sz0, cursor, c);
        let rest = tile(data, layouts, off + sz0, cursor)->Some_0;
        assert(tile(data, layouts, off, cursor + sz) == Some(seq![off] + (rest + seq![cursor])));
        assert(seq![off] + (rest + seq![cursor]) =~= (seq![off] + rest) + seq![cursor]);
    }
}

impl Heap {
    /// The object start offsets of chunk `c`.
    pub open spec fn objects_of(self, layouts: Seq<ClassLayout>, c: int) -> Seq<int> {
        tile(self.chunks@[c].data@, layouts, 0, self.chunks@[c].cursor as int)->Some_0
    }

    /// Whether the handle names an object currently on the heap.
    pub open spec fn is_object(self, layouts: Seq<ClassLayout>, r: ObjRef) -> bool {
        &&& (r.chunk as int) < self.chunks@.len()
        &&& self.objects_of(layouts, r.chunk as int).contains(r.slot as int)
    }

    /// The class index in the object's header.
    pub open spec fn class_of(self, r: ObjRef) -> int {
        self.chunks@[r.chunk as int].data@[r.slot as int].bits as int
    }

    /// Field `i` of the object.
    pub open spec fn field_of(self, r: ObjRef, i: int) -> Value {
        self.chunks@[r.chunk as int].data@[r.slot + 1 + i]
    }

    /// The committed slot count of all chunks together.
    pub open spec fn sum_committed(chunks: Seq<Chunk>) -> int
        decreases chunks.len(),
    {
        if chunks.len() == 0 {
            0
        } else {
            Heap::sum_committed(chunks.drop_last()) + chunks.last().data@.len()
        }
    }

    /// Well-formedness against a layout table: every chunk's used region
    /// tiles into objects of that table, cursors stay inside their
    /// chunks, chunk sizes and the chunk count stay within the range the
    /// reference encoding can address, and the committed count is the
    /// sum of the chunk sizes.
    pub open spec fn wf(self, layouts: Seq<ClassLayout>) -> bool {
        &&& self.chunks@.len() <= 0x7fff_fffe
        &&& forall|c: int|
            0 <= c < self.chunks@.len() ==> (#[trigger] self.chunks@[c]).cursor
                <= self.chunks@[c].data@.len() <= 0xffff_ffff
        &&& forall|c: int|
            0 <= c < self.chunks@.len() ==> tile(
                (#[trigger] self.chunks@[c]).data@,
                layouts,
                0,
                self.chunks@[c].cursor as int,
            ) is Some
        &&& self.committed == Heap::sum_committed(self.chunks@)
        &&& self.committed <= self.ceiling
    }

    /// An empty heap with the given ceiling and minimum chunk size.
    pub fn new(ceiling: usize, min_chunk: usize) -> (h: Heap)
        ensures
            forall|layouts: Seq<ClassLayout>| #[trigger] h.wf(layouts),
            h.chunks@.len() == 0,
            h.committed == 0,
            h.ceiling == ceiling,
            h.min_chunk == min_chunk,
    {
        Heap { chunks: Vec::new(), committed: 0, ceiling, min_chunk }
    }
}


/// How a heap stands to its earlier self after field `i` of object `r`
/// was written with `v`: exactly that slot changed, every other object,
/// every class header, every cursor and the committed total are what
/// they were.
pub open spec fn heap_written(
    pre: Heap,
    post: Heap,
    layouts: Seq<ClassLayout>,
    r: ObjRef,
    i: int,
    v: Value,
) -> bool {
    &&& post.wf(layouts)
    &&& post.field_of(r, i) == v
    &&& post.chunks@.len() == pre.chunks@.len()
    &&& post.committed == pre.committed
    &&& post.ceiling == pre.ceiling
    &&& post.min_chunk == pre.min_chunk
    &&& forall|c: int|
        0 <= c < pre.chunks@.len() ==> post.objects_of(layouts, c) == pre.objects_of(layouts, c)
            && (#[trigger] post.chunks@[c]).cursor == pre.chunks@[c].cursor
            && post.chunks@[c].data@.len() == pre.chunks@[c].data@.len()
    &&& forall|r2: ObjRef, j: int|
        pre.is_object(layouts, r2) && 0 <= j < class_size(layouts, pre.class_of(r2)) - 1 && (r2 != r
            || j != i) ==> #[trigger] post.field_of(r2, j) == pre.field_of(r2, j)
    &&& forall|r2: ObjRef|
        pre.is_object(layouts, r2) ==> #[trigger] post.class_of(r2) == pre.class_of(r2)
}

impl Heap {
    /// Finds whether the handle names an object on the heap, by walking
    /// the chunk's objects from its base.
    #[verifier::loop_isolation(false)]
    #[verifier::rlimit(60)]
    pub fn find_object(&self, layouts: &Vec<ClassLayout>, r: ObjRef) -> (found: bool)
        requires
            self.wf(layouts@),
        ensures
            found == self.is_object(layouts@, r),
    {
        if r.chunk >= self.chunks.len() {
            return false;
        }
        let chunk = &self.chunks[r.chunk];
        let cursor = chunk.cursor;
        let ghost objs = self.objects_of(layouts@, r.chunk as int);
        proof {
            lemma_tile_offsets(chunk.data@, layouts@, 0, cursor as int);
        }
        let mut off: usize = 0;
        let mut kk: Ghost<int> = Ghost(0);
        loop
            invariant
                0 <= kk@ <= objs.len(),
                off as int == if kk@ < objs.len() {
                    objs[kk@]
                } else {
                    cursor as int
                },
                forall|j: int| 0 <= j < kk@ ==> objs[j] != r.slot as int,
            decreases cursor - off,
        {
            if off >= cursor {
                proof {
                    assert(kk@ == objs.len());
                    if objs.contains(r.slot as int) {
                        let j = choose|j: int| 0 <= j < objs.len() && objs[j] == r.slot as int;
                    }
                }
                return false;
            }
            proof {
                assert(kk@ < objs.len());
                assert(objs[kk@] == off as int);
            }
            if off == r.slot {
                proof {
                    assert(objs.contains(r.slot as int));
                }
                return true;
            }
            let c = chunk.data[off].bits;
            let nl = layouts.len();
            proof {
                assert(data_class_ok(chunk.data@, layouts@, off as int));
                assert(off as int + class_size(layouts@, chunk.data@[off as int].bits as int)
                    <= cursor as int);
            }
            let sz = 1 + layouts[c as usize].is_ref.len();
            off = off + sz;
            kk = Ghost(kk@ + 1);
        }
    }

    /// Reads field `i` of the object.
    pub fn get_field(&self, layouts: &Vec<ClassLayout>, r: ObjRef, i: usize) -> (v: Value)
        requires
            self.wf(layouts@),
            self.is_object(layouts@, r),
            i < class_size(layouts@, self.class_of(r)) - 1,
        ensures
            v == self.field_of(r, i as int),
    {
        proof {
            lemma_object_in_bounds(*self, layouts@, r);
        }
        let chunk = &self.chunks[r.chunk];
        chunk.data[r.slot + 1 + i]
    }

    /// The class index in the object's header.
    pub fn read_class(&self, layouts: &Vec<ClassLayout>, r: ObjRef) -> (c: usize)
        requires
            self.wf(layouts@),
            self.is_object(layouts@, r),
        ensures
            c as int == self.class_of(r),
            0 <= self.class_of(r) < layouts@.len(),
    {
        let nl = layouts.len();
        proof {
            lemma_object_in_bounds(*self, layouts@, r);
            assert(self.class_of(r) < nl as int);
        }
        let chunk = &self.chunks[r.chunk];
        chunk.data[r.slot].bits as usize
    }

    /// Writes field `i` of the object.  Every other slot of the heap is
    /// untouched, so all other objects keep their contents.
    #[verifier::rlimit(100)]
    pub fn set_field(&mut self, layouts: &Vec<ClassLayout>, r: ObjRef, i: usize, v: Value)
        requires
            old(self).wf(layouts@),
            old(self).is_object(layouts@, r),
            i < class_size(layouts@, old(self).class_of(r)) - 1,
        ensures
            heap_written(*old(self), *final(self), layouts@, r, i as int, v),
            final(self).wf(layouts@),
            final(self).field_of(r, i as int) == v,
            final(self).chunks@.len() == old(self).chunks@.len(),
            final(self).committed == old(self).committed,
            final(self).ceiling == old(self).ceiling,
            final(self).min_chunk == old(self).min_chunk,
            forall|c: int|
                0 <= c < old(self).chunks@.len() ==> final(self).objects_of(layouts@, c)
                    == old(self).objects_of(layouts@, c) && (#[trigger] final(self).chunks@[c]).cursor
                    == old(self).chunks@[c].cursor && final(self).chunks@[c].data@.len() == old(
                    self,
                ).chunks@[c].data@.len(),
            forall|r2: ObjRef, j: int|
                old(self).is_object(layouts@, r2) && 0 <= j < class_size(
                    layouts@,
                    old(self).class_of(r2),
                ) - 1 && (r2 != r || j != i as int) ==> #[trigger] final(self).field_of(r2, j)
                    == old(self).field_of(r2, j),
            forall|r2: ObjRef|
                old(self).is_object(layouts@, r2) ==> #[trigger] final(self).class_of(r2) == old(
                    self,
                ).class_of(r2),
    {
        proof {
            lemma_object_in_bounds(*old(self), layouts@, r);
        }
        let ghost pre = *self;
        let p = r.slot + 1 + i;
        let chunk = &mut self.chunks[r.chunk];
        chunk_set(chunk, p, v);
        proof {
            let ci = r.chunk as int;
            lemma_tile_offsets(pre.chunks@[ci].data@, layouts@, 0, pre.chunks@[ci].cursor as int);
            lemma_field_not_header(pre, layouts@, r, i as int);
            lemma_tile_update(
                pre.chunks@[ci].data@,
                layouts@,
                0,
                pre.chunks@[ci].cursor as int,
                p as int,
                v,
            );
            assert(self.chunks@[ci].data@ == pre.chunks@[ci].data@.update(p as int, v));
            assert(tile(self.chunks@[ci].data@, layouts@, 0, self.chunks@[ci].cursor as int)
                == tile(pre.chunks@[ci].data@, layouts@, 0, pre.chunks@[ci].cursor as int));
            lemma_sum_committed_same(pre.chunks@, self.chunks@);
            assert forall|c: int|
                0 <= c < pre.chunks@.len() implies self.objects_of(layouts@, c) == pre.objects_of(
                layouts@,
                c,
            ) && (#[trigger] self.chunks@[c]).cursor == pre.chunks@[c].cursor && self.chunks@[c].data@.len() == pre.chunks@[c].data@.len() by {
                if c != ci {
                    assert(self.chunks@[c] == pre.chunks@[c]);
                }
            }
            assert forall|r2: ObjRef, j: int|
                pre.is_object(layouts@, r2) && 0 <= j < class_size(layouts@, pre.class_of(r2)) - 1
                    && (r2 != r || j != i as int) implies #[trigger] self.field_of(r2, j)
                == pre.field_of(r2, j) by {
                if r2.chunk == r.chunk {
                    if r2.slot == r.slot {
                    } else {
                        lemma_distinct_objects_disjoint(pre, layouts@, r, r2);
                    }
                }
            }
            assert forall|r2: ObjRef|
                pre.is_object(layouts@, r2) implies #[trigger] self.class_of(r2) == pre.class_of(
                r2,
            ) by {
                if r2.chunk == r.chunk && r2.slot != r.slot {
                    lemma_distinct_objects_disjoint(pre, layouts@, r, r2);
                }
            }
        }
    }

    /// Whether the current chunk has room for an object of the class.
    pub open spec fn has_room(self, layouts: Seq<ClassLayout>, class: int) -> bool {
        &&& self.chunks@.len() > 0
        &&& class_size(layouts, class) <= self.chunks@.last().data@.len()
            - self.chunks@.last().cursor
    }

    /// The size of the chunk a growing allocation commits: at least the
    /// configured minimum, or the requested size if that is larger.
    pub open spec fn grow_size(self, layouts: Seq<ClassLayout>, class: int) -> int {
        if class_size(layouts, class) > self.min_chunk {
            class_size(layouts, class)
        } else {
            self.min_chunk as int
        }
    }

    /// Allocates a zeroed object of the class, bump-allocating from the
    /// current chunk, appending a new chunk when it lacks room (sized to
    /// at least the configured minimum, or the requested size if that is
    /// larger), and failing exactly when the current chunk lacks room
    /// and the heap cannot grow: the new chunk would pass the committed
    /// ceiling, or the chunk count would pass what the reference
    /// encoding can address.  Every existing object is untouched.
    #[verifier::loop_isolation(false)]
    #[verifier::rlimit(100)]
    pub fn allocate(&mut self, layouts: &Vec<ClassLayout>, class: usize) -> (r: Result<
        ObjRef,
        VmError,
    >)
        requires
            old(self).wf(layouts@),
            class < layouts@.len(),
            class_size(layouts@, class as int) <= 0xffff_ffff,
            old(self).min_chunk <= 0xffff_ffff,
        ensures
            final(self).wf(layouts@),
            final(self).ceiling == old(self).ceiling,
            final(self).min_chunk == old(self).min_chunk,
            r is Err <==> !old(self).has_room(layouts@, class as int) && (old(self).chunks@.len()
                >= 0x7fff_fffe || old(self).committed + old(self).grow_size(
                layouts@,
                class as int,
            ) > old(self).ceiling),
            r is Ok && old(self).has_room(layouts@, class as int) ==> final(self).chunks@.len()
                == old(self).chunks@.len() && final(self).committed == old(self).committed,
            r is Ok && !old(self).has_room(layouts@, class as int) ==> final(self).chunks@.len()
                == old(self).chunks@.len() + 1 && final(self).chunks@.last().data@.len() == old(
                self,
            ).grow_size(layouts@, class as int) && final(self).committed == old(self).committed
                + old(self).grow_size(layouts@, class as int),
            match r {
                Ok(nr) => {
                    &&& final(self).is_object(layouts@, nr)
                    &&& final(self).class_of(nr) == class as int
                    &&& forall|j: int|
                        0 <= j < class_size(layouts@, class as int) - 1
                            ==> #[trigger] final(self).field_of(nr, j) == (Value { bits: 0 })
                    &&& forall|r2: ObjRef|
                        old(self).is_object(layouts@, r2) ==> #[trigger] final(self).is_object(
                            layouts@,
                            r2,
                        ) && final(self).class_of(r2) == old(self).class_of(r2)
                    &&& forall|r2: ObjRef, j: int|
                        old(self).is_object(layouts@, r2) && 0 <= j < class_size(
                            layouts@,
                            old(self).class_of(r2),
                        ) - 1 ==> #[trigger] final(self).field_of(r2, j) == old(self).field_of(
                            r2,
                            j,
                        )
                    &&& !old(self).is_object(layouts@, nr)
                    &&& final(self).committed <= final(self).ceiling || final(self).committed
                        == old(self).committed
                },
                Err(e) => {
                    &&& e == VmError::HeapExhausted
                    &&& *final(self) == *old(self)
                },
            },
    {
        let size = 1 + layouts[class].is_ref.len();
        let nchunks = self.chunks.len();
        let mut target: Option<usize> = None;
        if nchunks > 0 {
            let last = &self.chunks[nchunks - 1];
            if size <= last.data.len() - last.cursor {
                target = Some(nchunks - 1);
            }
        }
        let ci: usize;
        match target {
            Some(c) => {
                ci = c;
            },
            None => {
                // The current chunk lacks room: append a new one, sized
                // to at least the configured minimum or the request,
                // if the ceiling allows.
                if nchunks >= 0x7fff_fffe {
                    return Err(VmError::HeapExhausted);
                }
                let want = if size > self.min_chunk {
                    size
                } else {
                    self.min_chunk
                };
                if want > self.ceiling - self.committed {
                    return Err(VmError::HeapExhausted);
                }
                let ghost pre_grow = *self;
                let mut data: Vec<Value> = Vec::new();
                while data.len() < want
                    invariant
                        data@.len() <= want,
                    decreases want - data@.len(),
                {
                    data.push(Value::null());
                }
                self.chunks.push(Chunk { data, cursor: 0 });
                self.committed = self.committed + want;
                proof {
                    assert(self.chunks@.drop_last() =~= pre_grow.chunks@);
                    assert(tile(self.chunks@[nchunks as int].data@, layouts@, 0, 0)
                        == Some(Seq::<int>::empty()));
                    assert forall|c: int|
                        0 <= c < pre_grow.chunks@.len() implies (#[trigger] self.chunks@[c])
                        == pre_grow.chunks@[c] by {}
                }
                ci = nchunks;
            },
        }
        let ghost pre = *self;
        let base = self.chunks[ci].cursor;
        proof {
            lemma_tile_offsets(pre.chunks@[ci as int].data@, layouts@, 0, base as int);
        }
        // Write the header and zero the fields.
        let chunk = &mut self.chunks[ci];
        chunk_set(chunk, base, Value { bits: class as u64 });
        let mut j: usize = 0;
        while j < size - 1
            invariant
                j <= size - 1,
                size == class_size(layouts@, class as int),
                base + size <= chunk.data@.len(),
                chunk.data@.len() == pre.chunks@[ci as int].data@.len(),
                chunk.cursor == base,
                chunk.data@[base as int].bits == class as u64,
                forall|q: int| 0 <= q < base ==> chunk.data@[q] == pre.chunks@[ci as int].data@[q],
                forall|q: int| base < q <= base + j ==> chunk.data@[q] == (Value { bits: 0 }),
            decreases size - 1 - j,
        {
            chunk_set(chunk, base + 1 + j, Value::null());
            j = j + 1;
        }
        chunk.cursor = base + size;
        let nr = ObjRef { chunk: ci, slot: base };
        proof {
            let ci_i = ci as int;
            let old_data = pre.chunks@[ci_i].data@;
            let new_data = self.chunks@[ci_i].data@;
            lemma_tile_agree(old_data, new_data, layouts@, 0, base as int);
            lemma_tile_extend(new_data, layouts@, 0, base as int, class as int);
            let old_objs = tile(new_data, layouts@, 0, base as int)->Some_0;
            lemma_tile_offsets(new_data, layouts@, 0, base + size);
            assert(self.objects_of(layouts@, ci_i) == old_objs + seq![base as int]);
            assert(self.objects_of(layouts@, ci_i).contains(base as int)) by {
                assert(self.objects_of(layouts@, ci_i)[old_objs.len() as int] == base as int);
            }
            assert forall|c: int|
                0 <= c < self.chunks@.len() && c != ci_i implies (#[trigger] self.chunks@[c])
                == pre.chunks@[c] by {}
            assert(Heap::sum_committed(self.chunks@) == Heap::sum_committed(pre.chunks@)) by {
                lemma_sum_committed_same(pre.chunks@, self.chunks@);
            }
            assert forall|r2: ObjRef|
                pre.is_object(layouts@, r2) implies #[trigger] self.is_object(layouts@, r2)
                && self.class_of(r2) == pre.class_of(r2) by {
                if r2.chunk as int == ci_i {
                    assert(old_objs.contains(r2.slot as int)) by {
                        lemma_tile_agree(old_data, new_data, layouts@, 0, base as int);
                    }
                    let k = choose|k: int| 0 <= k < old_objs.len() && old_objs[k] == r2.slot as int;
                    assert((old_objs + seq![base as int])[k] == r2.slot as int);
                    assert(r2.slot < base);
                }
            }
            assert forall|r2: ObjRef, j2: int|
                pre.is_object(layouts@, r2) && 0 <= j2 < class_size(
                    layouts@,
                    pre.class_of(r2),
                ) - 1 implies #[trigger] self.field_of(r2, j2) == pre.field_of(r2, j2) by {
                if r2.chunk as int == ci_i {
                    lemma_object_in_bounds(pre, layouts@, r2);
                }
            }
            assert(!pre.is_object(layouts@, nr)) by {
                lemma_tile_offsets(old_data, layouts@, 0, base as int);
                if pre.objects_of(layouts@, ci_i).contains(base as int) {
                    let k = choose|k: int|
                        0 <= k < old_objs.len() && pre.objects_of(layouts@, ci_i)[k] == base as int;
                }
            }
        }
        Ok(nr)
    }
}

/// Whether the header at `off` names a class of the table.
pub open spec fn data_class_ok(data: Seq<Value>, layouts: Seq<ClassLayout>, off: int) -> bool {
    (data[off].bits as int) < layouts.len()
}

/// Writes one slot of a chunk.
fn chunk_set(chunk: &mut Chunk, p: usize, v: Value)
    requires
        p < old(chunk).data@.len(),
    ensures
        final(chunk).data@ == old(chunk).data@.update(p as int, v),
        final(chunk).cursor == old(chunk).cursor,
{
    chunk.data.set(p, v);
}

/// Every object on a well-formed heap lies inside its chunk, below the
/// cursor, with its class in the table.
pub proof fn lemma_object_in_bounds(h: Heap, layouts: Seq<ClassLayout>, r: ObjRef)
    requires
        h.wf(layouts),
        h.is_object(layouts, r),
    ensures
        r.slot + class_size(layouts, h.class_of(r)) <= h.chunks@[r.chunk as int].cursor,
        0 <= h.class_of(r) < layouts.len(),
{
    let ci = r.chunk as int;
    let data = h.chunks@[ci].data@;
    let cursor = h.chunks@[ci].cursor as int;
    lemma_tile_offsets(data, layouts, 0, cursor);
    let objs = h.objects_of(layouts, ci);
    let k = choose|k: int| 0 <= k < objs.len() && objs[k] == r.slot as int;
    assert(objs[k] == r.slot as int);
    if k + 1 < objs.len() {
        assert(objs[k] < objs[k + 1]);
    }
}

/// Two distinct objects of one chunk occupy disjoint slot runs.
pub proof fn lemma_distinct_objects_disjoint(h: Heap, layouts: Seq<ClassLayout>, a: ObjRef, b: ObjRef)
    requires
        h.wf(layouts),
        h.is_object(layouts, a),
        h.is_object(layouts, b),
        a.chunk == b.chunk,
        a.slot != b.slot,
    ensures
        b.slot + class_size(layouts, h.class_of(b)) <= a.slot || a.slot + class_size(
            layouts,
            h.class_of(a),
        ) <= b.slot,
{
    let ci = a.chunk as int;
    let data = h.chunks@[ci].data@;
    let cursor = h.chunks@[ci].cursor as int;
    lemma_tile_offsets(data, layouts, 0, cursor);
    let objs = h.objects_of(layouts, ci);
    let ka = choose|k: int| 0 <= k < objs.len() && objs[k] == a.slot as int;
    let kb = choose|k: int| 0 <= k < objs.len() && objs[k] == b.slot as int;
    if ka < kb {
        lemma_adjacent_le(objs, data, layouts, cursor, ka, kb);
    } else {
        lemma_adjacent_le(objs, data, layouts, cursor, kb, ka);
    }
}

/// Inside a tiled offsets sequence, an earlier object ends at or before
/// a later one begins.
proof fn lemma_adjacent_le(
    objs: Seq<int>,
    data: Seq<Value>,
    layouts: Seq<ClassLayout>,
    cursor: int,
    i: int,
    j: int,
)
    requires
        0 <= i < j < objs.len(),
        forall|a: int, b: int| 0 <= a < b < objs.len() ==> objs[a] < objs[b],
        forall|a: int|
            0 <= a < objs.len() ==> {
                let c = data[#[trigger] objs[a]].bits as int;
                &&& 0 <= c < layouts.len()
                &&& objs[a] + class_size(layouts, c) == if a + 1 < objs.len() {
                    objs[a + 1]
                } else {
                    cursor
                }
            },
    ensures
        objs[i] + class_size(layouts, data[objs[i]].bits as int) <= objs[j],
{
    assert(objs[i] + class_size(layouts, data[objs[i]].bits as int) == objs[i + 1]);
    if i + 1 < j {
        assert(objs[i + 1] < objs[j]);
    }
}

/// A field slot of an object is never another object's header.
proof fn lemma_field_not_header(h: Heap, layouts: Seq<ClassLayout>, r: ObjRef, i: int)
    requires
        h.wf(layouts),
        h.is_object(layouts, r),
        0 <= i < class_size(layouts, h.class_of(r)) - 1,
    ensures
        !h.objects_of(layouts, r.chunk as int).contains(r.slot + 1 + i),
{
    let ci = r.chunk as int;
    let data = h.chunks@[ci].data@;
    let cursor = h.chunks@[ci].cursor as int;
    lemma_tile_offsets(data, layouts, 0, cursor);
    let objs = h.objects_of(layouts, ci);
    let p = r.slot + 1 + i;
    if objs.contains(p) {
        let kp = choose|k: int| 0 <= k < objs.len() && objs[k] == p;
        let kr = choose|k: int| 0 <= k < objs.len() && objs[k] == r.slot as int;
        if kr < kp {
            lemma_adjacent_le(objs, data, layouts, cursor, kr, kp);
        } else {
            assert(kp < kr);
            lemma_adjacent_le(objs, data, layouts, cursor, kp, kr);
        }
    }
}

/// Two chunk sequences of equal lengths whose chunks have equal data
/// lengths commit the same slot count.
proof fn lemma_sum_committed_same(c1: Seq<Chunk>, c2: Seq<Chunk>)
    requires
        c1.len() == c2.len(),
        forall|i: int| 0 <= i < c1.len() ==> (#[trigger] c1[i]).data@.len() == c2[i].data@.len(),
    ensures
        Heap::sum_committed(c1) == Heap::sum_committed(c2),
    decreases c1.len(),
{
    if c1.len() > 0 {
        lemma_sum_committed_same(c1.drop_last(), c2.drop_last());
        assert(c1[c1.len() - 1].data@.len() == c2[c2.len() - 1].data@.len());
    }
}


/// Growing the layout table does not change how existing chunks tile:
/// tiling only reads the classes its headers already name.
pub proof fn lemma_tile_more_layouts(
    data: Seq<Value>,
    l1: Seq<ClassLayout>,
    l2: Seq<ClassLayout>,
    off: int,
    cursor: int,
)
    requires
        0 <= off <= cursor,
        tile(data, l1, off, cursor) is Some,
        l1.len() <= l2.len(),
        forall|i: int| 0 <= i < l1.len() ==> l2[i] == l1[i],
    ensures
        tile(data, l2, off, cursor) == tile(data, l1, off, cursor),
    decreases cursor - off,
{
    if off < cursor {
        let c = data[off].bits as int;
        let sz = class_size(l1, c);
        assert(class_size(l2, c) == sz);
        lemma_tile_more_layouts(data, l1, l2, off + sz, cursor);
    }
}


/// The old-to-new handle remap the collector publishes: per chunk, per
/// slot, the new slot of the object that started there, or the sentinel
/// where no surviving object started.
pub struct Remap {
    pub moves: Vec<Vec<u32>>,
}

impl Remap {
    /// Whether the handle survived collection.
    pub open spec fn in_dom(self, r: ObjRef) -> bool {
        &&& (r.chunk as int) < self.moves@.len()
        &&& (r.slot as int) < self.moves@[r.chunk as int]@.len()
        &&& self.moves@[r.chunk as int]@[r.slot as int] != u32::MAX
    }

    /// The handle's post-compaction address; objects never change
    /// chunk.
    pub open spec fn target(self, r: ObjRef) -> ObjRef {
        ObjRef { chunk: r.chunk, slot: self.moves@[r.chunk as int]@[r.slot as int] as usize }
    }

    /// Looks a handle up in the remap.
    pub fn lookup(&self, r: ObjRef) -> (res: Option<ObjRef>)
        ensures
            match res {
                Some(t) => self.in_dom(r) && t == self.target(r),
                None => !self.in_dom(r),
            },
    {
        if r.chunk >= self.moves.len() {
            return None;
        }
        let row = &self.moves[r.chunk];
        if r.slot >= row.len() {
            return None;
        }
        let m = row[r.slot];
        if m == u32::MAX {
            None
        } else {
            Some(ObjRef { chunk: r.chunk, slot: m as usize })
        }
    }
}

/// A value as the collector's rewrite pass leaves it: a reference into
/// the remap's domain becomes its target's encoding; everything else is
/// untouched.
pub open spec fn rewrite_val(rm: Remap, v: Value) -> Value {
    match v.object() {
        Some(t) => if rm.in_dom(t) {
            Value { bits: ref_bits(rm.target(t).chunk as int, rm.target(t).slot as int) }
        } else {
            v
        },
        None => v,
    }
}

/// Whether the handle is marked in the mark table.
pub open spec fn marked_at(m: Seq<Vec<bool>>, r: ObjRef) -> bool {
    &&& (r.chunk as int) < m.len()
    &&& (r.slot as int) < m[r.chunk as int]@.len()
    &&& m[r.chunk as int]@[r.slot as int]
}

/// The count of unmarked entries of one row, from position `i` on.
pub open spec fn count_false(s: Seq<bool>, i: int) -> int
    decreases s.len() - i,
{
    if i < 0 || i >= s.len() {
        0
    } else {
        (if s[i] {
            0int
        } else {
            1int
        }) + count_false(s, i + 1)
    }
}

/// The count of unmarked entries of the whole table, from row `c` on.
pub open spec fn count_unmarked(m: Seq<Vec<bool>>, c: int) -> int
    decreases m.len() - c,
{
    if c < 0 || c >= m.len() {
        0
    } else {
        count_false(m[c]@, 0) + count_unmarked(m, c + 1)
    }
}

proof fn lemma_count_false_nonneg(s: Seq<bool>, i: int)
    ensures
        count_false(s, i) >= 0,
    decreases s.len() - i,
{
    if 0 <= i < s.len() {
        lemma_count_false_nonneg(s, i + 1);
    }
}

proof fn lemma_count_unmarked_nonneg(m: Seq<Vec<bool>>, c: int)
    ensures
        count_unmarked(m, c) >= 0,
    decreases m.len() - c,
{
    if 0 <= c < m.len() {
        lemma_count_false_nonneg(m[c]@, 0);
        lemma_count_unmarked_nonneg(m, c + 1);
    }
}

proof fn lemma_count_false_update(s: Seq<bool>, j: int, i: int)
    requires
        0 <= j < s.len(),
        !s[j],
    ensures
        0 <= i <= j ==> count_false(s.update(j, true), i) == count_false(s, i) - 1,
        i > j || i < 0 ==> count_false(s.update(j, true), i) == count_false(s, i),
    decreases s.len() - i,
{
    if 0 <= i < s.len() {
        lemma_count_false_update(s, j, i + 1);
    }
}

proof fn lemma_count_unmarked_update(m: Seq<Vec<bool>>, cj: int, j: int, row: Vec<bool>, c: int)
    requires
        0 <= cj < m.len(),
        0 <= j < m[cj]@.len(),
        !m[cj]@[j],
        row@ == m[cj]@.update(j, true),
    ensures
        0 <= c <= cj ==> count_unmarked(m.update(cj, row), c) == count_unmarked(m, c) - 1,
        c > cj || c < 0 ==> count_unmarked(m.update(cj, row), c) == count_unmarked(m, c),
    decreases m.len() - c,
{
    if 0 <= c < m.len() {
        lemma_count_unmarked_update(m, cj, j, row, c + 1);
        if c == cj {
            lemma_count_false_update(m[cj]@, j, 0);
        }
    }
}

/// Whether the field's target is a live object that must survive with
/// its holder: the field is reference-typed and holds a handle to an
/// object on the heap.
pub open spec fn field_target(
    h: Heap,
    layouts: Seq<ClassLayout>,
    a: ObjRef,
    fi: int,
) -> Option<ObjRef> {
    match h.field_of(a, fi).object() {
        Some(t) => if h.is_object(layouts, t) {
            Some(t)
        } else {
            None
        },
        None => None,
    }
}

/// The remap's domain is closed: every surviving object's reference
/// fields with live targets have surviving targets.
pub open spec fn remap_closed(h: Heap, layouts: Seq<ClassLayout>, rm: Remap) -> bool {
    forall|a: ObjRef, fi: int|
        rm.in_dom(a) && 0 <= fi < class_size(layouts, h.class_of(a)) - 1
            && layouts[h.class_of(a)].is_ref@[fi] && (#[trigger] field_target(
            h,
            layouts,
            a,
            fi,
        )) is Some ==> rm.in_dom(field_target(h, layouts, a, fi)->Some_0)
}

/// Whether a reference field of `a` holds a live handle to `b`.
pub open spec fn ref_edge(h: Heap, layouts: Seq<ClassLayout>, a: ObjRef, b: ObjRef) -> bool {
    exists|fi: int|
        0 <= fi < class_size(layouts, h.class_of(a)) - 1 && layouts[h.class_of(a)].is_ref@[fi] && (
        #[trigger] field_target(h, layouts, a, fi)) == Some(b)
}

/// A chain of objects from a root, each held by a reference field of
/// the one before it.
pub open spec fn chain_ok(h: Heap, layouts: Seq<ClassLayout>, roots: Seq<ObjRef>, ch: Seq<
    ObjRef,
>) -> bool {
    &&& ch.len() >= 1
    &&& roots.contains(ch[0])
    &&& forall|k: int| 0 <= k < ch.len() - 1 ==> ref_edge(h, layouts, ch[k], #[trigger] ch[k + 1])
}

/// Whether the object is reachable from the root set: some chain of
/// reference fields leads from a root to it.
pub open spec fn reachable(h: Heap, layouts: Seq<ClassLayout>, roots: Seq<ObjRef>, a: ObjRef) -> bool {
    exists|ch: Seq<ObjRef>| #[trigger] chain_ok(h, layouts, roots, ch) && ch.last() == a
}

/// The mark table is closed: every marked object's reference fields
/// with live targets have marked targets.
pub open spec fn mark_closed(h: Heap, layouts: Seq<ClassLayout>, m: Seq<Vec<bool>>) -> bool {
    forall|a: ObjRef, fi: int|
        marked_at(m, a) && h.is_object(layouts, a) && 0 <= fi < class_size(layouts, h.class_of(a))
            - 1 && layouts[h.class_of(a)].is_ref@[fi] && (#[trigger] field_target(
            h,
            layouts,
            a,
            fi,
        )) is Some ==> marked_at(m, field_target(h, layouts, a, fi)->Some_0)
}

/// Like `mark_closed`, with the members of the worklist (and one object
/// currently being processed) exempt.
pub open spec fn mark_closed_except(
    h: Heap,
    layouts: Seq<ClassLayout>,
    m: Seq<Vec<bool>>,
    wl: Seq<ObjRef>,
) -> bool {
    forall|a: ObjRef, fi: int|
        marked_at(m, a) && !wl.contains(a) && h.is_object(layouts, a) && 0 <= fi < class_size(
            layouts,
            h.class_of(a),
        ) - 1 && layouts[h.class_of(a)].is_ref@[fi] && (#[trigger] field_target(
            h,
            layouts,
            a,
            fi,
        )) is Some ==> marked_at(m, field_target(h, layouts, a, fi)->Some_0)
}

impl Heap {
    /// Marks every object reachable from the roots: the returned table
    /// marks only objects, marks every root, and is closed under
    /// following reference fields to live objects.
    #[verifier::loop_isolation(false)]
    #[verifier::rlimit(100)]
    fn mark(&self, layouts: &Vec<ClassLayout>, roots: &Vec<ObjRef>) -> (marked: Vec<Vec<bool>>)
        requires
            self.wf(layouts@),
            forall|k: int|
                0 <= k < roots@.len() ==> self.is_object(layouts@, #[trigger] roots@[k]),
        ensures
            marked@.len() == self.chunks@.len(),
            forall|c: int|
                0 <= c < marked@.len() ==> (#[trigger] marked@[c])@.len()
                    == self.chunks@[c].data@.len(),
            forall|a: ObjRef| marked_at(marked@, a) ==> self.is_object(layouts@, a),
            forall|a: ObjRef|
                #[trigger] marked_at(marked@, a) ==> reachable(*self, layouts@, roots@, a),
            forall|k: int| 0 <= k < roots@.len() ==> marked_at(marked@, #[trigger] roots@[k]),
            mark_closed(*self, layouts@, marked@),
    {
        let mut marked: Vec<Vec<bool>> = Vec::new();
        let nchunks = self.chunks.len();
        let mut c: usize = 0;
        while c < nchunks
            invariant
                marked@.len() == c,
                c <= nchunks,
                forall|q: int|
                    0 <= q < c ==> (#[trigger] marked@[q])@.len() == self.chunks@[q].data@.len(),
                forall|q: int, s: int|
                    0 <= q < c && 0 <= s < marked@[q]@.len() ==> !marked@[q]@[s],
            decreases nchunks - c,
        {
            let n = self.chunks[c].data.len();
            let mut row: Vec<bool> = Vec::new();
            while row.len() < n
                invariant
                    row@.len() <= n,
                    forall|s: int| 0 <= s < row@.len() ==> !row@[s],
                decreases n - row@.len(),
            {
                row.push(false);
            }
            marked.push(row);
            c = c + 1;
        }
        let mut worklist: Vec<ObjRef> = Vec::new();
        // Seed the roots.
        let mut k: usize = 0;
        while k < roots.len()
            invariant
                k <= roots@.len(),
                marked@.len() == self.chunks@.len(),
                forall|q: int|
                    0 <= q < marked@.len() ==> (#[trigger] marked@[q])@.len()
                        == self.chunks@[q].data@.len(),
                forall|a: ObjRef| marked_at(marked@, a) ==> self.is_object(layouts@, a),
                forall|a: ObjRef|
                    #[trigger] marked_at(marked@, a) ==> reachable(*self, layouts@, roots@, a),
                forall|i: int|
                    0 <= i < worklist@.len() ==> marked_at(marked@, #[trigger] worklist@[i]),
                forall|q: int| 0 <= q < k ==> marked_at(marked@, #[trigger] roots@[q]),
                mark_closed_except(*self, layouts@, marked@, worklist@),
            decreases roots@.len() - k,
        {
            let r = roots[k];
            proof {
                lemma_object_in_bounds(*self, layouts@, r);
            }
            if !marked[r.chunk][r.slot] {
                let ghost pre = marked@;
                let ghost wl_before = worklist@;
                set_mark(&mut marked, r);
                worklist.push(r);
                proof {
                    assert(worklist@.drop_last() =~= wl_before);
                    lemma_mark_more(*self, layouts@, pre, marked@, r, worklist@);
                    assert(roots@.contains(r)) by {
                        assert(roots@[k as int] == r);
                    }
                    assert(chain_ok(*self, layouts@, roots@, seq![r]));
                    assert(seq![r].last() == r);
                    assert(reachable(*self, layouts@, roots@, r));
                }
            }
            k = k + 1;
        }
        // Drain the worklist, marking every live target of every
        // reference field.
        loop
            invariant
                marked@.len() == self.chunks@.len(),
                forall|q: int|
                    0 <= q < marked@.len() ==> (#[trigger] marked@[q])@.len()
                        == self.chunks@[q].data@.len(),
                forall|a: ObjRef| marked_at(marked@, a) ==> self.is_object(layouts@, a),
                forall|a: ObjRef|
                    #[trigger] marked_at(marked@, a) ==> reachable(*self, layouts@, roots@, a),
                forall|i: int|
                    0 <= i < worklist@.len() ==> marked_at(marked@, #[trigger] worklist@[i]),
                forall|q: int| 0 <= q < roots@.len() ==> marked_at(marked@, #[trigger] roots@[q]),
                mark_closed_except(*self, layouts@, marked@, worklist@),
            decreases count_unmarked(marked@, 0), worklist@.len(),
        {
            let ghost wl_pre_pop = worklist@;
            let a = match worklist.pop() {
                Some(a) => a,
                None => {
                    break;
                },
            };
            let ghost wl_after_pop = worklist@;
            let ghost c0 = count_unmarked(marked@, 0);
            proof {
                assert(wl_pre_pop =~= worklist@.push(a));
            }
            let rc = self.read_class(layouts, a);
            let nf = layouts[rc].is_ref.len();
            proof {
                lemma_object_in_bounds(*self, layouts@, a);
            }
            let mut fi: usize = 0;
            while fi < nf
                invariant
                    fi <= nf,
                    rc as int == self.class_of(a),
                    nf == layouts@[rc as int].is_ref@.len(),
                    self.is_object(layouts@, a),
                    marked@.len() == self.chunks@.len(),
                    forall|q: int|
                        0 <= q < marked@.len() ==> (#[trigger] marked@[q])@.len()
                            == self.chunks@[q].data@.len(),
                    forall|aa: ObjRef| marked_at(marked@, aa) ==> self.is_object(layouts@, aa),
                    forall|aa: ObjRef|
                        #[trigger] marked_at(marked@, aa) ==> reachable(
                            *self,
                            layouts@,
                            roots@,
                            aa,
                        ),
                    marked_at(marked@, a),
                    forall|i: int|
                        0 <= i < worklist@.len() ==> marked_at(marked@, #[trigger] worklist@[i]),
                    forall|q: int|
                        0 <= q < roots@.len() ==> marked_at(marked@, #[trigger] roots@[q]),
                    worklist@.len() >= wl_after_pop.len(),
                    count_unmarked(marked@, 0) + worklist@.len() == c0 + wl_after_pop.len(),
                    mark_closed_except(*self, layouts@, marked@, worklist@.push(a)),
                    forall|fj: int|
                        0 <= fj < fi && layouts@[rc as int].is_ref@[fj] && (
                        #[trigger] field_target(*self, layouts@, a, fj)) is Some ==> marked_at(
                            marked@,
                            field_target(*self, layouts@, a, fj)->Some_0,
                        ),
                decreases nf - fi,
            {
                if layouts[rc].is_ref[fi] {
                    let v = self.get_field(layouts, a, fi);
                    match v.to_object() {
                        Some(t) => {
                            if self.find_object(layouts, t) {
                                proof {
                                    lemma_object_in_bounds(*self, layouts@, t);
                                }
                                if !marked[t.chunk][t.slot] {
                                    let ghost pre = marked@;
                                    let ghost wl_b = worklist@;
                                    set_mark(&mut marked, t);
                                    worklist.push(t);
                                    proof {
                                        assert(worklist@.drop_last() =~= wl_b);
                                        assert(marked@ =~= pre.update(
                                            t.chunk as int,
                                            marked@[t.chunk as int],
                                        ));
                                        lemma_count_unmarked_update(
                                            pre,
                                            t.chunk as int,
                                            t.slot as int,
                                            marked[t.chunk as int],
                                            0,
                                        );
                                        assert(wl_b.push(a).drop_last() =~= wl_b);
                                        lemma_mark_more_during(
                                            *self,
                                            layouts@,
                                            pre,
                                            marked@,
                                            t,
                                            worklist@,
                                            a,
                                        );
                                        assert(marked_at(pre, a));
                                        assert(reachable(*self, layouts@, roots@, a));
                                        let ch = choose|ch: Seq<ObjRef>|
                                            chain_ok(*self, layouts@, roots@, ch) && ch.last()
                                                == a;
                                        let ch2 = ch.push(t);
                                        assert(field_target(*self, layouts@, a, fi as int)
                                            == Some(t));
                                        assert(ref_edge(*self, layouts@, a, t));
                                        assert(chain_ok(*self, layouts@, roots@, ch2)) by {
                                            assert(ch2[0] == ch[0]);
                                            assert forall|k2: int|
                                                0 <= k2 < ch2.len() - 1 implies ref_edge(
                                                *self,
                                                layouts@,
                                                ch2[k2],
                                                #[trigger] ch2[k2 + 1],
                                            ) by {
                                                if k2 < ch.len() - 1 {
                                                    assert(ch2[k2] == ch[k2]);
                                                    assert(ch2[k2 + 1] == ch[k2 + 1]);
                                                } else {
                                                    assert(ch2[k2] == ch.last());
                                                    assert(ch2[k2 + 1] == t);
                                                }
                                            }
                                        }
                                        assert(ch2.last() == t);
                                        assert(reachable(*self, layouts@, roots@, t));
                                    }
                                }
                            }
                        },
                        None => {},
                    }
                }
                fi = fi + 1;
            }
            proof {
                lemma_count_unmarked_nonneg(marked@, 0);
                assert forall|aa: ObjRef, fj: int|
                    marked_at(marked@, aa) && !worklist@.contains(aa) && self.is_object(
                        layouts@,
                        aa,
                    ) && 0 <= fj < class_size(layouts@, self.class_of(aa)) - 1
                    && layouts@[self.class_of(aa)].is_ref@[fj] && (#[trigger] field_target(
                    *self,
                    layouts@,
                    aa,
                    fj,
                )) is Some implies marked_at(
                    marked@,
                    field_target(*self, layouts@, aa, fj)->Some_0,
                ) by {
                    if aa != a {
                        assert(!worklist@.push(a).contains(aa)) by {
                            if worklist@.push(a).contains(aa) {
                                let i = choose|i: int|
                                    0 <= i < worklist@.push(a).len() && worklist@.push(a)[i] == aa;
                                if i < worklist@.len() {
                                    assert(worklist@.contains(aa)) by {
                                        assert(worklist@[i] == aa);
                                    }
                                }
                            }
                        }
                    }
                }
            }
        }
        marked
    }
}

/// Sets one mark bit.
fn set_mark(marked: &mut Vec<Vec<bool>>, r: ObjRef)
    requires
        (r.chunk as int) < old(marked)@.len(),
        (r.slot as int) < old(marked)@[r.chunk as int]@.len(),
    ensures
        final(marked)@.len() == old(marked)@.len(),
        final(marked)@[r.chunk as int]@ == old(marked)@[r.chunk as int]@.update(
            r.slot as int,
            true,
        ),
        forall|q: int|
            0 <= q < old(marked)@.len() && q != r.chunk as int ==> #[trigger] final(marked)@[q]
                == old(marked)@[q],
        marked_at(final(marked)@, r),
        forall|x: ObjRef| marked_at(old(marked)@, x) ==> marked_at(final(marked)@, x),
        forall|x: ObjRef| marked_at(final(marked)@, x) && x != r ==> marked_at(old(marked)@, x),
{
    let row = &mut marked[r.chunk];
    row.set(r.slot, true);
    proof {
        assert forall|x: ObjRef|
            marked_at(old(marked)@, x) implies marked_at(final(marked)@, x) by {
            if x.chunk as int == r.chunk as int {
            }
        }
    }
}

/// Marking a fresh object and pushing it onto the worklist preserves
/// the worklist-exempt closure.
proof fn lemma_mark_more(
    h: Heap,
    layouts: Seq<ClassLayout>,
    pre: Seq<Vec<bool>>,
    post: Seq<Vec<bool>>,
    r: ObjRef,
    wl_post: Seq<ObjRef>,
)
    requires
        mark_closed_except(h, layouts, pre, wl_post.drop_last()),
        wl_post.len() > 0,
        wl_post.last() == r,
        forall|x: ObjRef| marked_at(pre, x) ==> marked_at(post, x),
        forall|x: ObjRef| marked_at(post, x) && x != r ==> marked_at(pre, x),
    ensures
        mark_closed_except(h, layouts, post, wl_post),
{
    assert forall|a: ObjRef, fi: int|
        marked_at(post, a) && !wl_post.contains(a) && h.is_object(layouts, a) && 0 <= fi
            < class_size(layouts, h.class_of(a)) - 1 && layouts[h.class_of(a)].is_ref@[fi] && (
        #[trigger] field_target(h, layouts, a, fi)) is Some implies marked_at(
        post,
        field_target(h, layouts, a, fi)->Some_0,
    ) by {
        assert(a != r) by {
            assert(wl_post[wl_post.len() - 1] == r);
            if a == r {
                assert(wl_post.contains(a)) by {
                    assert(wl_post[wl_post.len() - 1] == a);
                }
            }
        }
        assert(marked_at(pre, a));
        assert(!wl_post.drop_last().contains(a)) by {
            if wl_post.drop_last().contains(a) {
                let i = choose|i: int|
                    0 <= i < wl_post.drop_last().len() && wl_post.drop_last()[i] == a;
                assert(wl_post[i] == a);
                assert(wl_post.contains(a));
            }
        }
    }
}

/// The same preservation, stated for a marking step taken while one
/// object is being processed.
proof fn lemma_mark_more_during(
    h: Heap,
    layouts: Seq<ClassLayout>,
    pre: Seq<Vec<bool>>,
    post: Seq<Vec<bool>>,
    t: ObjRef,
    wl_post: Seq<ObjRef>,
    current: ObjRef,
)
    requires
        mark_closed_except(h, layouts, pre, wl_post.drop_last().push(current)),
        wl_post.len() > 0,
        wl_post.last() == t,
        forall|x: ObjRef| marked_at(pre, x) ==> marked_at(post, x),
        forall|x: ObjRef| marked_at(post, x) && x != t ==> marked_at(pre, x),
    ensures
        mark_closed_except(h, layouts, post, wl_post.push(current)),
{
    assert forall|a: ObjRef, fi: int|
        marked_at(post, a) && !wl_post.push(current).contains(a) && h.is_object(layouts, a) && 0
            <= fi < class_size(layouts, h.class_of(a)) - 1 && layouts[h.class_of(a)].is_ref@[fi]
            && (#[trigger] field_target(h, layouts, a, fi)) is Some implies marked_at(
        post,
        field_target(h, layouts, a, fi)->Some_0,
    ) by {
        assert(a != current) by {
            if a == current {
                assert(wl_post.push(current)[wl_post.len() as int] == current);
                assert(wl_post.push(current).contains(a));
            }
        }
        assert(a != t) by {
            if a == t {
                assert(wl_post.push(current)[wl_post.len() - 1] == wl_post.last());
                assert(wl_post.push(current).contains(a));
            }
        }
        assert(marked_at(pre, a));
        assert(!wl_post.drop_last().push(current).contains(a)) by {
            if wl_post.drop_last().push(current).contains(a) {
                let i = choose|i: int|
                    0 <= i < wl_post.drop_last().push(current).len() && wl_post.drop_last().push(
                        current,
                    )[i] == a;
                if i < wl_post.len() - 1 {
                    assert(wl_post[i] == a);
                    assert(wl_post.push(current).contains(a)) by {
                        assert(wl_post.push(current)[i] == a);
                    }
                }
            }
        }
    }
}



/// The summed slot sizes of the marked objects among the given object
/// start offsets.
pub open spec fn marked_size_sum(
    data: Seq<Value>,
    layouts: Seq<ClassLayout>,
    objs: Seq<int>,
    row: Seq<bool>,
) -> int
    decreases objs.len(),
{
    if objs.len() == 0 {
        0
    } else {
        (if row[objs[0]] {
            class_size(layouts, data[objs[0]].bits as int)
        } else {
            0int
        }) + marked_size_sum(data, layouts, objs.skip(1), row)
    }
}

/// The summed slot sizes of the objects of chunk `c` that survive under
/// the remap.
pub open spec fn surviving_size_sum(
    data: Seq<Value>,
    layouts: Seq<ClassLayout>,
    objs: Seq<int>,
    rm: Remap,
    c: int,
) -> int
    decreases objs.len(),
{
    if objs.len() == 0 {
        0
    } else {
        (if rm.in_dom(ObjRef { chunk: c as usize, slot: objs[0] as usize }) {
            class_size(layouts, data[objs[0]].bits as int)
        } else {
            0int
        }) + surviving_size_sum(data, layouts, objs.skip(1), rm, c)
    }
}

/// Two sums whose indicators agree pointwise are equal.
proof fn lemma_sums_agree(
    data: Seq<Value>,
    layouts: Seq<ClassLayout>,
    objs: Seq<int>,
    row: Seq<bool>,
    rm: Remap,
    c: int,
)
    requires
        forall|k: int|
            0 <= k < objs.len() ==> (row[#[trigger] objs[k]] <==> rm.in_dom(
                ObjRef { chunk: c as usize, slot: objs[k] as usize },
            )),
    ensures
        surviving_size_sum(data, layouts, objs, rm, c) == marked_size_sum(data, layouts, objs, row),
    decreases objs.len(),
{
    if objs.len() > 0 {
        assert(objs[0] == objs.skip(0)[0]);
        assert forall|k: int|
            0 <= k < objs.skip(1).len() implies (row[#[trigger] objs.skip(1)[k]] <==> rm.in_dom(
            ObjRef { chunk: c as usize, slot: objs.skip(1)[k] as usize },
        )) by {
            assert(objs.skip(1)[k] == objs[k + 1]);
        }
        lemma_sums_agree(data, layouts, objs.skip(1), row, rm, c);
    }
}

/// Compacts one chunk: every marked object is slid down over the
/// unmarked ones, in order, and its old start offset is mapped to its
/// new one; unmarked objects are simply not copied.  Returns the new
/// slots, the new cursor, and the per-slot move table.
#[verifier::loop_isolation(false)]
#[verifier::rlimit(100)]
fn compact_chunk(data: &Vec<Value>, cursor: usize, layouts: &Vec<ClassLayout>, row: &Vec<bool>) -> (res: (
    Vec<Value>,
    usize,
    Vec<u32>,
))
    requires
        cursor <= data@.len() <= 0xffff_ffff,
        tile(data@, layouts@, 0, cursor as int) is Some,
        row@.len() == data@.len(),
    ensures
        ({
            let (nd, ncur, mv) = res;
            let old_objs = tile(data@, layouts@, 0, cursor as int)->Some_0;
            &&& nd@.len() == data@.len()
            &&& ncur <= cursor
            &&& ncur as int == marked_size_sum(data@, layouts@, old_objs, row@)
            &&& mv@.len() == data@.len()
            &&& tile(nd@, layouts@, 0, ncur as int) is Some
            &&& forall|s: int|
                0 <= s < data@.len() ==> ((#[trigger] mv@[s] != u32::MAX) <==> (old_objs.contains(
                    s,
                ) && row@[s]))
            &&& forall|s: int|
                0 <= s < data@.len() && #[trigger] mv@[s] != u32::MAX ==> {
                    let ns = mv@[s] as int;
                    &&& tile(nd@, layouts@, 0, ncur as int)->Some_0.contains(ns)
                    &&& ns + class_size(layouts@, data@[s].bits as int) <= ncur
                    &&& forall|q: int|
                        0 <= q < class_size(layouts@, data@[s].bits as int)
                            ==> #[trigger] nd@[ns + q] == data@[s + q]
                }
        }),
{
    let ghost old_objs = tile(data@, layouts@, 0, cursor as int)->Some_0;
    proof {
        lemma_tile_offsets(data@, layouts@, 0, cursor as int);
    }
    let mut mv: Vec<u32> = Vec::new();
    while mv.len() < data.len()
        invariant
            mv@.len() <= data@.len(),
            forall|s: int| 0 <= s < mv@.len() ==> mv@[s] == u32::MAX,
        decreases data@.len() - mv@.len(),
    {
        mv.push(u32::MAX);
    }
    let mut out: Vec<Value> = Vec::new();
    let mut off: usize = 0;
    proof {
        assert(old_objs.skip(0) =~= old_objs);
    }
    let mut kk: Ghost<int> = Ghost(0);
    loop
        invariant
            0 <= kk@ <= old_objs.len(),
            off as int == if kk@ < old_objs.len() {
                old_objs[kk@]
            } else {
                cursor as int
            },
            out@.len() <= off,
            out@.len() as int == marked_size_sum(data@, layouts@, old_objs, row@)
                - marked_size_sum(data@, layouts@, old_objs.skip(kk@), row@),
            mv@.len() == data@.len(),
            tile(out@, layouts@, 0, out@.len() as int) is Some,
            forall|s: int|
                0 <= s < data@.len() ==> ((#[trigger] mv@[s] != u32::MAX) <==> (exists|j: int|
                    0 <= j < kk@ && old_objs[j] == s && row@[s])),
            forall|s: int|
                0 <= s < data@.len() && #[trigger] mv@[s] != u32::MAX ==> {
                    let ns = mv@[s] as int;
                    &&& tile(out@, layouts@, 0, out@.len() as int)->Some_0.contains(ns)
                    &&& ns + class_size(layouts@, data@[s].bits as int) <= out@.len()
                    &&& forall|q: int|
                        0 <= q < class_size(layouts@, data@[s].bits as int)
                            ==> #[trigger] out@[ns + q] == data@[s + q]
                },
        decreases cursor - off,
    {
        if off >= cursor {
            break;
        }
        let nl = layouts.len();
        proof {
            assert(kk@ < old_objs.len());
            assert(old_objs[kk@] == off as int);
            assert((data@[off as int].bits as int) < layouts@.len());
            assert(off as int + class_size(layouts@, data@[off as int].bits as int)
                <= cursor as int);
        }
        let c = data[off].bits as usize;
        let sz = 1 + layouts[c].is_ref.len();
        proof {
            assert(sz as int == class_size(layouts@, c as int));
        }
        if row[off] {
            let dest = out.len();
            let ghost pre_out = out@;
            let mut q: usize = 0;
            while q < sz
                invariant
                    q <= sz,
                    out@.len() == dest + q,
                    out@ =~= pre_out + data@.subrange(off as int, off + q),
                decreases sz - q,
            {
                out.push(data[off + q]);
                proof {
                    assert(out@ =~= pre_out + data@.subrange(off as int, off + q + 1));
                }
                q = q + 1;
            }
            let ghost pre_mv = mv@;
            mv.set(off, dest as u32);
            proof {
                assert(out@[dest as int] == data@[off as int]);
                lemma_tile_agree(pre_out, out@, layouts@, 0, dest as int);
                lemma_tile_extend(out@, layouts@, 0, dest as int, c as int);
                let new_objs = tile(out@, layouts@, 0, out@.len() as int)->Some_0;
                let ghost prev_objs = tile(pre_out, layouts@, 0, dest as int)->Some_0;
                assert(new_objs == prev_objs + seq![dest as int]);
                assert(new_objs.contains(dest as int)) by {
                    assert(new_objs[prev_objs.len() as int] == dest as int);
                }
                assert forall|s: int|
                    0 <= s < data@.len() && #[trigger] mv@[s] != u32::MAX implies {
                    let ns = mv@[s] as int;
                    &&& tile(out@, layouts@, 0, out@.len() as int)->Some_0.contains(ns)
                    &&& ns + class_size(layouts@, data@[s].bits as int) <= out@.len()
                    &&& forall|q2: int|
                        0 <= q2 < class_size(layouts@, data@[s].bits as int)
                            ==> #[trigger] out@[ns + q2] == data@[s + q2]
                } by {
                    if s != off as int {
                        assert(pre_mv[s] == mv@[s]);
                        assert(prev_objs.contains(mv@[s] as int)) by {
                            let j = choose|j: int|
                                0 <= j < prev_objs.len() && prev_objs[j] == pre_mv[s] as int;
                            assert(new_objs[j] == prev_objs[j]);
                        }
                        assert(new_objs.contains(mv@[s] as int)) by {
                            let j = choose|j: int|
                                0 <= j < prev_objs.len() && prev_objs[j] == mv@[s] as int;
                            assert(new_objs[j] == prev_objs[j]);
                        }
                    }
                }
                assert forall|s: int|
                    0 <= s < data@.len() implies ((#[trigger] mv@[s] != u32::MAX) <==> (
                exists|j: int| 0 <= j < kk@ + 1 && old_objs[j] == s && row@[s])) by {
                    if s == off as int {
                        assert(old_objs[kk@] == s && row@[s]);
                    } else {
                        assert(mv@[s] == pre_mv[s]);
                        if exists|j: int| 0 <= j < kk@ + 1 && old_objs[j] == s && row@[s] {
                            let j = choose|j: int|
                                0 <= j < kk@ + 1 && old_objs[j] == s && row@[s];
                            assert(j < kk@ || j == kk@);
                        }
                    }
                }
            }
        } else {
            proof {
                assert forall|s: int|
                    0 <= s < data@.len() implies ((#[trigger] mv@[s] != u32::MAX) <==> (
                exists|j: int| 0 <= j < kk@ + 1 && old_objs[j] == s && row@[s])) by {
                    if s == off as int {
                    } else {
                        if exists|j: int| 0 <= j < kk@ + 1 && old_objs[j] == s && row@[s] {
                            let j = choose|j: int|
                                0 <= j < kk@ + 1 && old_objs[j] == s && row@[s];
                            assert(j < kk@ || j == kk@);
                        }
                    }
                }
            }
        }
        proof {
            assert(old_objs.skip(kk@)[0] == old_objs[kk@]);
            assert(old_objs.skip(kk@).skip(1) =~= old_objs.skip(kk@ + 1));
        }
        off = off + sz;
        kk = Ghost(kk@ + 1);
    }
    proof {
        assert(kk@ == old_objs.len());
        assert(old_objs.skip(kk@) =~= Seq::<int>::empty());
    }
    let ncur = out.len();
    let ghost compacted = out@;
    while out.len() < data.len()
        invariant
            ncur <= out@.len() <= data@.len(),
            out@.subrange(0, ncur as int) =~= compacted,
            compacted.len() == ncur,
        decreases data@.len() - out@.len(),
    {
        out.push(Value { bits: 0 });
    }
    proof {
        lemma_tile_agree(compacted, out@, layouts@, 0, ncur as int);
        assert forall|s: int|
            0 <= s < data@.len() && #[trigger] mv@[s] != u32::MAX implies {
            let ns = mv@[s] as int;
            &&& tile(out@, layouts@, 0, ncur as int)->Some_0.contains(ns)
            &&& ns + class_size(layouts@, data@[s].bits as int) <= ncur
            &&& forall|q: int|
                0 <= q < class_size(layouts@, data@[s].bits as int) ==> #[trigger] out@[ns + q]
                    == data@[s + q]
        } by {
            assert forall|q: int|
                0 <= q < class_size(layouts@, data@[s].bits as int) implies #[trigger] out@[mv@[s]
                + q] == data@[s + q] by {
                assert(out@[mv@[s] + q] == compacted[mv@[s] + q]);
            }
        }
    }
    (out, ncur, mv)
}


/// Rewrites every reference field of every object in one chunk through
/// the remap, leaving headers, non-reference fields, references outside
/// the remap's domain, and the tiling untouched.
#[verifier::loop_isolation(false)]
#[verifier::rlimit(100)]
fn rewrite_chunk_data(data: &Vec<Value>, cursor: usize, layouts: &Vec<ClassLayout>, rm: &Remap) -> (out: Vec<
    Value,
>)
    requires
        cursor <= data@.len() <= 0xffff_ffff,
        tile(data@, layouts@, 0, cursor as int) is Some,
        rm.moves@.len() <= 0x7fff_fffe,
    ensures
        out@.len() == data@.len(),
        tile(out@, layouts@, 0, cursor as int) == tile(data@, layouts@, 0, cursor as int),
        ({
            let objs = tile(data@, layouts@, 0, cursor as int)->Some_0;
            &&& forall|b: int| objs.contains(b) ==> #[trigger] out@[b] == data@[b]
            &&& forall|b: int, fi: int|
                objs.contains(b) && 0 <= fi < class_size(layouts@, data@[b].bits as int) - 1
                    ==> #[trigger] out@[b + 1 + fi] == (
                if layouts@[data@[b].bits as int].is_ref@[fi] {
                    rewrite_val(*rm, data@[b + 1 + fi])
                } else {
                    data@[b + 1 + fi]
                })
        }),
{
    let ghost objs = tile(data@, layouts@, 0, cursor as int)->Some_0;
    proof {
        lemma_tile_offsets(data@, layouts@, 0, cursor as int);
    }
    let mut out: Vec<Value> = Vec::new();
    let mut off: usize = 0;
    let mut kk: Ghost<int> = Ghost(0);
    loop
        invariant
            0 <= kk@ <= objs.len(),
            off as int == if kk@ < objs.len() {
                objs[kk@]
            } else {
                cursor as int
            },
            out@.len() == off,
            tile(out@, layouts@, 0, off as int) == Some(objs.subrange(0, kk@)),
            forall|j: int| 0 <= j < kk@ ==> #[trigger] out@[objs[j]] == data@[objs[j]],
            forall|j: int, fi: int|
                0 <= j < kk@ && 0 <= fi < class_size(layouts@, data@[objs[j]].bits as int) - 1
                    ==> #[trigger] out@[objs[j] + 1 + fi] == (
                if layouts@[data@[objs[j]].bits as int].is_ref@[fi] {
                    rewrite_val(*rm, data@[objs[j] + 1 + fi])
                } else {
                    data@[objs[j] + 1 + fi]
                }),
        decreases cursor - off,
    {
        if off >= cursor {
            break;
        }
        let nl = layouts.len();
        proof {
            assert(kk@ < objs.len());
            assert(objs[kk@] == off as int);
            assert((data@[off as int].bits as int) < layouts@.len());
            assert(off as int + class_size(layouts@, data@[off as int].bits as int)
                <= cursor as int);
        }
        let c = data[off].bits as usize;
        let nf = layouts[c].is_ref.len();
        let ghost pre_out = out@;
        out.push(data[off]);
        let mut fi: usize = 0;
        while fi < nf
            invariant
                fi <= nf,
                out@.len() == off + 1 + fi,
                out@ =~= pre_out.push(data@[off as int]) + Seq::new(
                    fi as nat,
                    |j: int|
                        if layouts@[c as int].is_ref@[j] {
                            rewrite_val(*rm, data@[off + 1 + j])
                        } else {
                            data@[off + 1 + j]
                        },
                ),
            decreases nf - fi,
        {
            let v = data[off + 1 + fi];
            let nv = if layouts[c].is_ref[fi] {
                match v.to_object() {
                    Some(t) => match rm.lookup(t) {
                        Some(nt) => Value::nobject(nt),
                        None => v,
                    },
                    None => v,
                }
            } else {
                v
            };
            proof {
                assert(nv == if layouts@[c as int].is_ref@[fi as int] {
                    rewrite_val(*rm, data@[off + 1 + fi])
                } else {
                    data@[off + 1 + fi]
                });
            }
            let ghost mid_out = out@;
            out.push(nv);
            proof {
                assert(out@ =~= pre_out.push(data@[off as int]) + Seq::new(
                    (fi + 1) as nat,
                    |j: int|
                        if layouts@[c as int].is_ref@[j] {
                            rewrite_val(*rm, data@[off + 1 + j])
                        } else {
                            data@[off + 1 + j]
                        },
                ));
            }
            fi = fi + 1;
        }
        proof {
            assert(out@[off as int] == data@[off as int]);
            lemma_tile_agree(pre_out, out@, layouts@, 0, off as int);
            lemma_tile_extend(out@, layouts@, 0, off as int, c as int);
            assert(objs.subrange(0, kk@) + seq![off as int] =~= objs.subrange(0, kk@ + 1));
            assert forall|j: int, fi2: int|
                0 <= j < kk@ + 1 && 0 <= fi2 < class_size(layouts@, data@[objs[j]].bits as int)
                    - 1 implies #[trigger] out@[objs[j] + 1 + fi2] == (
            if layouts@[data@[objs[j]].bits as int].is_ref@[fi2] {
                rewrite_val(*rm, data@[objs[j] + 1 + fi2])
            } else {
                data@[objs[j] + 1 + fi2]
            }) by {
                if j < kk@ {
                    assert(objs[j] + class_size(layouts@, data@[objs[j]].bits as int) <= objs[kk@])
                        by {
                        if j + 1 < objs.len() {
                            if j + 1 < kk@ {
                                assert(objs[j + 1] <= objs[kk@]);
                            }
                        }
                    }
                    assert(out@[objs[j] + 1 + fi2] == pre_out[objs[j] + 1 + fi2]);
                } else {
                    assert(objs[j] == off as int);
                }
            }
        }
        off = off + nf + 1;
        kk = Ghost(kk@ + 1);
    }
    // Keep the open tail as it was.
    while out.len() < data.len()
        invariant
            cursor <= out@.len() <= data@.len(),
            tile(out@, layouts@, 0, cursor as int) == Some(objs),
            forall|j: int| 0 <= j < objs.len() ==> #[trigger] out@[objs[j]] == data@[objs[j]],
            forall|j: int, fi: int|
                0 <= j < objs.len() && 0 <= fi < class_size(layouts@, data@[objs[j]].bits as int)
                    - 1 ==> #[trigger] out@[objs[j] + 1 + fi] == (
                if layouts@[data@[objs[j]].bits as int].is_ref@[fi] {
                    rewrite_val(*rm, data@[objs[j] + 1 + fi])
                } else {
                    data@[objs[j] + 1 + fi]
                }),
        decreases data@.len() - out@.len(),
    {
        let ghost pre = out@;
        let j = out.len();
        out.push(data[j]);
        proof {
            lemma_tile_agree(pre, out@, layouts@, 0, cursor as int);
        }
    }
    proof {
        assert forall|b: int| objs.contains(b) implies #[trigger] out@[b] == data@[b] by {
            let j = choose|j: int| 0 <= j < objs.len() && objs[j] == b;
        }
        assert forall|b: int, fi: int|
            objs.contains(b) && 0 <= fi < class_size(layouts@, data@[b].bits as int)
                - 1 implies #[trigger] out@[b + 1 + fi] == (
        if layouts@[data@[b].bits as int].is_ref@[fi] {
            rewrite_val(*rm, data@[b + 1 + fi])
        } else {
            data@[b + 1 + fi]
        }) by {
            let j = choose|j: int| 0 <= j < objs.len() && objs[j] == b;
        }
    }
    out
}


impl Heap {
    /// Mark-compact collection, stop-the-world, triggered explicitly.
    ///
    /// Marks everything reachable from the caller-supplied roots,
    /// slides the marked objects down within each chunk (unreachable
    /// ones are skipped, implicitly reclaiming their space and
    /// reopening each chunk's tail for allocation), and rewrites every
    /// surviving reference field through the returned old-to-new remap.
    /// The caller must apply the same remap to its own root slots
    /// before resuming.
    ///
    /// Every root survives; everything the remap maps was an object
    /// before, was reachable from the roots (an object unreachable from
    /// every root leaves the remap: its space is reclaimed), and is an
    /// object after, with its class and non-reference fields intact and
    /// its reference fields rewritten; and the domain is closed: a
    /// surviving object's reference fields with live targets have
    /// surviving targets.
    #[verifier::loop_isolation(false)]
    #[verifier::rlimit(100)]
    pub fn collect(&mut self, layouts: &Vec<ClassLayout>, roots: &Vec<ObjRef>) -> (rm: Remap)
        requires
            old(self).wf(layouts@),
            forall|k: int|
                0 <= k < roots@.len() ==> old(self).is_object(layouts@, #[trigger] roots@[k]),
        ensures
            final(self).wf(layouts@),
            final(self).chunks@.len() == old(self).chunks@.len(),
            final(self).committed == old(self).committed,
            final(self).ceiling == old(self).ceiling,
            final(self).min_chunk == old(self).min_chunk,
            forall|c: int|
                0 <= c < old(self).chunks@.len() ==> (#[trigger] final(self).chunks@[c]).cursor
                    <= old(self).chunks@[c].cursor && final(self).chunks@[c].data@.len() == old(
                    self,
                ).chunks@[c].data@.len(),
            forall|c: int|
                0 <= c < old(self).chunks@.len() ==> (#[trigger] final(self).chunks@[c]).cursor
                    as int == surviving_size_sum(
                    old(self).chunks@[c].data@,
                    layouts@,
                    tile(
                        old(self).chunks@[c].data@,
                        layouts@,
                        0,
                        old(self).chunks@[c].cursor as int,
                    )->Some_0,
                    rm,
                    c,
                ),
            rm.moves@.len() == old(self).chunks@.len(),
            forall|k: int| 0 <= k < roots@.len() ==> rm.in_dom(#[trigger] roots@[k]),
            forall|a: ObjRef| #[trigger] rm.in_dom(a) ==> old(self).is_object(layouts@, a),
            forall|a: ObjRef|
                #[trigger] rm.in_dom(a) ==> reachable(*old(self), layouts@, roots@, a),
            forall|a: ObjRef|
                #[trigger] rm.in_dom(a) ==> {
                    &&& final(self).is_object(layouts@, rm.target(a))
                    &&& final(self).class_of(rm.target(a)) == old(self).class_of(a)
                    &&& forall|fi: int|
                        0 <= fi < class_size(layouts@, old(self).class_of(a)) - 1
                            ==> #[trigger] final(self).field_of(rm.target(a), fi) == (
                        if layouts@[old(self).class_of(a)].is_ref@[fi] {
                            rewrite_val(rm, old(self).field_of(a, fi))
                        } else {
                            old(self).field_of(a, fi)
                        })
                },
            remap_closed(*old(self), layouts@, rm),
    {
        let marked = self.mark(layouts, roots);
        let ghost h0 = *self;
        let nchunks = self.chunks.len();
        let mut moves: Vec<Vec<u32>> = Vec::new();
        let mut c: usize = 0;
        while c < nchunks
            invariant
                c <= nchunks,
                moves@.len() == c,
                self.chunks@.len() == nchunks,
                self.committed == h0.committed,
                self.ceiling == h0.ceiling,
                self.min_chunk == h0.min_chunk,
                forall|q: int| c <= q < nchunks ==> #[trigger] self.chunks@[q] == h0.chunks@[q],
                forall|q: int|
                    0 <= q < c ==> {
                        let old_data = h0.chunks@[q].data@;
                        let old_cur = h0.chunks@[q].cursor as int;
                        let old_objs = tile(old_data, layouts@, 0, old_cur)->Some_0;
                        let nd = (#[trigger] self.chunks@[q]).data@;
                        let ncur = self.chunks@[q].cursor as int;
                        let mv = moves@[q]@;
                        &&& nd.len() == old_data.len()
                        &&& ncur <= old_cur
                        &&& ncur == marked_size_sum(old_data, layouts@, old_objs, marked@[q]@)
                        &&& mv.len() == old_data.len()
                        &&& tile(nd, layouts@, 0, ncur) is Some
                        &&& forall|s: int|
                            0 <= s < old_data.len() ==> ((#[trigger] mv[s] != u32::MAX) <==> (
                            old_objs.contains(s) && marked@[q]@[s]))
                        &&& forall|s: int|
                            0 <= s < old_data.len() && #[trigger] mv[s] != u32::MAX ==> {
                                let ns = mv[s] as int;
                                &&& tile(nd, layouts@, 0, ncur)->Some_0.contains(ns)
                                &&& ns + class_size(layouts@, old_data[s].bits as int) <= ncur
                                &&& forall|q2: int|
                                    0 <= q2 < class_size(layouts@, old_data[s].bits as int)
                                        ==> #[trigger] nd[ns + q2] == old_data[s + q2]
                            }
                    },
            decreases nchunks - c,
        {
            let cursor = self.chunks[c].cursor;
            let (nd, ncur, mv) = compact_chunk(&self.chunks[c].data, cursor, layouts, &marked[c]);
            self.chunks.set(c, Chunk { data: nd, cursor: ncur });
            moves.push(mv);
            c = c + 1;
        }
        let ghost gmoves = moves@;
        let ghost h1 = *self;
        proof {
            assert forall|q: int|
                0 <= q < nchunks implies {
                let old_data = h0.chunks@[q].data@;
                let old_cur = h0.chunks@[q].cursor as int;
                let old_objs = tile(old_data, layouts@, 0, old_cur)->Some_0;
                let nd = (#[trigger] h1.chunks@[q]).data@;
                let ncur = h1.chunks@[q].cursor as int;
                let mv = gmoves[q]@;
                &&& nd.len() == old_data.len()
                &&& ncur <= old_cur
                &&& ncur == marked_size_sum(old_data, layouts@, old_objs, marked@[q]@)
                &&& mv.len() == old_data.len()
                &&& tile(nd, layouts@, 0, ncur) is Some
                &&& forall|s: int|
                    0 <= s < old_data.len() ==> ((#[trigger] mv[s] != u32::MAX) <==> (
                    old_objs.contains(s) && marked@[q]@[s]))
                &&& forall|s: int|
                    0 <= s < old_data.len() && #[trigger] mv[s] != u32::MAX ==> {
                        let ns = mv[s] as int;
                        &&& tile(nd, layouts@, 0, ncur)->Some_0.contains(ns)
                        &&& ns + class_size(layouts@, old_data[s].bits as int) <= ncur
                        &&& forall|q2: int|
                            0 <= q2 < class_size(layouts@, old_data[s].bits as int)
                                ==> #[trigger] nd[ns + q2] == old_data[s + q2]
                    }
            } by {
                assert(h1.chunks@[q] == self.chunks@[q]);
            }
        }
        let rm = Remap { moves };
        proof {
            assert(rm.moves@ == gmoves);
        }
        let mut c2: usize = 0;
        while c2 < nchunks
            invariant
                c2 <= nchunks,
                self.chunks@.len() == nchunks,
                self.committed == h1.committed,
                self.ceiling == h1.ceiling,
                self.min_chunk == h1.min_chunk,
                forall|q: int| c2 <= q < nchunks ==> #[trigger] self.chunks@[q] == h1.chunks@[q],
                forall|q: int|
                    0 <= q < c2 ==> {
                        let d1 = h1.chunks@[q].data@;
                        let cur = h1.chunks@[q].cursor as int;
                        let objs = tile(d1, layouts@, 0, cur)->Some_0;
                        let d2 = (#[trigger] self.chunks@[q]).data@;
                        &&& self.chunks@[q].cursor as int == cur
                        &&& d2.len() == d1.len()
                        &&& tile(d2, layouts@, 0, cur) == tile(d1, layouts@, 0, cur)
                        &&& forall|b: int| objs.contains(b) ==> #[trigger] d2[b] == d1[b]
                        &&& forall|b: int, fi: int|
                            objs.contains(b) && 0 <= fi < class_size(layouts@, d1[b].bits as int)
                                - 1 ==> #[trigger] d2[b + 1 + fi] == (
                            if layouts@[d1[b].bits as int].is_ref@[fi] {
                                rewrite_val(rm, d1[b + 1 + fi])
                            } else {
                                d1[b + 1 + fi]
                            })
                    },
            decreases nchunks - c2,
        {
            proof {
                assert(rm.moves@.len() == nchunks <= 0x7fff_fffe);
            }
            let cursor = self.chunks[c2].cursor;
            let nd = rewrite_chunk_data(&self.chunks[c2].data, cursor, layouts, &rm);
            self.chunks.set(c2, Chunk { data: nd, cursor });
            c2 = c2 + 1;
        }
        proof {
            lemma_sum_committed_same(h0.chunks@, self.chunks@);
            assert forall|k: int|
                0 <= k < roots@.len() implies rm.in_dom(#[trigger] roots@[k]) by {
                let r = roots@[k];
                lemma_object_in_bounds(h0, layouts@, r);
                lemma_tile_offsets(
                    h0.chunks@[r.chunk as int].data@,
                    layouts@,
                    0,
                    h0.chunks@[r.chunk as int].cursor as int,
                );
                assert(marked_at(marked@, r));
                assert(h0.objects_of(layouts@, r.chunk as int).contains(r.slot as int));
                let q = r.chunk as int;
                let sl = r.slot as int;
                let hc = h1.chunks@[q];
                assert(hc.data@.len() >= 0);
                assert(sl < h0.chunks@[q].data@.len());
                assert(gmoves[q]@.len() == h0.chunks@[q].data@.len());
                assert(marked@[q]@[sl]);
                assert(tile(h0.chunks@[q].data@, layouts@, 0, h0.chunks@[q].cursor as int)->Some_0.contains(sl));
                assert(gmoves[q]@[sl] != u32::MAX);
                assert(rm.moves@ == gmoves);
            }
            assert forall|a: ObjRef| #[trigger] rm.in_dom(a) implies h0.is_object(
                layouts@,
                a,
            ) by {
                let q = a.chunk as int;
                let s = a.slot as int;
                let hc = h1.chunks@[q];
                assert(hc.data@.len() >= 0);
                assert(rm.moves@ == gmoves);
                assert(gmoves[q]@[s] != u32::MAX);
            }
            assert forall|a: ObjRef| #[trigger] rm.in_dom(a) implies reachable(
                h0,
                layouts@,
                roots@,
                a,
            ) by {
                let q = a.chunk as int;
                let s = a.slot as int;
                let hc = h1.chunks@[q];
                assert(hc.data@.len() >= 0);
                assert(rm.moves@ == gmoves);
                assert(gmoves[q]@[s] != u32::MAX);
                assert(marked_at(marked@, a));
            }
            assert forall|a: ObjRef|
                #[trigger] rm.in_dom(a) implies {
                &&& self.is_object(layouts@, rm.target(a))
                &&& self.class_of(rm.target(a)) == h0.class_of(a)
                &&& forall|fi: int|
                    0 <= fi < class_size(layouts@, h0.class_of(a)) - 1
                        ==> #[trigger] self.field_of(rm.target(a), fi) == (
                    if layouts@[h0.class_of(a)].is_ref@[fi] {
                        rewrite_val(rm, h0.field_of(a, fi))
                    } else {
                        h0.field_of(a, fi)
                    })
            } by {
                let q = a.chunk as int;
                let s = a.slot as int;
                let hc = h1.chunks@[q];
                assert(hc.data@.len() >= 0);
                let sc = self.chunks@[q];
                assert(sc.data@.len() >= 0);
                assert(rm.moves@ == gmoves);
                assert(gmoves[q]@[s] != u32::MAX);
                let ns = gmoves[q]@[s] as int;
                let old_data = h0.chunks@[q].data@;
                let d1 = h1.chunks@[q].data@;
                let cur1 = h1.chunks@[q].cursor as int;
                let objs1 = tile(d1, layouts@, 0, cur1)->Some_0;
                assert(objs1.contains(ns));
                assert(d1[ns] == old_data[s]) by {
                    let q2: int = 0;
                    assert(d1[ns + q2] == old_data[s + q2]);
                }
                lemma_tile_offsets(d1, layouts@, 0, cur1);
                assert forall|fi: int|
                    0 <= fi < class_size(layouts@, h0.class_of(a)) - 1 implies #[trigger] self.field_of(
                    rm.target(a),
                    fi,
                ) == (if layouts@[h0.class_of(a)].is_ref@[fi] {
                    rewrite_val(rm, h0.field_of(a, fi))
                } else {
                    h0.field_of(a, fi)
                }) by {
                    assert(d1[ns + 1 + fi] == old_data[s + 1 + fi]) by {
                        let q2: int = 1 + fi;
                        assert(d1[ns + q2] == old_data[s + q2]);
                    }
                    assert(self.chunks@[q].data@[ns + 1 + fi] == (
                    if layouts@[d1[ns].bits as int].is_ref@[fi] {
                        rewrite_val(rm, d1[ns + 1 + fi])
                    } else {
                        d1[ns + 1 + fi]
                    }));
                }
            }
            assert forall|a: ObjRef, fi: int|
                rm.in_dom(a) && 0 <= fi < class_size(layouts@, h0.class_of(a)) - 1
                    && layouts@[h0.class_of(a)].is_ref@[fi] && (#[trigger] field_target(
                    h0,
                    layouts@,
                    a,
                    fi,
                )) is Some implies rm.in_dom(field_target(h0, layouts@, a, fi)->Some_0) by {
                let t = field_target(h0, layouts@, a, fi)->Some_0;
                let hca = h1.chunks@[a.chunk as int];
                assert(hca.data@.len() >= 0);
                assert(rm.moves@ == gmoves);
                assert(marked_at(marked@, a)) by {
                    assert(gmoves[a.chunk as int]@[a.slot as int] != u32::MAX);
                }
                assert(h0.is_object(layouts@, a));
                assert(marked_at(marked@, t));
                lemma_object_in_bounds(h0, layouts@, t);
                let hct = h1.chunks@[t.chunk as int];
                assert(hct.data@.len() >= 0);
                assert(h0.objects_of(layouts@, t.chunk as int).contains(t.slot as int));
                assert((t.slot as int) < h0.chunks@[t.chunk as int].data@.len());
                assert(gmoves[t.chunk as int]@[t.slot as int] != u32::MAX);
            }
            assert forall|c3: int|
                0 <= c3 < nchunks implies tile(
                (#[trigger] self.chunks@[c3]).data@,
                layouts@,
                0,
                self.chunks@[c3].cursor as int,
            ) is Some by {}
            assert forall|c3: int|
                0 <= c3 < nchunks implies (#[trigger] self.chunks@[c3]).cursor
                as int == surviving_size_sum(
                h0.chunks@[c3].data@,
                layouts@,
                tile(h0.chunks@[c3].data@, layouts@, 0, h0.chunks@[c3].cursor as int)->Some_0,
                rm,
                c3,
            ) by {
                let hc = h1.chunks@[c3];
                assert(hc.data@.len() >= 0);
                let old_data = h0.chunks@[c3].data@;
                let old_cur = h0.chunks@[c3].cursor as int;
                let old_objs = tile(old_data, layouts@, 0, old_cur)->Some_0;
                lemma_tile_offsets(old_data, layouts@, 0, old_cur);
                assert(rm.moves@ == gmoves);
                assert forall|k: int|
                    0 <= k < old_objs.len() implies (marked@[c3]@[#[trigger] old_objs[k]] <==> rm.in_dom(
                    ObjRef { chunk: c3 as usize, slot: old_objs[k] as usize },
                )) by {
                    let sl = old_objs[k];
                    assert(old_objs.contains(sl)) by {
                        assert(old_objs[k] == sl);
                    }
                    assert((gmoves[c3]@[sl] != u32::MAX) <==> (old_objs.contains(sl)
                        && marked@[c3]@[sl]));
                }
                lemma_sums_agree(old_data, layouts@, old_objs, marked@[c3]@, rm, c3);
            }
        }
        rm
    }
}



/// Rewrites every live slot of every frame of a call stack, locals and
/// operand stack alike, through the collector's remap: the closing step
/// of a collection (skipping it would leave the interpreter's root
/// slots pointing at pre-compaction addresses).
#[verifier::loop_isolation(false)]
#[verifier::rlimit(100)]
pub fn rewrite_stack(stack: &mut Stack, rm: &Remap)
    requires
        old(stack).wf(),
        rm.moves@.len() <= 0x7fff_fffe,
    ensures
        final(stack).wf(),
        final(stack).depth() == old(stack).depth(),
        final(stack).capacity() == old(stack).capacity(),
        forall|i: int|
            0 <= i < old(stack).depth() ==> final(stack).frame(i) == old(stack).frame(i),
        forall|i: int|
            0 <= i < old(stack).depth() ==> final(stack).locals_of(i) == old(stack).locals_of(
                i,
            ).map_values(|v: Value| rewrite_val(*rm, v)),
        forall|i: int|
            0 <= i < old(stack).depth() ==> final(stack).stack_of(i) == old(stack).stack_of(
                i,
            ).map_values(|v: Value| rewrite_val(*rm, v)),
{
    let nf = stack.frames.len();
    let mut i: usize = 0;
    while i < nf
        invariant
            i <= nf,
            nf == stack.frames@.len(),
            stack.frames@ == old(stack).frames@,
            stack.slots@.len() == old(stack).slots@.len(),
            forall|j: int|
                0 <= j < stack.slots@.len() && (forall|q: int|
                    0 <= q < i ==> !live_slot(*old(stack), q, j)) ==> stack.slots@[j] == old(
                    stack,
                ).slots@[j],
            forall|q: int, j: int|
                0 <= q < i && #[trigger] live_slot(*old(stack), q, j) ==> stack.slots@[j]
                    == rewrite_val(*rm, old(stack).slots@[j]),
        decreases nf - i,
    {
        let f = stack.frames[i];
        proof {
            crate::stack::lemma_frame_bounds(*old(stack), i as int);
        }
        let live = f.max_locals as usize + f.sp as usize;
        let mut j: usize = 0;
        while j < live
            invariant
                j <= live,
                i < nf,
                live <= f.max_locals + f.max_stack,
                f == old(stack).frames@[i as int],
                nf == stack.frames@.len(),
                stack.frames@ == old(stack).frames@,
                stack.slots@.len() == old(stack).slots@.len(),
                forall|j2: int|
                    0 <= j2 < stack.slots@.len() && !(f.base <= j2 < f.base + j) && (forall|q: int|
                        0 <= q < i ==> !live_slot(*old(stack), q, j2)) ==> stack.slots@[j2] == old(
                        stack,
                    ).slots@[j2],
                forall|q: int, j2: int|
                    0 <= q < i && #[trigger] live_slot(*old(stack), q, j2) ==> stack.slots@[j2]
                        == rewrite_val(*rm, old(stack).slots@[j2]),
                forall|j2: int|
                    f.base <= j2 < f.base + j ==> #[trigger] stack.slots@[j2] == rewrite_val(
                        *rm,
                        old(stack).slots@[j2],
                    ),
            decreases live - j,
        {
            let cap = stack.slots.len();
            proof {
                crate::stack::lemma_frame_bounds(*old(stack), i as int);
                assert(f.base + j < cap);
                assert forall|q: int|
                    0 <= q < i implies !(#[trigger] live_slot(*old(stack), q, f.base + j)) by {
                    crate::stack::lemma_chain(*old(stack), q, i as int);
                }
            }
            let idx = f.base + j;
            let v = stack.slots[idx];
            proof {
                assert(v == old(stack).slots@[idx as int]);
            }
            let nv = match v.to_object() {
                Some(t) => match rm.lookup(t) {
                    Some(nt) => {
                        proof {
                            assert(nt.chunk < 0x7fff_ffff);
                            assert(nt.slot < 0x1_0000_0000);
                        }
                        Value::nobject(nt)
                    },
                    None => v,
                },
                None => v,
            };
            proof {
                assert(nv == rewrite_val(*rm, old(stack).slots@[idx as int]));
            }
            let ghost before = *stack;
            stack.slots.set(idx, nv);
            proof {
                assert forall|q: int, j2: int|
                    0 <= q < i && #[trigger] live_slot(*old(stack), q, j2) implies stack.slots@[j2]
                    == rewrite_val(*rm, old(stack).slots@[j2]) by {
                    crate::stack::lemma_chain(*old(stack), q, i as int);
                    assert(j2 != idx as int);
                    assert(stack.slots@[j2] == before.slots@[j2]);
                }
            }
            j = j + 1;
        }
        proof {
            assert forall|j2: int|
                0 <= j2 < stack.slots@.len() && (forall|q: int|
                    0 <= q < i + 1 ==> !live_slot(*old(stack), q, j2)) implies stack.slots@[j2]
                == old(stack).slots@[j2] by {
                assert(!live_slot(*old(stack), i as int, j2));
                assert(!(f.base <= j2 < f.base + live));
            }
            assert forall|q: int, j2: int|
                0 <= q < i + 1 && #[trigger] live_slot(*old(stack), q, j2) implies stack.slots@[j2]
                == rewrite_val(*rm, old(stack).slots@[j2]) by {
                if q == i {
                    assert(f.base <= j2 < f.base + live);
                }
            }
        }
        i = i + 1;
    }
    proof {
        assert(stack.wf()) by {
            assert(forall|ii: int|
                0 <= ii < stack.depth() ==> #[trigger] stack.frame(ii) == old(stack).frame(ii));
            assert(stack.capacity() == old(stack).capacity());
        }
        assert forall|i2: int|
            0 <= i2 < old(stack).depth() implies stack.locals_of(i2) == old(stack).locals_of(
            i2,
        ).map_values(|v: Value| rewrite_val(*rm, v)) by {
            crate::stack::lemma_frame_bounds(*old(stack), i2);
            assert forall|jj: int|
                old(stack).frame(i2).base <= jj < old(stack).frame(i2).base + old(stack).frame(
                    i2,
                ).max_locals implies #[trigger] stack.slots@[jj] == rewrite_val(
                *rm,
                old(stack).slots@[jj],
            ) by {
                assert(live_slot(*old(stack), i2, jj));
            }
            assert(stack.locals_of(i2) =~= old(stack).locals_of(i2).map_values(
                |v: Value| rewrite_val(*rm, v),
            ));
        }
        assert forall|i2: int|
            0 <= i2 < old(stack).depth() implies stack.stack_of(i2) == old(stack).stack_of(
            i2,
        ).map_values(|v: Value| rewrite_val(*rm, v)) by {
            crate::stack::lemma_frame_bounds(*old(stack), i2);
            assert forall|jj: int|
                old(stack).frame(i2).base <= jj < old(stack).frame(i2).base + old(stack).frame(
                    i2,
                ).max_locals + old(stack).frame(i2).sp implies #[trigger] stack.slots@[jj]
                == rewrite_val(*rm, old(stack).slots@[jj]) by {
                assert(live_slot(*old(stack), i2, jj));
            }
            assert(stack.stack_of(i2) =~= old(stack).stack_of(i2).map_values(
                |v: Value| rewrite_val(*rm, v),
            ));
        }
    }
}

/// Whether slot `j` of the region lies in frame `q`'s live slots: its
/// locals or the occupied part of its operand stack.
pub open spec fn live_slot(s: Stack, q: int, j: int) -> bool {
    s.frame(q).base <= j < s.frame(q).base + s.frame(q).max_locals + s.frame(q).sp
}

/// A chain of objects, each held by a reference field of the one before
/// it, survives collection whole once its head survives: the collector
/// never severs a reachable chain.
pub proof fn lemma_chain_survives(
    h: Heap,
    layouts: Seq<ClassLayout>,
    rm: Remap,
    chain: Seq<ObjRef>,
    fields: Seq<int>,
)
    requires
        remap_closed(h, layouts, rm),
        chain.len() >= 1,
        rm.in_dom(chain[0]),
        fields.len() + 1 == chain.len(),
        forall|k: int|
            0 <= k < fields.len() ==> {
                &&& 0 <= #[trigger] fields[k] < class_size(layouts, h.class_of(chain[k])) - 1
                &&& layouts[h.class_of(chain[k])].is_ref@[fields[k]]
                &&& field_target(h, layouts, chain[k], fields[k]) == Some(chain[k + 1])
            },
    ensures
        forall|k: int| 0 <= k < chain.len() ==> rm.in_dom(#[trigger] chain[k]),
    decreases chain.len(),
{
    if chain.len() > 1 {
        assert(fields[0] == fields[0]);
        assert(rm.in_dom(chain[1])) by {
            assert(field_target(h, layouts, chain[0], fields[0]) is Some);
        }
        assert forall|k: int|
            0 <= k < fields.skip(1).len() implies {
            &&& 0 <= #[trigger] fields.skip(1)[k] < class_size(
                layouts,
                h.class_of(chain.skip(1)[k]),
            ) - 1
            &&& layouts[h.class_of(chain.skip(1)[k])].is_ref@[fields.skip(1)[k]]
            &&& field_target(h, layouts, chain.skip(1)[k], fields.skip(1)[k]) == Some(
                chain.skip(1)[k + 1],
            )
        } by {
            assert(fields.skip(1)[k] == fields[k + 1]);
            assert(chain.skip(1)[k] == chain[k + 1]);
            assert(chain.skip(1)[k + 1] == chain[k + 2]);
        }
        lemma_chain_survives(h, layouts, rm, chain.skip(1), fields.skip(1));
        assert forall|k: int| 0 <= k < chain.len() implies rm.in_dom(#[trigger] chain[k]) by {
            if k >= 1 {
                assert(chain.skip(1)[k - 1] == chain[k]);
                assert(rm.in_dom(chain.skip(1)[k - 1]));
            }
        }
    }
}

} // verus!
