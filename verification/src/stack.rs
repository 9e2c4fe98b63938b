//! The call stack: per-invocation execution records inside one
//! fixed-size region.
//!
//! The region is reserved once, sized by configuration, and never grows.
//! Each call places the new frame's slots immediately above the caller's,
//! so frame push and pop are constant-time; a call that would run past
//! the top of the region reports a stack-overflow condition instead of
//! allocating.  Frames are addressed by index, never by raw address, and
//! a popped frame's slots stay byte-for-byte intact until the next call
//! overwrites them.

use vstd::prelude::*;
use crate::error::VmError;
use crate::things::Value;

verus! {

/// One method invocation's execution record: where its slots start in
/// the region, how many locals and operand-stack slots it owns, its
/// operand-stack depth, its program counter, and which class and method
/// it executes (both as indices into the runtime's class table).
///
/// The frame's slots lie at `base .. base + max_locals + max_stack`:
/// locals occupy the low slots and the operand stack grows above them.
#[derive(Debug, Clone, Copy, PartialEq, Eq, Structural)]
pub struct StackFrame {
    pub base: usize,
    pub max_locals: u16,
    pub max_stack: u16,
    pub sp: u16,
    pub pc: usize,
    pub class: usize,
    pub method: usize,
}

impl StackFrame {
    /// The slot index one past this frame's region.
    pub open spec fn end(self) -> int {
        self.base + self.max_locals + self.max_stack
    }
}

/// The call stack region: a fixed run of value slots and the records of
/// the frames currently placed in it.
pub struct Stack {
    pub slots: Vec<Value>,
    pub frames: Vec<StackFrame>,
}

impl Stack {
    /// The fixed size of the region, in slots.
    pub open spec fn capacity(self) -> int {
        self.slots@.len() as int
    }

    /// How many frames are live.
    pub open spec fn depth(self) -> int {
        self.frames@.len() as int
    }

    /// The frame record at depth `i` (0 is the outermost frame).
    pub open spec fn frame(self, i: int) -> StackFrame {
        self.frames@[i]
    }

    /// The first free slot: the end of the top frame.
    pub open spec fn top(self) -> int {
        if self.depth() == 0 {
            0
        } else {
            self.frame(self.depth() - 1).end()
        }
    }

    /// The locals of frame `i`, as a sequence of `max_locals` values.
    pub open spec fn locals_of(self, i: int) -> Seq<Value> {
        self.slots@.subrange(self.frame(i).base as int, self.frame(i).base + self.frame(
            i,
        ).max_locals)
    }

    /// The operand stack of frame `i`, bottom first, `sp` values deep.
    pub open spec fn stack_of(self, i: int) -> Seq<Value> {
        self.slots@.subrange(
            self.frame(i).base + self.frame(i).max_locals,
            self.frame(i).base + self.frame(i).max_locals + self.frame(i).sp,
        )
    }

    /// Well-formedness: frames tile the region from the bottom, each
    /// operand stack stays within its declared depth, and the top frame
    /// ends inside the region.
    pub open spec fn wf(self) -> bool {
        &&& (self.depth() > 0 ==> self.frame(0).base == 0)
        &&& forall|i: int|
            #![trigger self.frame(i), self.frame(i + 1)]
            0 <= i < self.depth() - 1 ==> self.frame(i + 1).base == self.frame(i).end()
        &&& forall|i: int| 0 <= i < self.depth() ==> (#[trigger] self.frame(i)).sp <= self.frame(
            i,
        ).max_stack
        &&& self.top() <= self.capacity()
    }

    /// The record of the innermost (current) frame.
    pub open spec fn cur_frame(self) -> StackFrame {
        self.frame(self.depth() - 1)
    }

    /// The operand stack of the current frame, bottom first.
    pub open spec fn cur_stack(self) -> Seq<Value> {
        self.stack_of(self.depth() - 1)
    }

    /// The locals of the current frame.
    pub open spec fn cur_locals(self) -> Seq<Value> {
        self.locals_of(self.depth() - 1)
    }

    /// Frames `0 .. n` of the two stacks agree: same records, same
    /// locals, same operand stacks.
    pub open spec fn frames_preserved(pre: Stack, post: Stack, n: int) -> bool {
        &&& forall|i: int| 0 <= i < n ==> pre.frame(i) == #[trigger] post.frame(i)
        &&& forall|i: int| 0 <= i < n ==> pre.locals_of(i) == #[trigger] post.locals_of(i)
        &&& forall|i: int| 0 <= i < n ==> pre.stack_of(i) == #[trigger] post.stack_of(i)
    }

    /// Reserves the region, empty of frames.
    pub fn new(capacity: usize) -> (s: Stack)
        ensures
            s.wf(),
            s.depth() == 0,
            s.capacity() == capacity,
    {
        let mut slots: Vec<Value> = Vec::new();
        while slots.len() < capacity
            invariant
                slots@.len() <= capacity,
            decreases capacity - slots@.len(),
        {
            slots.push(Value::null());
        }
        Stack { slots, frames: Vec::new() }
    }

    /// How many frames are live.
    pub fn frame_count(&self) -> (n: usize)
        ensures
            n == self.depth(),
    {
        self.frames.len()
    }

    /// The record of the top frame.
    pub fn current(&self) -> (f: StackFrame)
        requires
            self.depth() > 0,
        ensures
            f == self.frame(self.depth() - 1),
    {
        self.frames[self.frames.len() - 1]
    }

    /// Places and initializes a new frame immediately above the caller's
    /// top, or reports stack overflow if the region cannot hold it.  The
    /// new frame's locals are zeroed and its operand stack is empty;
    /// every caller frame is untouched.
    #[verifier::rlimit(100)]
    pub fn call(&mut self, max_locals: u16, max_stack: u16, class: usize, method: usize) -> (r:
        Result<(), VmError>)
        requires
            old(self).wf(),
        ensures
            final(self).wf(),
            match r {
                Ok(()) => {
                    &&& final(self).depth() == old(self).depth() + 1
                    &&& Stack::frames_preserved(*old(self), *final(self), old(self).depth())
                    &&& final(self).frame(old(self).depth()) == (StackFrame {
                        base: old(self).top() as usize,
                        max_locals,
                        max_stack,
                        sp: 0,
                        pc: 0,
                        class,
                        method,
                    })
                    &&& final(self).locals_of(old(self).depth()) == Seq::new(
                        max_locals as nat,
                        |k: int| Value { bits: 0 },
                    )
                    &&& final(self).capacity() == old(self).capacity()
                },
                Err(e) => {
                    &&& e == VmError::StackOverflow
                    &&& *final(self) == *old(self)
                    &&& old(self).top() + max_locals + max_stack > old(self).capacity()
                },
            },
    {
        let cap = self.slots.len();
        let d0 = self.frames.len();
        proof {
            if 0 < d0 {
                lemma_frame_bounds(*self, d0 - 1);
            }
        }
        let top = if d0 == 0 {
            0
        } else {
            let f = self.frames[d0 - 1];
            f.base + f.max_locals as usize + f.max_stack as usize
        };
        proof {
            assert(top as int == old(self).top());
        }
        let needed = max_locals as usize + max_stack as usize;
        if needed > cap - top {
            return Err(VmError::StackOverflow);
        }
        let ghost pre = *self;
        // Zero the locals; the operand region above them is exposed only
        // up to the stack pointer, so stale bytes there are unobservable.
        let mut k: usize = 0;
        while k < max_locals as usize
            invariant
                k <= max_locals as usize,
                self.slots@.len() == cap,
                top + max_locals as usize <= self.slots@.len(),
                self.slots@.len() == pre.slots@.len(),
                self.frames@ == pre.frames@,
                forall|j: int| 0 <= j < top ==> self.slots@[j] == pre.slots@[j],
                forall|j: int| top <= j < top + k ==> self.slots@[j] == (Value { bits: 0 }),
                forall|j: int|
                    top + max_locals <= j < self.slots@.len() ==> self.slots@[j] == pre.slots@[j],
            decreases max_locals as usize - k,
        {
            self.slots.set(top + k, Value::null());
            k = k + 1;
        }
        self.frames.push(
            StackFrame { base: top, max_locals, max_stack, sp: 0, pc: 0, class, method },
        );
        proof {
            let d = pre.depth();
            assert(self.frame(d).base == top);
            assert forall|i: int| 0 <= i < d implies pre.frame(i) == #[trigger] self.frame(
                i,
            ) by {
                assert(pre.frames@[i] == self.frames@[i]);
            }
            assert forall|i: int|
                #![trigger self.frame(i), self.frame(i + 1)]
                0 <= i < self.depth() - 1 implies self.frame(i + 1).base == self.frame(
                i,
            ).end() by {
                if i < d - 1 {
                    assert(self.frame(i) == pre.frame(i));
                    assert(self.frame(i + 1) == pre.frame(i + 1));
                } else {
                    assert(i == d - 1);
                    assert(self.frame(i) == pre.frame(i));
                }
            }
            assert forall|i: int| 0 <= i < d implies pre.locals_of(i) == #[trigger] self.locals_of(
                i,
            ) by {
                lemma_frame_bounds(pre, i);
                assert(pre.locals_of(i) =~= self.locals_of(i));
            }
            assert forall|i: int| 0 <= i < d implies pre.stack_of(i) == #[trigger] self.stack_of(
                i,
            ) by {
                lemma_frame_bounds(pre, i);
                assert(pre.stack_of(i) =~= self.stack_of(i));
            }
            assert(self.locals_of(d) =~= Seq::new(max_locals as nat, |j: int| Value { bits: 0 }));
        }
        Ok(())
    }

    /// Discards the current frame and restores the caller as current.
    /// The discarded slots stay in the region untouched; every remaining
    /// frame is untouched.
    #[verifier::rlimit(100)]
    pub fn ret(&mut self)
        requires
            old(self).wf(),
            old(self).depth() > 0,
        ensures
            final(self).wf(),
            final(self).depth() == old(self).depth() - 1,
            Stack::frames_preserved(*old(self), *final(self), final(self).depth()),
            final(self).capacity() == old(self).capacity(),
    {
        let ghost pre = *self;
        self.frames.pop();
        proof {
            assert forall|i: int| 0 <= i < self.depth() implies #[trigger] self.frame(i)
                == pre.frame(i) by {
                assert(pre.frames@[i] == self.frames@[i]);
            }
            assert forall|i: int|
                0 <= i < self.depth() implies pre.locals_of(i) == #[trigger] self.locals_of(
                i,
            ) by {
                assert(pre.frames@[i] == self.frames@[i]);
            }
            assert forall|i: int|
                0 <= i < self.depth() implies pre.stack_of(i) == #[trigger] self.stack_of(i) by {
                assert(pre.frames@[i] == self.frames@[i]);
            }
            if self.depth() > 0 {
                lemma_frame_bounds(pre, self.depth() - 1);
                assert(self.frame(0) == pre.frame(0));
            }
            assert forall|i: int|
                #![trigger self.frame(i), self.frame(i + 1)]
                0 <= i < self.depth() - 1 implies self.frame(i + 1).base == self.frame(
                i,
            ).end() by {
                assert(self.frame(i) == pre.frame(i));
                assert(self.frame(i + 1) == pre.frame(i + 1));
            }
        }
    }

    /// Pushes a value onto the current frame's operand stack.
    #[verifier::rlimit(100)]
    pub fn push(&mut self, v: Value)
        requires
            old(self).wf(),
            old(self).depth() > 0,
            old(self).frame(old(self).depth() - 1).sp < old(self).frame(
                old(self).depth() - 1,
            ).max_stack,
        ensures
            final(self).wf(),
            final(self).depth() == old(self).depth(),
            Stack::frames_preserved(*old(self), *final(self), old(self).depth() - 1),
            final(self).stack_of(final(self).depth() - 1) == old(self).stack_of(
                old(self).depth() - 1,
            ).push(v),
            final(self).locals_of(final(self).depth() - 1) == old(self).locals_of(
                old(self).depth() - 1,
            ),
            final(self).frame(final(self).depth() - 1) == (StackFrame {
                sp: (old(self).frame(old(self).depth() - 1).sp + 1) as u16,
                ..old(self).frame(old(self).depth() - 1)
            }),
            final(self).capacity() == old(self).capacity(),
    {
        let ghost pre = *self;
        let cap = self.slots.len();
        let n = self.frames.len();
        let f = self.frames[n - 1];
        proof {
            lemma_frame_bounds(pre, n - 1 as int);
        }
        let slot = f.base + f.max_locals as usize + f.sp as usize;
        self.slots.set(slot, v);
        let mut f2 = f;
        f2.sp = f.sp + 1;
        self.frames.set(n - 1, f2);
        proof {
            lemma_untouched(pre, *self, n - 1 as int);
            assert(self.stack_of(n - 1 as int) =~= pre.stack_of(n - 1 as int).push(v));
            assert(self.locals_of(n - 1 as int) =~= pre.locals_of(n - 1 as int));
        }
    }

    /// Pops the top of the current frame's operand stack.
    #[verifier::rlimit(100)]
    pub fn pop(&mut self) -> (v: Value)
        requires
            old(self).wf(),
            old(self).depth() > 0,
            old(self).frame(old(self).depth() - 1).sp > 0,
        ensures
            final(self).wf(),
            final(self).depth() == old(self).depth(),
            Stack::frames_preserved(*old(self), *final(self), old(self).depth() - 1),
            v == old(self).stack_of(old(self).depth() - 1).last(),
            final(self).stack_of(final(self).depth() - 1) == old(self).stack_of(
                old(self).depth() - 1,
            ).drop_last(),
            final(self).locals_of(final(self).depth() - 1) == old(self).locals_of(
                old(self).depth() - 1,
            ),
            final(self).frame(final(self).depth() - 1) == (StackFrame {
                sp: (old(self).frame(old(self).depth() - 1).sp - 1) as u16,
                ..old(self).frame(old(self).depth() - 1)
            }),
            final(self).capacity() == old(self).capacity(),
    {
        let ghost pre = *self;
        let cap = self.slots.len();
        let n = self.frames.len();
        let f = self.frames[n - 1];
        proof {
            lemma_frame_bounds(pre, n - 1 as int);
        }
        let slot = f.base + f.max_locals as usize + (f.sp - 1) as usize;
        let v = self.slots[slot];
        let mut f2 = f;
        f2.sp = f.sp - 1;
        self.frames.set(n - 1, f2);
        proof {
            lemma_untouched(pre, *self, n - 1 as int);
            assert(self.stack_of(n - 1 as int) =~= pre.stack_of(n - 1 as int).drop_last());
            assert(self.locals_of(n - 1 as int) =~= pre.locals_of(n - 1 as int));
        }
        v
    }

    /// Reads local `n` of the current frame.
    #[verifier::rlimit(100)]
    pub fn get(&self, n: u16) -> (v: Value)
        requires
            self.wf(),
            self.depth() > 0,
            n < self.frame(self.depth() - 1).max_locals,
        ensures
            v == self.locals_of(self.depth() - 1)[n as int],
    {
        let cap = self.slots.len();
        let d = self.frames.len();
        let f = self.frames[d - 1];
        proof {
            lemma_frame_bounds(*self, d - 1 as int);
        }
        self.slots[f.base + n as usize]
    }

    /// Writes local `n` of the current frame.
    #[verifier::rlimit(100)]
    pub fn set(&mut self, n: u16, v: Value)
        requires
            old(self).wf(),
            old(self).depth() > 0,
            n < old(self).frame(old(self).depth() - 1).max_locals,
        ensures
            final(self).wf(),
            final(self).depth() == old(self).depth(),
            Stack::frames_preserved(*old(self), *final(self), old(self).depth() - 1),
            final(self).locals_of(final(self).depth() - 1) == old(self).locals_of(
                old(self).depth() - 1,
            ).update(n as int, v),
            final(self).stack_of(final(self).depth() - 1) == old(self).stack_of(
                old(self).depth() - 1,
            ),
            final(self).frame(final(self).depth() - 1) == old(self).frame(old(self).depth() - 1),
            final(self).capacity() == old(self).capacity(),
    {
        let ghost pre = *self;
        let cap = self.slots.len();
        let d = self.frames.len();
        let f = self.frames[d - 1];
        proof {
            lemma_frame_bounds(pre, d - 1 as int);
        }
        self.slots.set(f.base + n as usize, v);
        proof {
            lemma_untouched(pre, *self, d - 1 as int);
            assert(self.locals_of(d - 1 as int) =~= pre.locals_of(d - 1 as int).update(
                n as int,
                v,
            ));
            assert(self.stack_of(d - 1 as int) =~= pre.stack_of(d - 1 as int));
        }
    }

    /// Reads the value `n` slots below the top of the current frame's
    /// operand stack (`n == 1` is the top).
    #[verifier::rlimit(100)]
    pub fn peek_n(&self, n: u16) -> (v: Value)
        requires
            self.wf(),
            self.depth() > 0,
            1 <= n <= self.frame(self.depth() - 1).sp,
        ensures
            v == self.stack_of(self.depth() - 1)[self.frame(self.depth() - 1).sp - n],
    {
        let cap = self.slots.len();
        let d = self.frames.len();
        let f = self.frames[d - 1];
        proof {
            lemma_frame_bounds(*self, d - 1 as int);
        }
        self.slots[f.base + f.max_locals as usize + (f.sp - n) as usize]
    }

    /// Reads the top of the current frame's operand stack.
    pub fn peek(&self) -> (v: Value)
        requires
            self.wf(),
            self.depth() > 0,
            self.frame(self.depth() - 1).sp > 0,
        ensures
            v == self.stack_of(self.depth() - 1).last(),
    {
        self.peek_n(1)
    }

    /// Stores the program counter of the current frame.
    #[verifier::rlimit(100)]
    pub fn set_pc(&mut self, pc: usize)
        requires
            old(self).wf(),
            old(self).depth() > 0,
        ensures
            final(self).wf(),
            final(self).depth() == old(self).depth(),
            Stack::frames_preserved(*old(self), *final(self), old(self).depth() - 1),
            final(self).frame(final(self).depth() - 1) == (StackFrame {
                pc,
                ..old(self).frame(old(self).depth() - 1)
            }),
            final(self).locals_of(final(self).depth() - 1) == old(self).locals_of(
                old(self).depth() - 1,
            ),
            final(self).stack_of(final(self).depth() - 1) == old(self).stack_of(
                old(self).depth() - 1,
            ),
            final(self).capacity() == old(self).capacity(),
    {
        let ghost pre = *self;
        let d = self.frames.len();
        let mut f = self.frames[d - 1];
        f.pc = pc;
        self.frames.set(d - 1, f);
        proof {
            lemma_untouched(pre, *self, d - 1 as int);
            assert(self.locals_of(d - 1 as int) =~= pre.locals_of(d - 1 as int));
            assert(self.stack_of(d - 1 as int) =~= pre.stack_of(d - 1 as int));
        }
    }
}

/// Inside a well-formed stack, every frame's slots lie within the region
/// and below the top.
pub proof fn lemma_frame_bounds(s: Stack, i: int)
    requires
        s.wf(),
        0 <= i < s.depth(),
    ensures
        s.frame(i).end() <= s.top() <= s.capacity(),
        i < s.depth() - 1 ==> s.frame(i).end() <= s.frame(s.depth() - 1).base,
{
    if i < s.depth() - 1 {
        lemma_chain(s, i, s.depth() - 1);
    }
}

/// Two stacks with identical frame records whose slots agree outside the
/// top frame's region have identical lower frames.
#[verifier::rlimit(100)]
proof fn lemma_untouched(pre: Stack, post: Stack, t: int)
    requires
        pre.wf(),
        0 <= t == pre.depth() - 1,
        post.depth() == pre.depth(),
        post.slots@.len() == pre.slots@.len(),
        forall|i: int| 0 <= i < t ==> pre.frame(i) == #[trigger] post.frame(i),
        post.frame(t).base == pre.frame(t).base,
        post.frame(t).max_locals == pre.frame(t).max_locals,
        post.frame(t).max_stack == pre.frame(t).max_stack,
        post.frame(t).sp <= post.frame(t).max_stack,
        forall|j: int|
            0 <= j < pre.frame(t).base ==> pre.slots@[j] == #[trigger] post.slots@[j],
    ensures
        post.wf(),
        Stack::frames_preserved(pre, post, t),
        post.top() == pre.top(),
        post.capacity() == pre.capacity(),
{
    assert forall|i: int| 0 <= i < t implies pre.locals_of(i) == #[trigger] post.locals_of(i) by {
        lemma_frame_bounds(pre, i);
        if i < t {
            assert(pre.frame(i).end() <= pre.frame(t).base) by {
                lemma_chain(pre, i, t);
            }
        }
        assert(pre.locals_of(i) =~= post.locals_of(i));
    }
    assert forall|i: int| 0 <= i < t implies pre.stack_of(i) == #[trigger] post.stack_of(i) by {
        lemma_frame_bounds(pre, i);
        if i < t {
            assert(pre.frame(i).end() <= pre.frame(t).base) by {
                lemma_chain(pre, i, t);
            }
        }
        assert(pre.stack_of(i) =~= post.stack_of(i));
    }
}

/// Frame regions are ordered: an earlier frame ends at or before a later
/// frame begins.
pub proof fn lemma_chain(s: Stack, i: int, j: int)
    requires
        s.wf(),
        0 <= i < j < s.depth(),
    ensures
        s.frame(i).end() <= s.frame(j).base,
    decreases j - i,
{
    if i + 1 == j {
        assert(s.frame(i + 1).base == s.frame(i).end());
    } else {
        lemma_chain(s, i, j - 1);
        assert(s.frame(j - 1 + 1).base == s.frame(j - 1).end());
    }
}

/// Frame isolation: a call that returns leaves every one of the caller's
/// frames exactly as it found them.
///
/// `pre` is the stack before a frame is placed, `mid` the stack at any
/// point while the callee runs (the callee and its own callees only ever
/// touch frames above the caller's), and `post` the stack after the
/// callee's frame is discarded: every frame the caller could see before
/// the call, locals and operand stack alike, is unchanged after it.
pub proof fn lemma_frame_isolation(pre: Stack, mid: Stack, post: Stack)
    requires
        mid.depth() > pre.depth(),
        Stack::frames_preserved(pre, mid, pre.depth()),
        post.depth() == pre.depth(),
        Stack::frames_preserved(mid, post, post.depth()),
    ensures
        Stack::frames_preserved(pre, post, pre.depth()),
{
}

} // verus!
