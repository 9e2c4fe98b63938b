//! The value scalar and the reference handle.
//!
//! A `Value` is one 64-bit slot: a fixed-width, bit-reinterpretable scalar
//! able to hold any of the machine's primitive kinds or an object
//! reference.  Which interpretation is valid is decided by context (the
//! static type of the slot that holds it), never by an embedded tag, so
//! every accessor documents the encoding it reads with an exact
//! specification over the raw bits.

use vstd::prelude::*;

verus! {

/// A handle to an object on the heap: the chunk that holds it and the
/// slot offset of its header inside that chunk.
///
/// Handles replace raw addresses; the collector publishes an explicit
/// old-to-new remap of handles when it slides objects.
#[derive(Debug, Clone, Copy, PartialEq, Eq, Structural)]
pub struct ObjRef {
    pub chunk: usize,
    pub slot: usize,
}

/// The signed 32-bit interpretation of a slot's low 32 bits.
pub open spec fn int_val(b: u64) -> int {
    let low = b as int % 0x1_0000_0000;
    if low < 0x8000_0000 {
        low
    } else {
        low - 0x1_0000_0000
    }
}

/// The 64-bit slot encoding of a signed 32-bit value.
pub open spec fn int_bits(i: int) -> u64 {
    (i % 0x1_0000_0000) as u64
}

/// The signed 64-bit interpretation of a slot.
pub open spec fn long_val(b: u64) -> int {
    if b < 0x8000_0000_0000_0000 {
        b as int
    } else {
        b as int - 0x1_0000_0000_0000_0000
    }
}

/// The 64-bit slot encoding of a signed 64-bit value.
pub open spec fn long_bits(i: int) -> u64 {
    (i % 0x1_0000_0000_0000_0000) as u64
}

/// The slot encoding of an object handle.
///
/// The chunk index is shifted into the high word with a bias of one, so
/// the encoding of every handle is at least `0x1_0000_0000` and the all
/// zero slot (the null reference) is never a valid handle.
pub open spec fn ref_bits(chunk: int, slot: int) -> u64 {
    ((chunk + 1) * 0x1_0000_0000 + slot) as u64
}

/// One operand-stack or local-variable slot.
#[derive(Debug, Clone, Copy, PartialEq, Eq, Structural)]
pub struct Value {
    pub bits: u64,
}

impl Value {
    /// The null reference: the all-zero slot.
    pub fn null() -> (v: Value)
        ensures
            v.bits == 0,
    {
        Value { bits: 0 }
    }

    /// Wraps a signed 32-bit value.
    pub fn nint(n: i32) -> (v: Value)
        ensures
            v.bits == int_bits(n as int),
            int_val(v.bits) == n as int,
    {
        if n >= 0 {
            Value { bits: n as u64 }
        } else {
            Value { bits: (n as i64 + 0x1_0000_0000i64) as u64 }
        }
    }

    /// Reads the slot as a signed 32-bit value.
    pub fn as_int(self) -> (n: i32)
        ensures
            n as int == int_val(self.bits),
    {
        let low: u64 = self.bits % 0x1_0000_0000;
        if low < 0x8000_0000 {
            low as i32
        } else {
            (low as i64 - 0x1_0000_0000i64) as i32
        }
    }

    /// Wraps a signed 64-bit value.
    pub fn nlong(n: i64) -> (v: Value)
        ensures
            v.bits == long_bits(n as int),
            long_val(v.bits) == n as int,
    {
        if n >= 0 {
            Value { bits: n as u64 }
        } else {
            Value { bits: (n as i128 + 0x1_0000_0000_0000_0000i128) as u64 }
        }
    }

    /// Reads the slot as a signed 64-bit value.
    pub fn as_long(self) -> (n: i64)
        ensures
            n as int == long_val(self.bits),
    {
        if self.bits < 0x8000_0000_0000_0000 {
            self.bits as i64
        } else {
            (self.bits as i128 - 0x1_0000_0000_0000_0000i128) as i64
        }
    }

    /// Wraps a signed 8-bit value, sign-extended into the 32-bit encoding.
    pub fn nbyte(n: i8) -> (v: Value)
        ensures
            v.bits == int_bits(n as int),
            int_val(v.bits) == n as int,
    {
        Value::nint(n as i32)
    }

    /// Reads the slot as a signed 8-bit value: the low byte, sign-extended.
    pub fn as_byte(self) -> (n: i8)
        ensures
            n as int == {
                let low = self.bits as int % 0x100;
                if low < 0x80 {
                    low
                } else {
                    low - 0x100
                }
            },
    {
        let low: u64 = self.bits % 0x100;
        if low < 0x80 {
            low as i8
        } else {
            (low as i64 - 0x100i64) as i8
        }
    }

    /// Wraps a signed 16-bit value, sign-extended into the 32-bit encoding.
    pub fn nshort(n: i16) -> (v: Value)
        ensures
            v.bits == int_bits(n as int),
            int_val(v.bits) == n as int,
    {
        Value::nint(n as i32)
    }

    /// Reads the slot as a signed 16-bit value: the low half-word,
    /// sign-extended.
    pub fn as_short(self) -> (n: i16)
        ensures
            n as int == {
                let low = self.bits as int % 0x1_0000;
                if low < 0x8000 {
                    low
                } else {
                    low - 0x1_0000
                }
            },
    {
        let low: u64 = self.bits % 0x1_0000;
        if low < 0x8000 {
            low as i16
        } else {
            (low as i64 - 0x1_0000i64) as i16
        }
    }

    /// Wraps an unsigned 16-bit character value.
    pub fn nchar(n: u16) -> (v: Value)
        ensures
            v.bits == n as u64,
    {
        Value { bits: n as u64 }
    }

    /// Reads the slot as an unsigned 16-bit character value.
    pub fn as_char(self) -> (n: u16)
        ensures
            n as int == self.bits as int % 0x1_0000,
    {
        (self.bits % 0x1_0000) as u16
    }

    /// Wraps an object handle.
    pub fn nobject(r: ObjRef) -> (v: Value)
        requires
            r.chunk < 0x7fff_ffff,
            r.slot < 0x1_0000_0000,
        ensures
            v.bits == ref_bits(r.chunk as int, r.slot as int),
            v.bits != 0,
            v.object() == Some(r),
    {
        Value { bits: (r.chunk as u64 + 1) * 0x1_0000_0000 + r.slot as u64 }
    }

    /// The object handle held in the slot, if the slot holds one.
    ///
    /// The all-zero slot is the null reference; a slot below the least
    /// handle encoding holds no reference at all.  Both read as `None`,
    /// and a non-null slot that decodes must re-encode to the same bits.
    pub open spec fn object(self) -> Option<ObjRef> {
        if self.bits < 0x1_0000_0000 {
            None
        } else {
            Some(
                ObjRef {
                    chunk: ((self.bits as int / 0x1_0000_0000) - 1) as usize,
                    slot: (self.bits as int % 0x1_0000_0000) as usize,
                },
            )
        }
    }

    /// Decodes the slot as an object handle.
    pub fn to_object(self) -> (r: Option<ObjRef>)
        ensures
            r == self.object(),
    {
        if self.bits < 0x1_0000_0000 {
            None
        } else {
            Some(
                ObjRef {
                    chunk: (self.bits / 0x1_0000_0000 - 1) as usize,
                    slot: (self.bits % 0x1_0000_0000) as usize,
                },
            )
        }
    }
}

/// Round-tripping a signed 32-bit value through a slot returns the value:
/// the encoding loses nothing.
pub proof fn lemma_int_round_trip(n: int)
    requires
        -0x8000_0000 <= n < 0x8000_0000,
    ensures
        int_val(int_bits(n)) == n,
{
}

/// Round-tripping a signed 64-bit value through a slot returns the value.
pub proof fn lemma_long_round_trip(n: int)
    requires
        -0x8000_0000_0000_0000 <= n < 0x8000_0000_0000_0000,
    ensures
        long_val(long_bits(n)) == n,
{
}


/// A handle to an array on the heap.
///
/// Array objects are a non-goal of this milestone: the instructions
/// that would create or read one fail as unimplemented, so no value of
/// this type is ever produced; the type fixes the interface a future
/// extension would fill in.
#[derive(Debug, Clone, Copy, PartialEq, Eq, Structural)]
pub struct Array {
    pub chunk: usize,
    pub slot: usize,
    pub len: usize,
}


/// Taking a sequence's whole length is the sequence.
pub broadcast proof fn lemma_take_full(s: Seq<Value>)
    ensures
        #[trigger] s.take(s.len() as int) == s,
{
    assert(s.take(s.len() as int) =~= s);
}

/// Pushing is appending a singleton.
pub broadcast proof fn lemma_push_concat(s: Seq<Value>, v: Value)
    ensures
        #[trigger] s.push(v) == s + seq![v],
{
    assert(s.push(v) =~= s + seq![v]);
}

/// Dropping the last value is taking all but one.
pub broadcast proof fn lemma_drop_last_take(s: Seq<Value>)
    requires
        s.len() >= 1,
    ensures
        #[trigger] s.drop_last() == s.take(s.len() - 1),
{
    assert(s.drop_last() =~= s.take(s.len() - 1));
}

/// A take of a take is the shorter take.
pub broadcast proof fn lemma_take_of_take(s: Seq<Value>, a: int, b: int)
    requires
        0 <= b <= a <= s.len(),
    ensures
        #[trigger] s.take(a).take(b) == s.take(b),
{
    assert(s.take(a).take(b) =~= s.take(b));
}

} // verus!
