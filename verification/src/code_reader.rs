//! The `Code` attribute reader: turns the raw bytes of a method's code
//! attribute into a decoded [`Code`].

use vstd::prelude::*;
use crate::attribute_info::AttributeInfo;
use crate::bytecode::{decode_at, scan, u16_be, BytecodeParseError, Instruction};
use crate::code::{Code, ExceptionTableItem};

verus! {

/// A failure while reading a `Code` attribute.
#[derive(Debug)]
pub enum CodeParseError {
    /// The bytes ran out; carries the name of the record being read.
    EarlyEnd(String),
    /// A structurally malformed attribute.
    InvalidFormat,
    /// The method body itself failed to decode.
    BytecodeParseError(BytecodeParseError),
}

/// A cursor over the raw bytes of one `Code` attribute.
pub struct CodeReader<'a> {
    pub bytes: &'a Vec<u8>,
    pub pos: usize,
}

/// The big-endian 32-bit value starting at `off`.
pub open spec fn u32_be(bytes: Seq<u8>, off: int) -> int {
    u16_be(bytes, off) * 0x1_0000 + u16_be(bytes, off + 2)
}

impl<'a> CodeReader<'a> {
    /// A reader positioned at the start of the bytes.
    pub fn new(bytes: &'a Vec<u8>) -> (r: CodeReader<'a>)
        ensures
            r.bytes == bytes,
            r.pos == 0,
    {
        CodeReader { bytes, pos: 0 }
    }

    /// Reads one byte, if any is left.
    pub fn read_u1(&mut self) -> (r: Option<u8>)
        requires
            old(self).pos <= old(self).bytes@.len(),
        ensures
            final(self).bytes == old(self).bytes,
            match r {
                Some(b) => old(self).pos < old(self).bytes@.len() && b == old(self).bytes@[old(
                    self,
                ).pos as int] && final(self).pos == old(self).pos + 1,
                None => old(self).pos == old(self).bytes@.len() && final(self).pos == old(
                    self,
                ).pos,
            },
    {
        if self.pos < self.bytes.len() {
            let b = self.bytes[self.pos];
            self.pos = self.pos + 1;
            Some(b)
        } else {
            None
        }
    }

    /// Reads one big-endian 16-bit value, if two bytes are left.
    pub fn read_u2(&mut self) -> (r: Option<u16>)
        requires
            old(self).pos <= old(self).bytes@.len(),
        ensures
            final(self).bytes == old(self).bytes,
            final(self).pos <= final(self).bytes@.len(),
            match r {
                Some(v) => old(self).pos + 2 <= old(self).bytes@.len() && v as int == u16_be(
                    old(self).bytes@,
                    old(self).pos as int,
                ) && final(self).pos == old(self).pos + 2,
                None => old(self).pos + 2 > old(self).bytes@.len(),
            },
    {
        let hi = match self.read_u1() {
            Some(b) => b,
            None => {
                return None;
            },
        };
        let lo = match self.read_u1() {
            Some(b) => b,
            None => {
                return None;
            },
        };
        Some((hi as u16) * 0x100 + (lo as u16))
    }

    /// Reads one big-endian 32-bit value, if four bytes are left.
    pub fn read_u4(&mut self) -> (r: Option<u32>)
        requires
            old(self).pos <= old(self).bytes@.len(),
        ensures
            final(self).bytes == old(self).bytes,
            final(self).pos <= final(self).bytes@.len(),
            match r {
                Some(v) => old(self).pos + 4 <= old(self).bytes@.len() && v as int == u32_be(
                    old(self).bytes@,
                    old(self).pos as int,
                ) && final(self).pos == old(self).pos + 4,
                None => old(self).pos + 4 > old(self).bytes@.len(),
            },
    {
        let hi = match self.read_u2() {
            Some(v) => v,
            None => {
                return None;
            },
        };
        let lo = match self.read_u2() {
            Some(v) => v,
            None => {
                return None;
            },
        };
        Some((hi as u32) * 0x1_0000 + (lo as u32))
    }

    /// Reads one nested attribute record.
    pub fn read_attribute(&mut self) -> (r: Result<AttributeInfo, CodeParseError>)
        requires
            old(self).pos <= old(self).bytes@.len(),
        ensures
            final(self).bytes == old(self).bytes,
            final(self).pos <= final(self).bytes@.len(),
            r matches Ok(ai) ==> ai.info@.len() == ai.attribute_length,
            r matches Err(e) ==> e is EarlyEnd,
    {
        let name_index = match self.read_u2() {
            Some(v) => v,
            None => {
                return Err(CodeParseError::EarlyEnd(String::from_str("attr name index")));
            },
        };
        let attribute_length = match self.read_u4() {
            Some(v) => v,
            None => {
                return Err(CodeParseError::EarlyEnd(String::from_str("attr len")));
            },
        };
        let mut info: Vec<u8> = Vec::new();
        let mut k: u32 = 0;
        while k < attribute_length
            invariant
                k <= attribute_length,
                info@.len() == k,
                self.bytes == old(self).bytes,
                self.pos <= self.bytes@.len(),
            decreases attribute_length - k,
        {
            match self.read_u1() {
                Some(b) => info.push(b),
                None => {
                    return Err(CodeParseError::EarlyEnd(String::from_str("attr")));
                },
            }
            k = k + 1;
        }
        Ok(AttributeInfo { name_index, attribute_length, info })
    }

    /// Reads one exception-table row: its four big-endian fields at the
    /// cursor, in layout order; absent if and only if fewer than eight
    /// bytes are left.
    pub fn read_exception_table_item(&mut self) -> (r: Option<ExceptionTableItem>)
        requires
            old(self).pos <= old(self).bytes@.len(),
        ensures
            final(self).bytes == old(self).bytes,
            final(self).pos <= final(self).bytes@.len(),
            match r {
                Some(item) => {
                    let pos = old(self).pos as int;
                    let bytes = old(self).bytes@;
                    &&& pos + 8 <= bytes.len()
                    &&& item.start_pc == u16_be(bytes, pos)
                    &&& item.end_pc == u16_be(bytes, pos + 2)
                    &&& item.catch_type == u16_be(bytes, pos + 4)
                    &&& item.handler_pc == u16_be(bytes, pos + 6)
                    &&& final(self).pos == pos + 8
                },
                None => old(self).pos + 8 > old(self).bytes@.len(),
            },
    {
        let start_pc = self.read_u2()?;
        let end_pc = self.read_u2()?;
        let catch_type = self.read_u2()?;
        let handler_pc = self.read_u2()?;
        Some(ExceptionTableItem { start_pc, end_pc, catch_type, handler_pc })
    }

    /// Reads the whole attribute: the declared stack and locals sizes,
    /// the method body (handed to the bytecode decoder), the exception
    /// table, and any nested attributes.
    ///
    /// On success the decoded instruction sequence covers the body's
    /// bytes exactly: it has one instruction per boundary the size table
    /// derives, each decoded at its own offset.
    #[verifier::loop_isolation(false)]
    pub fn read_code(&mut self) -> (r: Result<Code, CodeParseError>)
        requires
            old(self).pos == 0,
        ensures
            r matches Ok(c) ==> {
                let bytes = old(self).bytes@;
                &&& bytes.len() >= 8
                &&& c.max_stack as int == u16_be(bytes, 0)
                &&& c.max_locals as int == u16_be(bytes, 2)
                &&& ({
                    let clen = u32_be(bytes, 4);
                    let body = bytes.subrange(8, 8 + clen);
                    &&& 8 + clen <= bytes.len()
                    &&& scan(body, 0).is_tiled()
                    &&& c.code@.len() == scan(body, 0).offsets().len()
                    &&& forall|i: int|
                        0 <= i < c.code@.len() ==> decode_at(body, scan(body, 0).offsets(), i)
                            == Some(c.code@[i])
                })
                &&& ({
                    let et = 8 + u32_be(bytes, 4);
                    &&& c.exception_table@.len() == u16_be(bytes, et)
                    &&& forall|i: int|
                        0 <= i < c.exception_table@.len() ==> {
                            let p = et + 2 + 8 * i;
                            &&& (#[trigger] c.exception_table@[i]).start_pc == u16_be(bytes, p)
                            &&& c.exception_table@[i].end_pc == u16_be(bytes, p + 2)
                            &&& c.exception_table@[i].catch_type == u16_be(bytes, p + 4)
                            &&& c.exception_table@[i].handler_pc == u16_be(bytes, p + 6)
                        }
                })
            },
            r matches Err(e) ==> !(e is InvalidFormat),
            r matches Err(e) ==> (e matches CodeParseError::BytecodeParseError(be) ==> ({
                let bytes = old(self).bytes@;
                let clen = u32_be(bytes, 4);
                let body = bytes.subrange(8, 8 + clen);
                &&& bytes.len() >= 8
                &&& 8 + clen <= bytes.len()
                &&& !(scan(body, 0).is_tiled() && (forall|i: int|
                    0 <= i < scan(body, 0).offsets().len() ==> (#[trigger] decode_at(
                        body,
                        scan(body, 0).offsets(),
                        i,
                    )) is Some))
            })),
    {
        let max_stack = match self.read_u2() {
            Some(v) => v,
            None => {
                return Err(CodeParseError::EarlyEnd(String::from_str("max stack")));
            },
        };
        let max_locals = match self.read_u2() {
            Some(v) => v,
            None => {
                return Err(CodeParseError::EarlyEnd(String::from_str("max locals")));
            },
        };
        let code_length = match self.read_u4() {
            Some(v) => v,
            None => {
                return Err(CodeParseError::EarlyEnd(String::from_str("code len")));
            },
        };
        let mut bytecode: Vec<u8> = Vec::new();
        let mut k: u32 = 0;
        while k < code_length
            invariant
                k <= code_length,
                bytecode@.len() == k,
                self.bytes == old(self).bytes,
                self.pos <= self.bytes@.len(),
                8 + k <= self.pos,
                self.pos == 8 + k,
                forall|j: int| 0 <= j < k ==> bytecode@[j] == self.bytes@[8 + j],
            decreases code_length - k,
        {
            match self.read_u1() {
                Some(b) => bytecode.push(b),
                None => {
                    return Err(CodeParseError::EarlyEnd(String::from_str("bytecode")));
                },
            }
            k = k + 1;
        }
        proof {
            assert(bytecode@ =~= old(self).bytes@.subrange(8, 8 + code_length as int));
        }
        let code = match Instruction::read_from(bytecode.as_slice(), code_length) {
            Ok(c) => c,
            Err(e) => {
                return Err(CodeParseError::BytecodeParseError(e));
            },
        };
        let ghost et = self.pos as int;
        let exception_table_length = match self.read_u2() {
            Some(v) => v,
            None => {
                return Err(CodeParseError::EarlyEnd(String::from_str("exception table len")));
            },
        };
        let mut exception_table: Vec<ExceptionTableItem> = Vec::new();
        let mut t: u16 = 0;
        while t < exception_table_length
            invariant
                t <= exception_table_length,
                exception_table@.len() == t,
                self.bytes == old(self).bytes,
                self.pos <= self.bytes@.len(),
                self.pos == et + 2 + 8 * t,
                forall|i: int|
                    0 <= i < t ==> {
                        let p = et + 2 + 8 * i;
                        &&& (#[trigger] exception_table@[i]).start_pc == u16_be(self.bytes@, p)
                        &&& exception_table@[i].end_pc == u16_be(self.bytes@, p + 2)
                        &&& exception_table@[i].catch_type == u16_be(self.bytes@, p + 4)
                        &&& exception_table@[i].handler_pc == u16_be(self.bytes@, p + 6)
                    },
            decreases exception_table_length - t,
        {
            match self.read_exception_table_item() {
                Some(item) => exception_table.push(item),
                None => {
                    return Err(CodeParseError::EarlyEnd(String::from_str("exception table")));
                },
            }
            t = t + 1;
        }
        let attributes_count = match self.read_u2() {
            Some(v) => v,
            None => {
                return Err(CodeParseError::EarlyEnd(String::from_str("attributes count")));
            },
        };
        let mut attributes: Vec<AttributeInfo> = Vec::new();
        let mut a: u16 = 0;
        while a < attributes_count
            invariant
                self.bytes == old(self).bytes,
                self.pos <= self.bytes@.len(),
            decreases attributes_count - a,
        {
            let ai = self.read_attribute()?;
            attributes.push(ai);
            a = a + 1;
        }
        Ok(Code { max_stack, max_locals, code, exception_table, attributes })
    }
}

} // verus!
