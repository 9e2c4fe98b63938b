//! The bytecode decoder.
//!
//! A raw method body is turned into a structured, randomly-addressable
//! instruction sequence in two passes.  The first pass derives the byte
//! offset of every instruction from a size table over the 256 opcodes;
//! the second pass decodes each opcode into a typed [`Instruction`] and
//! resolves every branch's signed byte-relative displacement into an
//! absolute instruction index, so the interpreter can branch in constant
//! time without re-deriving byte offsets at run time.

use vstd::prelude::*;

verus! {

/// A decoded instruction.
///
/// Operand-bearing variants carry their decoded operands; the branch
/// variants carry the absolute index of their target instruction, already
/// resolved from the encoded byte-relative displacement.  Opcodes that
/// the size table covers but the machine does not execute are carried as
/// [`Instruction::Unsupported`] with the opcode byte, so reaching one
/// fails with a diagnosable condition rather than a silent no-op.
#[derive(Debug, Clone, Copy, PartialEq, Eq, Structural)]
pub enum Instruction {
    /// Do nothing.
    Nop,
    /// Push the null reference.
    AconstNull,
    /// Push a small signed integer constant.
    Ipush(i16),
    /// Push a small signed long constant.
    Lpush(i16),
    /// Push the constant-pool entry at the index.
    Ldc(u16),
    LdcW(u16),
    Ldc2W(u16),
    /// Push the integer local at the index.
    Iload(u16),
    Lload(u16),
    Fload(u16),
    Dload(u16),
    Aload(u16),
    /// Store the popped integer into the local at the index.
    Istore(u16),
    Lstore(u16),
    Fstore(u16),
    Dstore(u16),
    Astore(u16),
    Pop,
    Pop2,
    Dup,
    Swap,
    Iadd,
    Ladd,
    Isub,
    Lsub,
    Imul,
    Lmul,
    Idiv,
    Ldiv,
    Irem,
    Lrem,
    Ineg,
    Lneg,
    Ishl,
    Lshl,
    Ishr,
    Lshr,
    Iushr,
    Lushr,
    Iand,
    Land,
    Ior,
    Lor,
    Ixor,
    Lxor,
    /// Increment the local at the index by the signed constant.
    Iinc(u16, i16),
    I2l,
    L2i,
    I2b,
    I2c,
    I2s,
    Lcmp,
    /// Branch variants carry the absolute target instruction index.
    Ifeq(u16),
    Ifne(u16),
    Iflt(u16),
    Ifge(u16),
    Ifgt(u16),
    Ifle(u16),
    IfIcmpeq(u16),
    IfIcmpne(u16),
    IfIcmplt(u16),
    IfIcmpge(u16),
    IfIcmpgt(u16),
    IfIcmple(u16),
    IfAcmpeq(u16),
    IfAcmpne(u16),
    Goto(u16),
    Ireturn,
    Lreturn,
    Freturn,
    Dreturn,
    Areturn,
    Return,
    Getstatic(u16),
    Putstatic(u16),
    Getfield(u16),
    Putfield(u16),
    Invokevirtual(u16),
    Invokespecial(u16),
    Invokestatic(u16),
    Invokeinterface(u16),
    Invokedynamic(u16),
    /// An opcode with a known encoded size that the machine does not
    /// execute; carries the opcode byte.
    Unsupported(u8),
}

/// A failure while decoding a method body.
#[derive(Debug, Clone, PartialEq, Eq, Structural)]
pub enum BytecodeParseError {
    /// The bytes ran out in the middle of an instruction.
    EarlyEnd,
    /// An opcode with no entry in the size table; carries the byte.
    InvalidOpcode(u8),
    /// A branch displacement that does not land on an instruction
    /// boundary, or a target index too large to store.
    InvalidCode,
}

/// Whether the opcode is a fixed one-byte instruction.
pub open spec fn is_len1(op: u8) -> bool {
    (0x00 <= op <= 0x0f) || (0x1a <= op <= 0x35) || (0x3b <= op <= 0x5f) || (0x60 <= op <= 0x83)
        || (0x85 <= op <= 0x98) || (0xac <= op <= 0xb1) || op == 0xbe || op == 0xbf || op == 0xc2
        || op == 0xc3 || op == 0xca || op == 0xfe || op == 0xff
}

/// Whether the opcode is fixed at two bytes: opcode plus one operand byte.
pub open spec fn is_len2(op: u8) -> bool {
    op == 0x10 || op == 0x12 || (0x15 <= op <= 0x19) || (0x36 <= op <= 0x3a) || op == 0xa9 || op
        == 0xbc
}

/// Whether the opcode is fixed at three bytes: opcode plus two operand
/// bytes.
pub open spec fn is_len3(op: u8) -> bool {
    op == 0x11 || op == 0x13 || op == 0x14 || op == 0x84 || (0x99 <= op <= 0xa8) || (0xb2 <= op
        <= 0xb8) || op == 0xbb || op == 0xbd || op == 0xc0 || op == 0xc1
}

/// Whether the opcode is fixed at four bytes.
pub open spec fn is_len4(op: u8) -> bool {
    op == 0xc5
}

/// Whether the opcode is fixed at five bytes.
pub open spec fn is_len5(op: u8) -> bool {
    op == 0xb9 || op == 0xba || op == 0xc8 || op == 0xc9
}

/// The encoded size of the fixed-format opcode, or zero for an opcode
/// with no fixed size: an undefined byte, the two switch forms, and the
/// wide prefix, whose size depends on the following byte.
pub open spec fn fixed_size(op: u8) -> int {
    if is_len1(op) {
        1
    } else if is_len2(op) {
        2
    } else if is_len3(op) {
        3
    } else if is_len4(op) {
        4
    } else if is_len5(op) {
        5
    } else {
        0
    }
}

/// The encoded size of the instruction starting at `off`, or zero when no
/// well-sized instruction starts there.
///
/// The wide prefix is the one opcode whose size depends on the byte after
/// it; the two switch forms have no entry at all, so a method body that
/// holds one fails to decode rather than being silently misread.
pub open spec fn insn_size(bytes: Seq<u8>, off: int) -> int {
    if off < 0 || off >= bytes.len() {
        0
    } else {
        let op = bytes[off];
        if op == 0xc4 {
            if off + 1 < bytes.len() {
                if bytes[off + 1] == 0x84 {
                    5
                } else {
                    3
                }
            } else {
                0
            }
        } else {
            fixed_size(op)
        }
    }
}

/// The outcome of tiling a byte range into instruction-sized pieces.
pub enum ScanOutcome {
    /// The bytes tile exactly; the sequence holds every instruction's
    /// start offset, in order.
    Tiled(Seq<int>),
    /// Tiling got stuck at the offset: either no well-sized instruction
    /// starts there, or the instruction there runs past the end.
    Stuck(int),
}

impl ScanOutcome {
    pub open spec fn is_tiled(self) -> bool {
        self is Tiled
    }

    pub open spec fn offsets(self) -> Seq<int>
        recommends
            self is Tiled,
    {
        self->Tiled_0
    }

    pub open spec fn stuck_at(self) -> int
        recommends
            self is Stuck,
    {
        self->Stuck_0
    }
}

/// Tiles the bytes from `off` to the end into instructions, using the
/// size table alone.  This is the specification that the decoder's first
/// pass is proved against.
pub open spec fn scan(bytes: Seq<u8>, off: int) -> ScanOutcome
    decreases bytes.len() - off,
{
    if off == bytes.len() {
        ScanOutcome::Tiled(Seq::empty())
    } else if off < 0 || off > bytes.len() {
        ScanOutcome::Stuck(off)
    } else {
        let sz = insn_size(bytes, off);
        if sz == 0 {
            ScanOutcome::Stuck(off)
        } else if off + sz > bytes.len() {
            ScanOutcome::Stuck(off)
        } else {
            match scan(bytes, off + sz) {
                ScanOutcome::Tiled(rest) => ScanOutcome::Tiled(seq![off] + rest),
                ScanOutcome::Stuck(o) => ScanOutcome::Stuck(o),
            }
        }
    }
}

/// A tiled scan lists strictly increasing offsets inside the byte range,
/// each the start of a well-sized instruction that ends at the next
/// offset (or at the end of the range).
pub proof fn lemma_scan_offsets(bytes: Seq<u8>, off: int)
    requires
        0 <= off <= bytes.len(),
        scan(bytes, off).is_tiled(),
    ensures
        ({
            let offs = scan(bytes, off).offsets();
            &&& forall|i: int, j: int| 0 <= i < j < offs.len() ==> offs[i] < offs[j]
            &&& forall|i: int| 0 <= i < offs.len() ==> off <= #[trigger] offs[i] < bytes.len()
            &&& forall|i: int|
                0 <= i < offs.len() ==> #[trigger] insn_size(bytes, offs[i]) >= 1 && offs[i]
                    + insn_size(bytes, offs[i]) == if i + 1 < offs.len() {
                    offs[i + 1]
                } else {
                    bytes.len() as int
                }
            &&& offs.len() > 0 ==> offs[0] == off
            &&& off == bytes.len() <==> offs.len() == 0
        }),
    decreases bytes.len() - off,
{
    let offs = scan(bytes, off).offsets();
    if off == bytes.len() {
    } else {
        let sz = insn_size(bytes, off);
        let rest = scan(bytes, off + sz);
        lemma_scan_offsets(bytes, off + sz);
        assert(offs == seq![off] + rest.offsets());
        assert forall|i: int| 0 <= i < offs.len() implies off <= #[trigger] offs[i]
            < bytes.len() by {
            if i > 0 {
                assert(offs[i] == rest.offsets()[i - 1]);
            }
        }
        assert forall|i: int|
            0 <= i < offs.len() implies #[trigger] insn_size(bytes, offs[i]) >= 1 && offs[i]
            + insn_size(bytes, offs[i]) == if i + 1 < offs.len() {
            offs[i + 1]
        } else {
            bytes.len() as int
        } by {
            if i == 0 {
                assert(offs[0] == off);
                if rest.offsets().len() > 0 {
                    assert(offs[1] == rest.offsets()[0]);
                }
            } else {
                assert(offs[i] == rest.offsets()[i - 1]);
                if i + 1 < offs.len() {
                    assert(offs[i + 1] == rest.offsets()[i - 1 + 1]);
                }
            }
        }
    }
}

impl Instruction {
    /// The size of the first instruction stored in `buf`, from the
    /// 256-entry size table, with the wide prefix special-cased on its
    /// second byte.  Zero reports an opcode that has no well-formed size
    /// there: an undefined byte, a switch form, or a truncated buffer.
    pub fn raw_size(buf: &[u8]) -> (n: u32)
        ensures
            n as int == insn_size(buf@, 0),
    {
        if buf.len() == 0 {
            return 0;
        }
        let op: u8 = buf[0];
        if op == 0xc4 {
            if buf.len() >= 2 {
                if buf[1] == 0x84 {
                    5
                } else {
                    3
                }
            } else {
                0
            }
        } else if (0x00 <= op && op <= 0x0f) || (0x1a <= op && op <= 0x35) || (0x3b <= op && op
            <= 0x5f) || (0x60 <= op && op <= 0x83) || (0x85 <= op && op <= 0x98) || (0xac <= op
            && op <= 0xb1) || op == 0xbe || op == 0xbf || op == 0xc2 || op == 0xc3 || op == 0xca
            || op == 0xfe || op == 0xff {
            1
        } else if op == 0x10 || op == 0x12 || (0x15 <= op && op <= 0x19) || (0x36 <= op && op
            <= 0x3a) || op == 0xa9 || op == 0xbc {
            2
        } else if op == 0x11 || op == 0x13 || op == 0x14 || op == 0x84 || (0x99 <= op && op
            <= 0xa8) || (0xb2 <= op && op <= 0xb8) || op == 0xbb || op == 0xbd || op == 0xc0 || op
            == 0xc1 {
            3
        } else if op == 0xc5 {
            4
        } else if op == 0xb9 || op == 0xba || op == 0xc8 || op == 0xc9 {
            5
        } else {
            0
        }
    }
}


/// The big-endian 16-bit operand starting at `off`.
pub open spec fn u16_be(bytes: Seq<u8>, off: int) -> int {
    bytes[off] * 0x100 + bytes[off + 1]
}

/// The signed big-endian 16-bit operand starting at `off`.
pub open spec fn i16_be(bytes: Seq<u8>, off: int) -> int {
    let v = u16_be(bytes, off);
    if v < 0x8000 {
        v
    } else {
        v - 0x1_0000
    }
}

/// The signed 8-bit operand at `off`.
pub open spec fn i8_at(bytes: Seq<u8>, off: int) -> int {
    if bytes[off] < 0x80 {
        bytes[off] as int
    } else {
        bytes[off] - 0x100
    }
}

/// The absolute target index of the branch instruction at position `i` of
/// the boundary table: the unique instruction whose start offset equals
/// the branch's own offset plus its signed displacement, provided one
/// starts exactly there and its index fits the operand width.
pub open spec fn branch_target(bytes: Seq<u8>, offs: Seq<int>, i: int) -> Option<u16> {
    let tb = offs[i] + i16_be(bytes, offs[i] + 1);
    if exists|j: int| 0 <= j < offs.len() && offs[j] == tb && j < 0x1_0000 {
        Some((choose|j: int| 0 <= j < offs.len() && offs[j] == tb && j < 0x1_0000) as u16)
    } else {
        None
    }
}

/// The typed instruction decoded at position `i` of the boundary table,
/// or nothing when a branch there has no instruction boundary at its
/// displacement.  This is the specification the decoder's second pass is
/// proved against, one arm per opcode.
pub open spec fn decode_at(bytes: Seq<u8>, offs: Seq<int>, i: int) -> Option<Instruction> {
    let off = offs[i];
    let op = bytes[off];
    if op == 0x02 || op == 0x03 || op == 0x04 || op == 0x05 || op == 0x06 || op == 0x07 || op == 0x08 {
        Some(Instruction::Ipush((op - 3) as i16))
    } else if op == 0x09 || op == 0x0a {
        Some(Instruction::Lpush((op - 9) as i16))
    } else if op == 0x10 {
        Some(Instruction::Ipush(i8_at(bytes, off + 1) as i16))
    } else if op == 0x11 {
        Some(Instruction::Ipush(i16_be(bytes, off + 1) as i16))
    } else if op == 0x12 {
        Some(Instruction::Ldc(bytes[off + 1] as u16))
    } else if op == 0x15 {
        Some(Instruction::Iload(bytes[off + 1] as u16))
    } else if op == 0x16 {
        Some(Instruction::Lload(bytes[off + 1] as u16))
    } else if op == 0x17 {
        Some(Instruction::Fload(bytes[off + 1] as u16))
    } else if op == 0x18 {
        Some(Instruction::Dload(bytes[off + 1] as u16))
    } else if op == 0x19 {
        Some(Instruction::Aload(bytes[off + 1] as u16))
    } else if op == 0x36 {
        Some(Instruction::Istore(bytes[off + 1] as u16))
    } else if op == 0x37 {
        Some(Instruction::Lstore(bytes[off + 1] as u16))
    } else if op == 0x38 {
        Some(Instruction::Fstore(bytes[off + 1] as u16))
    } else if op == 0x39 {
        Some(Instruction::Dstore(bytes[off + 1] as u16))
    } else if op == 0x3a {
        Some(Instruction::Astore(bytes[off + 1] as u16))
    } else if op == 0x1a || op == 0x1b || op == 0x1c || op == 0x1d {
        Some(Instruction::Iload((op - 0x1a) as u16))
    } else if op == 0x1e || op == 0x1f || op == 0x20 || op == 0x21 {
        Some(Instruction::Lload((op - 0x1e) as u16))
    } else if op == 0x22 || op == 0x23 || op == 0x24 || op == 0x25 {
        Some(Instruction::Fload((op - 0x22) as u16))
    } else if op == 0x26 || op == 0x27 || op == 0x28 || op == 0x29 {
        Some(Instruction::Dload((op - 0x26) as u16))
    } else if op == 0x2a || op == 0x2b || op == 0x2c || op == 0x2d {
        Some(Instruction::Aload((op - 0x2a) as u16))
    } else if op == 0x3b || op == 0x3c || op == 0x3d || op == 0x3e {
        Some(Instruction::Istore((op - 0x3b) as u16))
    } else if op == 0x3f || op == 0x40 || op == 0x41 || op == 0x42 {
        Some(Instruction::Lstore((op - 0x3f) as u16))
    } else if op == 0x43 || op == 0x44 || op == 0x45 || op == 0x46 {
        Some(Instruction::Fstore((op - 0x43) as u16))
    } else if op == 0x47 || op == 0x48 || op == 0x49 || op == 0x4a {
        Some(Instruction::Dstore((op - 0x47) as u16))
    } else if op == 0x4b || op == 0x4c || op == 0x4d || op == 0x4e {
        Some(Instruction::Astore((op - 0x4b) as u16))
    } else if op == 0x13 {
        Some(Instruction::LdcW(u16_be(bytes, off + 1) as u16))
    } else if op == 0x14 {
        Some(Instruction::Ldc2W(u16_be(bytes, off + 1) as u16))
    } else if op == 0xb2 {
        Some(Instruction::Getstatic(u16_be(bytes, off + 1) as u16))
    } else if op == 0xb3 {
        Some(Instruction::Putstatic(u16_be(bytes, off + 1) as u16))
    } else if op == 0xb4 {
        Some(Instruction::Getfield(u16_be(bytes, off + 1) as u16))
    } else if op == 0xb5 {
        Some(Instruction::Putfield(u16_be(bytes, off + 1) as u16))
    } else if op == 0xb6 {
        Some(Instruction::Invokevirtual(u16_be(bytes, off + 1) as u16))
    } else if op == 0xb7 {
        Some(Instruction::Invokespecial(u16_be(bytes, off + 1) as u16))
    } else if op == 0xb8 {
        Some(Instruction::Invokestatic(u16_be(bytes, off + 1) as u16))
    } else if op == 0xb9 {
        Some(Instruction::Invokeinterface(u16_be(bytes, off + 1) as u16))
    } else if op == 0xba {
        Some(Instruction::Invokedynamic(u16_be(bytes, off + 1) as u16))
    } else if op == 0x84 {
        Some(Instruction::Iinc(bytes[off + 1] as u16, i8_at(bytes, off + 2) as i16))
    } else if op == 0x99 {
        match branch_target(bytes, offs, i) {
            Some(t) => Some(Instruction::Ifeq(t)),
            None => None,
        }
    } else if op == 0x9a {
        match branch_target(bytes, offs, i) {
            Some(t) => Some(Instruction::Ifne(t)),
            None => None,
        }
    } else if op == 0x9b {
        match branch_target(bytes, offs, i) {
            Some(t) => Some(Instruction::Iflt(t)),
            None => None,
        }
    } else if op == 0x9c {
        match branch_target(bytes, offs, i) {
            Some(t) => Some(Instruction::Ifge(t)),
            None => None,
        }
    } else if op == 0x9d {
        match branch_target(bytes, offs, i) {
            Some(t) => Some(Instruction::Ifgt(t)),
            None => None,
        }
    } else if op == 0x9e {
        match branch_target(bytes, offs, i) {
            Some(t) => Some(Instruction::Ifle(t)),
            None => None,
        }
    } else if op == 0x9f {
        match branch_target(bytes, offs, i) {
            Some(t) => Some(Instruction::IfIcmpeq(t)),
            None => None,
        }
    } else if op == 0xa0 {
        match branch_target(bytes, offs, i) {
            Some(t) => Some(Instruction::IfIcmpne(t)),
            None => None,
        }
    } else if op == 0xa1 {
        match branch_target(bytes, offs, i) {
            Some(t) => Some(Instruction::IfIcmplt(t)),
            None => None,
        }
    } else if op == 0xa2 {
        match branch_target(bytes, offs, i) {
            Some(t) => Some(Instruction::IfIcmpge(t)),
            None => None,
        }
    } else if op == 0xa3 {
        match branch_target(bytes, offs, i) {
            Some(t) => Some(Instruction::IfIcmpgt(t)),
            None => None,
        }
    } else if op == 0xa4 {
        match branch_target(bytes, offs, i) {
            Some(t) => Some(Instruction::IfIcmple(t)),
            None => None,
        }
    } else if op == 0xa5 {
        match branch_target(bytes, offs, i) {
            Some(t) => Some(Instruction::IfAcmpeq(t)),
            None => None,
        }
    } else if op == 0xa6 {
        match branch_target(bytes, offs, i) {
            Some(t) => Some(Instruction::IfAcmpne(t)),
            None => None,
        }
    } else if op == 0xa7 {
        match branch_target(bytes, offs, i) {
            Some(t) => Some(Instruction::Goto(t)),
            None => None,
        }
    } else if op == 0x00 {
        Some(Instruction::Nop)
    } else if op == 0x01 {
        Some(Instruction::AconstNull)
    } else if op == 0x57 {
        Some(Instruction::Pop)
    } else if op == 0x58 {
        Some(Instruction::Pop2)
    } else if op == 0x59 {
        Some(Instruction::Dup)
    } else if op == 0x5f {
        Some(Instruction::Swap)
    } else if op == 0x60 {
        Some(Instruction::Iadd)
    } else if op == 0x61 {
        Some(Instruction::Ladd)
    } else if op == 0x64 {
        Some(Instruction::Isub)
    } else if op == 0x65 {
        Some(Instruction::Lsub)
    } else if op == 0x68 {
        Some(Instruction::Imul)
    } else if op == 0x69 {
        Some(Instruction::Lmul)
    } else if op == 0x6c {
        Some(Instruction::Idiv)
    } else if op == 0x6d {
        Some(Instruction::Ldiv)
    } else if op == 0x70 {
        Some(Instruction::Irem)
    } else if op == 0x71 {
        Some(Instruction::Lrem)
    } else if op == 0x74 {
        Some(Instruction::Ineg)
    } else if op == 0x75 {
        Some(Instruction::Lneg)
    } else if op == 0x78 {
        Some(Instruction::Ishl)
    } else if op == 0x79 {
        Some(Instruction::Lshl)
    } else if op == 0x7a {
        Some(Instruction::Ishr)
    } else if op == 0x7b {
        Some(Instruction::Lshr)
    } else if op == 0x7c {
        Some(Instruction::Iushr)
    } else if op == 0x7d {
        Some(Instruction::Lushr)
    } else if op == 0x7e {
        Some(Instruction::Iand)
    } else if op == 0x7f {
        Some(Instruction::Land)
    } else if op == 0x80 {
        Some(Instruction::Ior)
    } else if op == 0x81 {
        Some(Instruction::Lor)
    } else if op == 0x82 {
        Some(Instruction::Ixor)
    } else if op == 0x83 {
        Some(Instruction::Lxor)
    } else if op == 0x85 {
        Some(Instruction::I2l)
    } else if op == 0x88 {
        Some(Instruction::L2i)
    } else if op == 0x91 {
        Some(Instruction::I2b)
    } else if op == 0x92 {
        Some(Instruction::I2c)
    } else if op == 0x93 {
        Some(Instruction::I2s)
    } else if op == 0x94 {
        Some(Instruction::Lcmp)
    } else if op == 0xac {
        Some(Instruction::Ireturn)
    } else if op == 0xad {
        Some(Instruction::Lreturn)
    } else if op == 0xae {
        Some(Instruction::Freturn)
    } else if op == 0xaf {
        Some(Instruction::Dreturn)
    } else if op == 0xb0 {
        Some(Instruction::Areturn)
    } else if op == 0xb1 {
        Some(Instruction::Return)
    } else {
        Some(Instruction::Unsupported(op))
    }
}

fn read_u16_at(buf: &[u8], off: usize) -> (v: u16)
    requires
        off + 2 <= buf@.len(),
    ensures
        v as int == u16_be(buf@, off as int),
{
    (buf[off] as u16) * 0x100 + (buf[off + 1] as u16)
}

fn read_i16_at(buf: &[u8], off: usize) -> (v: i16)
    requires
        off + 2 <= buf@.len(),
    ensures
        v as int == i16_be(buf@, off as int),
{
    let u = read_u16_at(buf, off);
    if u < 0x8000 {
        u as i16
    } else {
        (u as i32 - 0x1_0000i32) as i16
    }
}

fn read_i8_at(buf: &[u8], off: usize) -> (v: i8)
    requires
        off < buf@.len(),
    ensures
        v as int == i8_at(buf@, off as int),
{
    let b = buf[off];
    if b < 0x80 {
        b as i8
    } else {
        (b as i16 - 0x100i16) as i8
    }
}

proof fn lemma_insn_size_suffix(bytes: Seq<u8>, off: int)
    requires
        0 <= off <= bytes.len(),
    ensures
        insn_size(bytes.subrange(off, bytes.len() as int), 0) == insn_size(bytes, off),
{
    let sub = bytes.subrange(off, bytes.len() as int);
    if off < bytes.len() {
        assert(sub[0] == bytes[off]);
        if off + 1 < bytes.len() {
            assert(sub[1] == bytes[off + 1]);
        }
    }
}

/// Looks up the absolute instruction index that the branch at byte
/// offset `off` (instruction `pc`) targets, through the offset-to-index
/// table built by the first pass.
fn resolve_branch(
    buf: &[u8],
    index_at: &Vec<u32>,
    off: usize,
    pc: usize,
    Ghost(offs): Ghost<Seq<int>>,
) -> (r: Option<u16>)
    requires
        index_at@.len() == buf@.len(),
        forall|o: int|
            0 <= o < index_at@.len() ==> ((index_at@[o] != u32::MAX) <==> (exists|j: int|
                0 <= j < offs.len() && offs[j] == o)),
        forall|o: int|
            0 <= o < index_at@.len() && index_at@[o] != u32::MAX ==> 0 <= index_at@[o] < offs.len()
                && offs[index_at@[o] as int] == o,
        forall|j1: int, j2: int| 0 <= j1 < j2 < offs.len() ==> offs[j1] < offs[j2],
        forall|j: int| 0 <= j < offs.len() ==> 0 <= #[trigger] offs[j] < buf@.len(),
        0 <= pc < offs.len(),
        offs[pc as int] == off as int,
        off + 3 <= buf@.len(),
    ensures
        r == branch_target(buf@, offs, pc as int),
{
    let n = buf.len();
    let d = read_i16_at(buf, off + 1);
    let ghost tb = offs[pc as int] + i16_be(buf@, offs[pc as int] + 1);
    proof {
        assert forall|j1: int, j2: int|
            0 <= j1 < offs.len() && 0 <= j2 < offs.len() && offs[j1] == offs[j2] implies j1
            == j2 by {
            if j1 < j2 {
                assert(offs[j1] < offs[j2]);
            }
            if j2 < j1 {
                assert(offs[j2] < offs[j1]);
            }
        }
    }
    let t64: i128 = off as i128 + d as i128;
    if t64 < 0 || t64 >= n as i128 {
        proof {
            assert(!(exists|j: int| 0 <= j < offs.len() && offs[j] == tb && j < 0x1_0000));
        }
        return None;
    }
    let tbu = t64 as usize;
    let j = index_at[tbu];
    if j == u32::MAX {
        proof {
            assert(!(exists|j2: int| 0 <= j2 < offs.len() && offs[j2] == tb));
        }
        None
    } else if j > 0xffff {
        proof {
            assert(offs[j as int] == tb);
            if exists|j2: int| 0 <= j2 < offs.len() && offs[j2] == tb && j2 < 0x1_0000 {
                let j2 = choose|j2: int| 0 <= j2 < offs.len() && offs[j2] == tb && j2 < 0x1_0000;
                assert(j2 == j as int);
            }
        }
        None
    } else {
        proof {
            assert(offs[j as int] == tb);
            assert(exists|j2: int| 0 <= j2 < offs.len() && offs[j2] == tb && j2 < 0x1_0000);
            let j2 = choose|j2: int| 0 <= j2 < offs.len() && offs[j2] == tb && j2 < 0x1_0000;
            assert(j2 == j as int);
        }
        Some(j as u16)
    }
}

impl Instruction {
    /// Decodes a whole method body.
    ///
    /// The first pass tiles the bytes into instruction-sized pieces from
    /// the size table; the second decodes each opcode and resolves every
    /// branch displacement to the absolute index of the instruction it
    /// lands on.  A displacement that lands off every instruction
    /// boundary is a decode failure, never a wrong-target success; an
    /// opcode without a size is reported with its byte value.
    #[verifier::loop_isolation(false)]
    #[verifier::rlimit(60)]
    pub fn read_from(buf: &[u8], length: u32) -> (r: Result<
        Vec<Instruction>,
        BytecodeParseError,
    >)
        requires
            buf@.len() == length as int,
        ensures
            ({
                let outcome = scan(buf@, 0);
                match r {
                    Ok(code) => outcome.is_tiled() && code@.len() == outcome.offsets().len() && (
                    forall|i: int|
                        0 <= i < code@.len() ==> decode_at(buf@, outcome.offsets(), i) == Some(
                            code@[i],
                        )),
                    Err(BytecodeParseError::InvalidOpcode(op)) => !outcome.is_tiled() && 0
                        <= outcome.stuck_at() < buf@.len() && insn_size(buf@, outcome.stuck_at())
                        == 0 && buf@[outcome.stuck_at()] == op,
                    Err(BytecodeParseError::EarlyEnd) => !outcome.is_tiled() && insn_size(
                        buf@,
                        outcome.stuck_at(),
                    ) != 0,
                    Err(BytecodeParseError::InvalidCode) => outcome.is_tiled() && (exists|i: int|
                        0 <= i < outcome.offsets().len() && decode_at(
                            buf@,
                            outcome.offsets(),
                            i,
                        ) == None::<Instruction>),
                }
            }),
{
        let ghost bytes = buf@;
        // First pass: derive the byte offset of every instruction from
        // the size table alone.
        let mut offsets: Vec<u32> = Vec::new();
        let mut off: usize = 0;
        loop
            invariant
                off <= bytes.len(),
                offsets@.len() <= off,
                forall|k: int| 0 <= k < offsets@.len() ==> offsets@[k] < bytes.len(),
                scan(bytes, 0).is_tiled() <==> scan(bytes, off as int).is_tiled(),
                scan(bytes, 0).is_tiled() ==> scan(bytes, 0).offsets() == offsets@.map_values(
                    |x: u32| x as int,
                ) + scan(bytes, off as int).offsets(),
                !scan(bytes, 0).is_tiled() ==> scan(bytes, 0).stuck_at() == scan(
                    bytes,
                    off as int,
                ).stuck_at(),
            decreases bytes.len() - off,
        {
            if off == buf.len() {
                break;
            }
            let sz = Instruction::raw_size(&buf[off..buf.len()]);
            proof {
                lemma_insn_size_suffix(bytes, off as int);
            }
            if sz == 0 {
                proof {
                    assert(scan(bytes, off as int) == ScanOutcome::Stuck(off as int));
                }
                return Err(BytecodeParseError::InvalidOpcode(buf[off]));
            }
            if sz as usize > buf.len() - off {
                proof {
                    assert(scan(bytes, off as int) == ScanOutcome::Stuck(off as int));
                }
                return Err(BytecodeParseError::EarlyEnd);
            }
            let ghost old_offsets = offsets@;
            let ghost old_off = off as int;
            offsets.push(off as u32);
            off = off + sz as usize;
            proof {
                let sz_i = insn_size(bytes, old_off);
                assert(scan(bytes, old_off) == match scan(bytes, old_off + sz_i) {
                    ScanOutcome::Tiled(rest) => ScanOutcome::Tiled(seq![old_off] + rest),
                    ScanOutcome::Stuck(o) => ScanOutcome::Stuck(o),
                });
                if scan(bytes, 0).is_tiled() {
                    assert(offsets@.map_values(|x: u32| x as int) =~= old_offsets.map_values(
                        |x: u32| x as int,
                    ) + seq![old_off]);
                    assert(offsets@.map_values(|x: u32| x as int) + scan(
                        bytes,
                        off as int,
                    ).offsets() =~= old_offsets.map_values(|x: u32| x as int) + (seq![old_off]
                        + scan(bytes, off as int).offsets()));
                }
            }
        }
        proof {
            assert(scan(bytes, off as int) == ScanOutcome::Tiled(Seq::<int>::empty()));
            assert(scan(bytes, 0).is_tiled());
            assert(scan(bytes, 0).offsets() =~= offsets@.map_values(|x: u32| x as int));
            lemma_scan_offsets(bytes, 0);
        }
        let ghost offs = scan(bytes, 0).offsets();
        // The inverse table: for every byte offset that starts an
        // instruction, the index of that instruction.
        let mut index_at: Vec<u32> = Vec::new();
        loop
            invariant
                index_at@.len() <= bytes.len(),
                forall|o: int| 0 <= o < index_at@.len() ==> index_at@[o] == u32::MAX,
            decreases bytes.len() - index_at@.len(),
        {
            if index_at.len() == buf.len() {
                break;
            }
            index_at.push(u32::MAX);
        }
        let mut k: usize = 0;
        loop
            invariant
                k <= offsets@.len(),
                index_at@.len() == bytes.len(),
                forall|o: int|
                    0 <= o < index_at@.len() ==> ((index_at@[o] != u32::MAX) <==> (exists|j: int|
                        0 <= j < k && offs[j] == o)),
                forall|j: int|
                    0 <= j < k ==> index_at@[offs[j]] == j,
            decreases offsets@.len() - k,
        {
            if k == offsets.len() {
                break;
            }
            let o = offsets[k] as usize;
            proof {
                assert(offs[k as int] == o as int);
            }
            index_at.set(o, k as u32);
            k = k + 1;
            proof {
                assert forall|j: int| 0 <= j < k implies index_at@[offs[j]] == j by {
                    if j < k - 1 {
                        assert(offs[j] < offs[k - 1]);
                    }
                }
            }
        }
        proof {
            assert forall|o: int|
                0 <= o < index_at@.len() && index_at@[o] != u32::MAX implies 0 <= index_at@[o]
                < offs.len() && offs[index_at@[o] as int] == o by {
                let j = choose|j: int| 0 <= j < offs.len() && offs[j] == o;
                assert(index_at@[offs[j]] == j);
            }
        }
        // Second pass: decode each opcode into its typed instruction.
        let mut code: Vec<Instruction> = Vec::new();
        let mut pc: usize = 0;
        loop
            invariant
                pc <= offsets@.len(),
                code@.len() == pc,
                forall|i: int| 0 <= i < pc ==> decode_at(bytes, offs, i) == Some(code@[i]),
            decreases offsets@.len() - pc,
        {
            if pc == offsets.len() {
                break;
            }
            let off = offsets[pc] as usize;
            proof {
                assert(offs[pc as int] == off as int);
                assert(insn_size(bytes, off as int) >= 1 && off as int + insn_size(
                    bytes,
                    off as int,
                ) <= bytes.len());
            }
            let op = buf[off];
        let insn: Instruction = if op == 0x02 || op == 0x03 || op == 0x04 || op == 0x05 || op == 0x06 || op == 0x07 || op == 0x08 {
            Instruction::Ipush(op as i16 - 3)
        } else if op == 0x09 || op == 0x0a {
            Instruction::Lpush(op as i16 - 9)
        } else if op == 0x10 {
            Instruction::Ipush(read_i8_at(buf, off + 1) as i16)
        } else if op == 0x11 {
            Instruction::Ipush(read_i16_at(buf, off + 1))
        } else if op == 0x12 {
            Instruction::Ldc(buf[off + 1] as u16)
        } else if op == 0x15 {
            Instruction::Iload(buf[off + 1] as u16)
        } else if op == 0x16 {
            Instruction::Lload(buf[off + 1] as u16)
        } else if op == 0x17 {
            Instruction::Fload(buf[off + 1] as u16)
        } else if op == 0x18 {
            Instruction::Dload(buf[off + 1] as u16)
        } else if op == 0x19 {
            Instruction::Aload(buf[off + 1] as u16)
        } else if op == 0x36 {
            Instruction::Istore(buf[off + 1] as u16)
        } else if op == 0x37 {
            Instruction::Lstore(buf[off + 1] as u16)
        } else if op == 0x38 {
            Instruction::Fstore(buf[off + 1] as u16)
        } else if op == 0x39 {
            Instruction::Dstore(buf[off + 1] as u16)
        } else if op == 0x3a {
            Instruction::Astore(buf[off + 1] as u16)
        } else if op == 0x1a || op == 0x1b || op == 0x1c || op == 0x1d {
            Instruction::Iload(op as u16 - 0x1a)
        } else if op == 0x1e || op == 0x1f || op == 0x20 || op == 0x21 {
            Instruction::Lload(op as u16 - 0x1e)
        } else if op == 0x22 || op == 0x23 || op == 0x24 || op == 0x25 {
            Instruction::Fload(op as u16 - 0x22)
        } else if op == 0x26 || op == 0x27 || op == 0x28 || op == 0x29 {
            Instruction::Dload(op as u16 - 0x26)
        } else if op == 0x2a || op == 0x2b || op == 0x2c || op == 0x2d {
            Instruction::Aload(op as u16 - 0x2a)
        } else if op == 0x3b || op == 0x3c || op == 0x3d || op == 0x3e {
            Instruction::Istore(op as u16 - 0x3b)
        } else if op == 0x3f || op == 0x40 || op == 0x41 || op == 0x42 {
            Instruction::Lstore(op as u16 - 0x3f)
        } else if op == 0x43 || op == 0x44 || op == 0x45 || op == 0x46 {
            Instruction::Fstore(op as u16 - 0x43)
        } else if op == 0x47 || op == 0x48 || op == 0x49 || op == 0x4a {
            Instruction::Dstore(op as u16 - 0x47)
        } else if op == 0x4b || op == 0x4c || op == 0x4d || op == 0x4e {
            Instruction::Astore(op as u16 - 0x4b)
        } else if op == 0x13 {
            Instruction::LdcW(read_u16_at(buf, off + 1))
        } else if op == 0x14 {
            Instruction::Ldc2W(read_u16_at(buf, off + 1))
        } else if op == 0xb2 {
            Instruction::Getstatic(read_u16_at(buf, off + 1))
        } else if op == 0xb3 {
            Instruction::Putstatic(read_u16_at(buf, off + 1))
        } else if op == 0xb4 {
            Instruction::Getfield(read_u16_at(buf, off + 1))
        } else if op == 0xb5 {
            Instruction::Putfield(read_u16_at(buf, off + 1))
        } else if op == 0xb6 {
            Instruction::Invokevirtual(read_u16_at(buf, off + 1))
        } else if op == 0xb7 {
            Instruction::Invokespecial(read_u16_at(buf, off + 1))
        } else if op == 0xb8 {
            Instruction::Invokestatic(read_u16_at(buf, off + 1))
        } else if op == 0xb9 {
            Instruction::Invokeinterface(read_u16_at(buf, off + 1))
        } else if op == 0xba {
            Instruction::Invokedynamic(read_u16_at(buf, off + 1))
        } else if op == 0x84 {
            Instruction::Iinc(buf[off + 1] as u16, read_i8_at(buf, off + 2) as i16)
        } else if op == 0x99 {
            match resolve_branch(buf, &index_at, off, pc, Ghost(offs)) {
                Some(t) => Instruction::Ifeq(t),
                None => { return Err(BytecodeParseError::InvalidCode); },
            }
        } else if op == 0x9a {
            match resolve_branch(buf, &index_at, off, pc, Ghost(offs)) {
                Some(t) => Instruction::Ifne(t),
                None => { return Err(BytecodeParseError::InvalidCode); },
            }
        } else if op == 0x9b {
            match resolve_branch(buf, &index_at, off, pc, Ghost(offs)) {
                Some(t) => Instruction::Iflt(t),
                None => { return Err(BytecodeParseError::InvalidCode); },
            }
        } else if op == 0x9c {
            match resolve_branch(buf, &index_at, off, pc, Ghost(offs)) {
                Some(t) => Instruction::Ifge(t),
                None => { return Err(BytecodeParseError::InvalidCode); },
            }
        } else if op == 0x9d {
            match resolve_branch(buf, &index_at, off, pc, Ghost(offs)) {
                Some(t) => Instruction::Ifgt(t),
                None => { return Err(BytecodeParseError::InvalidCode); },
            }
        } else if op == 0x9e {
            match resolve_branch(buf, &index_at, off, pc, Ghost(offs)) {
                Some(t) => Instruction::Ifle(t),
                None => { return Err(BytecodeParseError::InvalidCode); },
            }
        } else if op == 0x9f {
            match resolve_branch(buf, &index_at, off, pc, Ghost(offs)) {
                Some(t) => Instruction::IfIcmpeq(t),
                None => { return Err(BytecodeParseError::InvalidCode); },
            }
        } else if op == 0xa0 {
            match resolve_branch(buf, &index_at, off, pc, Ghost(offs)) {
                Some(t) => Instruction::IfIcmpne(t),
                None => { return Err(BytecodeParseError::InvalidCode); },
            }
        } else if op == 0xa1 {
            match resolve_branch(buf, &index_at, off, pc, Ghost(offs)) {
                Some(t) => Instruction::IfIcmplt(t),
                None => { return Err(BytecodeParseError::InvalidCode); },
            }
        } else if op == 0xa2 {
            match resolve_branch(buf, &index_at, off, pc, Ghost(offs)) {
                Some(t) => Instruction::IfIcmpge(t),
                None => { return Err(BytecodeParseError::InvalidCode); },
            }
        } else if op == 0xa3 {
            match resolve_branch(buf, &index_at, off, pc, Ghost(offs)) {
                Some(t) => Instruction::IfIcmpgt(t),
                None => { return Err(BytecodeParseError::InvalidCode); },
            }
        } else if op == 0xa4 {
            match resolve_branch(buf, &index_at, off, pc, Ghost(offs)) {
                Some(t) => Instruction::IfIcmple(t),
                None => { return Err(BytecodeParseError::InvalidCode); },
            }
        } else if op == 0xa5 {
            match resolve_branch(buf, &index_at, off, pc, Ghost(offs)) {
                Some(t) => Instruction::IfAcmpeq(t),
                None => { return Err(BytecodeParseError::InvalidCode); },
            }
        } else if op == 0xa6 {
            match resolve_branch(buf, &index_at, off, pc, Ghost(offs)) {
                Some(t) => Instruction::IfAcmpne(t),
                None => { return Err(BytecodeParseError::InvalidCode); },
            }
        } else if op == 0xa7 {
            match resolve_branch(buf, &index_at, off, pc, Ghost(offs)) {
                Some(t) => Instruction::Goto(t),
                None => { return Err(BytecodeParseError::InvalidCode); },
            }
        } else if op == 0x00 {
            Instruction::Nop
        } else if op == 0x01 {
            Instruction::AconstNull
        } else if op == 0x57 {
            Instruction::Pop
        } else if op == 0x58 {
            Instruction::Pop2
        } else if op == 0x59 {
            Instruction::Dup
        } else if op == 0x5f {
            Instruction::Swap
        } else if op == 0x60 {
            Instruction::Iadd
        } else if op == 0x61 {
            Instruction::Ladd
        } else if op == 0x64 {
            Instruction::Isub
        } else if op == 0x65 {
            Instruction::Lsub
        } else if op == 0x68 {
            Instruction::Imul
        } else if op == 0x69 {
            Instruction::Lmul
        } else if op == 0x6c {
            Instruction::Idiv
        } else if op == 0x6d {
            Instruction::Ldiv
        } else if op == 0x70 {
            Instruction::Irem
        } else if op == 0x71 {
            Instruction::Lrem
        } else if op == 0x74 {
            Instruction::Ineg
        } else if op == 0x75 {
            Instruction::Lneg
        } else if op == 0x78 {
            Instruction::Ishl
        } else if op == 0x79 {
            Instruction::Lshl
        } else if op == 0x7a {
            Instruction::Ishr
        } else if op == 0x7b {
            Instruction::Lshr
        } else if op == 0x7c {
            Instruction::Iushr
        } else if op == 0x7d {
            Instruction::Lushr
        } else if op == 0x7e {
            Instruction::Iand
        } else if op == 0x7f {
            Instruction::Land
        } else if op == 0x80 {
            Instruction::Ior
        } else if op == 0x81 {
            Instruction::Lor
        } else if op == 0x82 {
            Instruction::Ixor
        } else if op == 0x83 {
            Instruction::Lxor
        } else if op == 0x85 {
            Instruction::I2l
        } else if op == 0x88 {
            Instruction::L2i
        } else if op == 0x91 {
            Instruction::I2b
        } else if op == 0x92 {
            Instruction::I2c
        } else if op == 0x93 {
            Instruction::I2s
        } else if op == 0x94 {
            Instruction::Lcmp
        } else if op == 0xac {
            Instruction::Ireturn
        } else if op == 0xad {
            Instruction::Lreturn
        } else if op == 0xae {
            Instruction::Freturn
        } else if op == 0xaf {
            Instruction::Dreturn
        } else if op == 0xb0 {
            Instruction::Areturn
        } else if op == 0xb1 {
            Instruction::Return
        } else {
            Instruction::Unsupported(op)
        };

            code.push(insn);
            proof {
                assert(decode_at(bytes, offs, pc as int) == Some(insn));
            }
            pc = pc + 1;
        }
        Ok(code)
    }
}

} // verus!
