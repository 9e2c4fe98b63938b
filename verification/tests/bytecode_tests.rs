use classvm::bytecode::{BytecodeParseError, Instruction};

#[test]
fn instruction_size() {
    assert!(8 >= std::mem::size_of::<Instruction>());
}

#[test]
fn raw_size_matches_documented_lengths() {
    // Zero-operand opcodes encode in one byte.
    assert_eq!(Instruction::raw_size(&[0x00]), 1); // nop
    assert_eq!(Instruction::raw_size(&[0x03]), 1); // iconst_0
    assert_eq!(Instruction::raw_size(&[0x60]), 1); // iadd
    assert_eq!(Instruction::raw_size(&[0xac]), 1); // ireturn
    assert_eq!(Instruction::raw_size(&[0xbe]), 1); // arraylength
    // One-operand opcodes take two bytes.
    assert_eq!(Instruction::raw_size(&[0x10, 0x05]), 2); // bipush
    assert_eq!(Instruction::raw_size(&[0x12, 0x01]), 2); // ldc
    assert_eq!(Instruction::raw_size(&[0x15, 0x00]), 2); // iload
    // Two-operand opcodes take three bytes.
    assert_eq!(Instruction::raw_size(&[0x11, 0x00, 0x07]), 3); // sipush
    assert_eq!(Instruction::raw_size(&[0x84, 0x00, 0x01]), 3); // iinc
    assert_eq!(Instruction::raw_size(&[0xa7, 0x00, 0x03]), 3); // goto
    assert_eq!(Instruction::raw_size(&[0xb2, 0x00, 0x02]), 3); // getstatic
    // The longer fixed formats.
    assert_eq!(Instruction::raw_size(&[0xc5, 0x00, 0x01, 0x02]), 4); // multianewarray
    assert_eq!(Instruction::raw_size(&[0xb9, 0, 1, 1, 0]), 5); // invokeinterface
    assert_eq!(Instruction::raw_size(&[0xba, 0, 1, 0, 0]), 5); // invokedynamic
    assert_eq!(Instruction::raw_size(&[0xc8, 0, 0, 0, 5]), 5); // goto_w
    // The wide prefix is sized by its second byte.
    assert_eq!(Instruction::raw_size(&[0xc4, 0x84, 0, 0, 0]), 5); // wide iinc
    assert_eq!(Instruction::raw_size(&[0xc4, 0x15, 0, 0]), 3); // wide iload
    // Switches and undefined bytes have no size.
    assert_eq!(Instruction::raw_size(&[0xaa]), 0); // tableswitch
    assert_eq!(Instruction::raw_size(&[0xab]), 0); // lookupswitch
    assert_eq!(Instruction::raw_size(&[0xcb]), 0); // undefined
    assert_eq!(Instruction::raw_size(&[]), 0);
}

#[test]
fn decode_recovers_instruction_count() {
    // iconst_0, iconst_1, iadd, ireturn: four boundaries, four
    // instructions.
    let bytes = [0x03u8, 0x04, 0x60, 0xac];
    let code = Instruction::read_from(&bytes, 4).unwrap();
    assert_eq!(code.len(), 4);
    assert_eq!(code[0], Instruction::Ipush(0));
    assert_eq!(code[1], Instruction::Ipush(1));
    assert_eq!(code[2], Instruction::Iadd);
    assert_eq!(code[3], Instruction::Ireturn);
}

#[test]
fn decode_mixed_widths() {
    // bipush 7, sipush 0x0102, iload 3, istore_2, ldc 9
    let bytes = [0x10u8, 0x07, 0x11, 0x01, 0x02, 0x15, 0x03, 0x3d, 0x12, 0x09];
    let code = Instruction::read_from(&bytes, 10).unwrap();
    assert_eq!(code.len(), 5);
    assert_eq!(code[0], Instruction::Ipush(7));
    assert_eq!(code[1], Instruction::Ipush(0x0102));
    assert_eq!(code[2], Instruction::Iload(3));
    assert_eq!(code[3], Instruction::Istore(2));
    assert_eq!(code[4], Instruction::Ldc(9));
}

#[test]
fn branch_resolves_to_absolute_instruction_index() {
    // offset 0: iconst_0; offset 1: goto +3 (lands on byte 4); offset
    // 4: nop.  Byte 4 is instruction 2.
    let bytes = [0x03u8, 0xa7, 0x00, 0x03, 0x00];
    let code = Instruction::read_from(&bytes, 5).unwrap();
    assert_eq!(code.len(), 3);
    assert_eq!(code[1], Instruction::Goto(2));
}

#[test]
fn backward_branch_resolves() {
    // offset 0: nop; offset 1: iconst_0; offset 2: goto -1 (lands on
    // byte 1, instruction 1).
    let bytes = [0x00u8, 0x03, 0xa7, 0xff, 0xff];
    let code = Instruction::read_from(&bytes, 5).unwrap();
    assert_eq!(code[2], Instruction::Goto(1));
}

#[test]
fn branch_off_boundary_is_invalid_code() {
    // goto +2 lands in the middle of the goto itself: never a
    // wrong-target success.
    let bytes = [0xa7u8, 0x00, 0x02];
    match Instruction::read_from(&bytes, 3) {
        Err(BytecodeParseError::InvalidCode) => {}
        other => panic!("expected InvalidCode, got {:?}", other),
    }
}

#[test]
fn unknown_opcode_is_reported_with_its_byte() {
    let bytes = [0x03u8, 0xcb];
    match Instruction::read_from(&bytes, 2) {
        Err(BytecodeParseError::InvalidOpcode(op)) => assert_eq!(op, 0xcb),
        other => panic!("expected InvalidOpcode, got {:?}", other),
    }
}

#[test]
fn truncated_instruction_is_early_end() {
    // bipush with its operand byte missing.
    let bytes = [0x10u8];
    match Instruction::read_from(&bytes, 1) {
        Err(BytecodeParseError::EarlyEnd) => {}
        other => panic!("expected EarlyEnd, got {:?}", other),
    }
}

#[test]
fn unexecuted_opcodes_decode_as_unsupported() {
    // new #1, athrow
    let bytes = [0xbbu8, 0x00, 0x01, 0xbf];
    let code = Instruction::read_from(&bytes, 4).unwrap();
    assert_eq!(code[0], Instruction::Unsupported(0xbb));
    assert_eq!(code[1], Instruction::Unsupported(0xbf));
}
