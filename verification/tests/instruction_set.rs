use dex_rs_classfile::{ClassReader, InstructionSet, JvmInstruction, ParseError};

#[test]
fn decodes_add_method_body() {
    // iconst_3, istore_0, iconst_2, istore_1, iload_0, iload_1, iadd, ireturn
    let code = [0x06, 0x3b, 0x05, 0x3c, 0x1a, 0x1b, 0x60, 0xac];
    let mut reader = ClassReader::new(&code);

    let set = InstructionSet::decode(&mut reader, code.len()).expect("valid code");

    assert_eq!(
        set.instructions,
        vec![
            JvmInstruction::IConst(3),
            JvmInstruction::IStore(0),
            JvmInstruction::IConst(2),
            JvmInstruction::IStore(1),
            JvmInstruction::ILoad(0),
            JvmInstruction::ILoad(1),
            JvmInstruction::IAdd,
            JvmInstruction::IReturn,
        ]
    );
    assert_eq!(reader.offset(), code.len());
}

#[test]
fn decodes_operands() {
    let code = [0x15, 0x07, 0x02, 0xb2, 0x00, 0x02, 0xb6, 0x00, 0x03, 0xb8, 0x00, 0x04, 0xb7, 0x01, 0x00, 0xb1];
    let mut reader = ClassReader::new(&code);

    let set = InstructionSet::decode(&mut reader, code.len()).unwrap();

    assert_eq!(
        set.instructions,
        vec![
            JvmInstruction::ILoad(7),
            JvmInstruction::IConst(-1),
            JvmInstruction::GetStatic(2),
            JvmInstruction::InvokeStatic(3),
            JvmInstruction::InvokeVirtual(4),
            JvmInstruction::InvokeSpecial { index: 0x0100 },
            JvmInstruction::Return,
        ]
    );
}

#[test]
fn rejects_unsupported_opcode() {
    let code = [0x03, 0x00];
    let mut reader = ClassReader::new(&code);

    let result = InstructionSet::decode(&mut reader, code.len());

    assert_eq!(result.err(), Some(ParseError::InvalidOpcode { opcode: 0x00 }));
}

#[test]
fn reports_operand_past_the_end() {
    let code = [0x04, 0xb2, 0x00];
    let mut reader = ClassReader::new(&code);

    let result = InstructionSet::decode(&mut reader, code.len());

    assert_eq!(result.err(), Some(ParseError::UnexpectedEof { offset: 2 }));
}

#[test]
fn stops_at_code_length() {
    let code = [0x04, 0x05, 0xff];
    let mut reader = ClassReader::new(&code);

    let set = InstructionSet::decode(&mut reader, 2).unwrap();

    assert_eq!(set.instructions, vec![JvmInstruction::IConst(1), JvmInstruction::IConst(2)]);
    assert_eq!(reader.offset(), 2);
}

#[test]
fn empty_code_decodes_to_nothing() {
    let mut reader = ClassReader::new(&[]);

    let set = InstructionSet::decode(&mut reader, 0).unwrap();

    assert!(set.instructions.is_empty());
}
