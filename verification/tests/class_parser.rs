use dex_rs_classfile::class_parser::{parse_class_body, ClassElement, MemberInfo};
use dex_rs_classfile::constant_pool::ConstantPoolEntry;
use dex_rs_classfile::{
    ClassParser, ClassReader, ConstantPool, JvmInstruction, ParseError, VersionError,
};

fn header(major: u16, minor: u16) -> Vec<u8> {
    let mut bytes = vec![0xCA, 0xFE, 0xBA, 0xBE];
    bytes.extend_from_slice(&minor.to_be_bytes());
    bytes.extend_from_slice(&major.to_be_bytes());
    bytes
}

/// A small class: one interface, one field with an attribute that is skipped, one
/// method with a `Code` attribute, no class attributes.
fn sample_class() -> Vec<u8> {
    let mut bytes = header(52, 0);
    bytes.extend_from_slice(&[0x00, 0x06]);
    bytes.extend_from_slice(&[0x01, 0x00, 0x04, b'C', b'o', b'd', b'e']);
    bytes.extend_from_slice(&[0x01, 0x00, 0x03, b'a', b'd', b'd']);
    bytes.extend_from_slice(&[0x05, 0, 0, 0, 0, 0, 0, 0, 7]);
    bytes.extend_from_slice(&[0x07, 0x00, 0x02]);
    // access flags, this class, super class, interfaces
    bytes.extend_from_slice(&[0x00, 0x21, 0x00, 0x05, 0x00, 0x05, 0x00, 0x01, 0x00, 0x05]);
    // one field with one attribute of three bytes
    bytes.extend_from_slice(&[0x00, 0x01]);
    bytes.extend_from_slice(&[0x00, 0x02, 0x00, 0x02, 0x00, 0x02, 0x00, 0x01]);
    bytes.extend_from_slice(&[0x00, 0x02, 0x00, 0x00, 0x00, 0x03, 0xAA, 0xBB, 0xCC]);
    // one method with a Code attribute
    bytes.extend_from_slice(&[0x00, 0x01]);
    bytes.extend_from_slice(&[0x00, 0x09, 0x00, 0x02, 0x00, 0x02, 0x00, 0x01]);
    let mut code = vec![0x00, 0x02, 0x00, 0x02, 0x00, 0x00, 0x00, 0x08];
    code.extend_from_slice(&[0x06, 0x3b, 0x05, 0x3c, 0x1a, 0x1b, 0x60, 0xac]);
    code.extend_from_slice(&[0x00, 0x01, 0, 0, 0, 8, 0, 8, 0, 0]);
    code.extend_from_slice(&[0x00, 0x00]);
    bytes.extend_from_slice(&[0x00, 0x01]);
    bytes.extend_from_slice(&(code.len() as u32).to_be_bytes());
    bytes.extend_from_slice(&code);
    // no class attributes
    bytes.extend_from_slice(&[0x00, 0x00]);
    bytes
}

#[test]
fn parses_sample_class() {
    let bytes = sample_class();
    let mut reader = ClassReader::new(&bytes);

    let parsed = ClassParser::try_parse(&mut reader).expect("well-formed class");

    assert_eq!(parsed.version.major(), 52);
    assert_eq!(parsed.version.java_version(), Some(8));
    assert_eq!(parsed.constant_pool.count, 6);
    assert_eq!(parsed.constant_pool.utf8(1), Some("Code"));
    assert!(matches!(parsed.constant_pool.get(3), Some(ConstantPoolEntry::Long(7))));
    assert_eq!(reader.offset(), bytes.len());

    let member = |ordinal, access_flags| MemberInfo {
        ordinal,
        access_flags,
        name_index: 2,
        descriptor_index: 2,
        attributes_count: 1,
    };
    assert_eq!(
        parsed.elements,
        vec![
            ClassElement::AccessFlags(0x21),
            ClassElement::ThisClass(5),
            ClassElement::SuperClass(5),
            ClassElement::InterfacesCount(1),
            ClassElement::Interface { ordinal: 0, class_index: 5 },
            ClassElement::FieldsCount(1),
            ClassElement::Field(member(0, 0x02)),
            ClassElement::Attribute { name_index: 2, length: 3 },
            ClassElement::MethodsCount(1),
            ClassElement::Method(member(0, 0x09)),
            ClassElement::Attribute { name_index: 1, length: 28 },
            ClassElement::Code { max_stack: 2, max_locals: 2, code_length: 8 },
            ClassElement::Instruction(JvmInstruction::IConst(3)),
            ClassElement::Instruction(JvmInstruction::IStore(0)),
            ClassElement::Instruction(JvmInstruction::IConst(2)),
            ClassElement::Instruction(JvmInstruction::IStore(1)),
            ClassElement::Instruction(JvmInstruction::ILoad(0)),
            ClassElement::Instruction(JvmInstruction::ILoad(1)),
            ClassElement::Instruction(JvmInstruction::IAdd),
            ClassElement::Instruction(JvmInstruction::IReturn),
            ClassElement::ClassAttributesCount(0),
        ]
    );
}

#[test]
fn parse_of_well_formed_class_gives_the_same() {
    let bytes = sample_class();
    let mut reader = ClassReader::new(&bytes);

    let parsed = ClassParser::parse(&mut reader);

    assert_eq!(parsed.version.java_version(), Some(8));
    assert!(!parsed.version.preview());
    assert_eq!(parsed.elements.len(), 21);
}

#[test]
fn rejects_unsupported_version() {
    let mut bytes = header(55, u16::MAX);
    bytes.extend_from_slice(&[0x00, 0x01]);
    let mut reader = ClassReader::new(&bytes);

    let result = ClassParser::try_parse(&mut reader);

    assert_eq!(
        result.err(),
        Some(ParseError::InvalidVersion(VersionError::InvalidMajor { major: 55 }))
    );
}

#[test]
fn rejects_wrong_magic() {
    let bytes = [0xCA, 0xFE, 0xD0, 0x0D, 0, 0, 0, 52];
    let mut reader = ClassReader::new(&bytes);

    let result = ClassParser::try_parse(&mut reader);

    assert_eq!(result.err(), Some(ParseError::InvalidMagic { found: 0xCAFE_D00D }));
}

#[test]
fn rejects_truncated_class() {
    let bytes = sample_class();
    let cut = &bytes[..bytes.len() - 1];
    let mut reader = ClassReader::new(cut);

    let result = ClassParser::try_parse(&mut reader);

    assert_eq!(result.err(), Some(ParseError::UnexpectedEof { offset: cut.len() - 1 }));
}

#[test]
fn rejects_bad_bytecode_in_code_attribute() {
    let mut bytes = sample_class();
    let ireturn = bytes.iter().rposition(|b| *b == 0xac).unwrap();
    bytes[ireturn] = 0xfe;
    let mut reader = ClassReader::new(&bytes);

    let result = ClassParser::try_parse(&mut reader);

    assert_eq!(result.err(), Some(ParseError::InvalidOpcode { opcode: 0xfe }));
}

#[test]
fn malformed_body_keeps_elements_read_before_the_fault() {
    let bytes = sample_class();
    let cut = &bytes[..bytes.len() - 4];
    let mut reader = ClassReader::new(cut);
    dex_rs_classfile::RawClassFileVersion::parse(&mut reader).unwrap();
    let pool = ConstantPool::try_from(&mut reader).unwrap();
    let mut elements = Vec::new();

    let result = parse_class_body(&mut reader, &pool, &mut elements);

    assert_eq!(result, Err(ParseError::UnexpectedEof { offset: cut.len() }));
    assert_eq!(elements[0], ClassElement::AccessFlags(0x21));
    assert_eq!(elements.len(), 20);
    assert_eq!(elements.last(), Some(&ClassElement::Instruction(JvmInstruction::IReturn)));
}
