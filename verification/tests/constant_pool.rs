use dex_rs_classfile::constant_pool::{ConstantPoolEntry, ConstantPoolTag};
use dex_rs_classfile::{ClassReader, ConstantPool, ParseError};

/// count 6: "Code", "add", a long (two slots), a class naming #2.
fn sample_pool() -> Vec<u8> {
    let mut bytes = vec![0x00, 0x06];
    bytes.extend_from_slice(&[0x01, 0x00, 0x04, b'C', b'o', b'd', b'e']);
    bytes.extend_from_slice(&[0x01, 0x00, 0x03, b'a', b'd', b'd']);
    bytes.extend_from_slice(&[0x05, 0, 0, 0, 0, 0, 0, 0, 42]);
    bytes.extend_from_slice(&[0x07, 0x00, 0x02]);
    bytes
}

#[test]
fn reads_sample_pool() {
    let bytes = sample_pool();
    let mut reader = ClassReader::new(&bytes);
    let pool = ConstantPool::try_from(&mut reader).expect("valid pool");

    assert_eq!(pool.count, 6);
    assert_eq!(reader.offset(), bytes.len());
    assert_eq!(pool.utf8(1), Some("Code"));
    assert_eq!(pool.utf8(2), Some("add"));
    assert!(matches!(pool.get(3), Some(ConstantPoolEntry::Long(42))));
    assert!(matches!(pool.get(4), Some(ConstantPoolEntry::Unusable)));
    assert!(matches!(pool.get(5), Some(ConstantPoolEntry::Class { .. })));
}

#[test]
fn slot_zero_and_slots_past_the_end_hold_nothing() {
    let bytes = sample_pool();
    let mut reader = ClassReader::new(&bytes);
    let pool = ConstantPool::try_from(&mut reader).unwrap();

    assert!(pool.get(0).is_none());
    assert!(pool.get(6).is_none());
    assert!(pool.get(u16::MAX).is_none());
    assert_eq!(pool.utf8(0), None);
    assert_eq!(pool.utf8(6), None);
}

#[test]
fn utf8_of_a_non_utf8_entry_is_none() {
    let bytes = sample_pool();
    let mut reader = ClassReader::new(&bytes);
    let pool = ConstantPool::try_from(&mut reader).unwrap();

    assert_eq!(pool.utf8(3), None);
    assert_eq!(pool.utf8(5), None);
}

#[test]
fn utf8_of_malformed_bytes_is_none() {
    let bytes = [0x00, 0x02, 0x01, 0x00, 0x02, 0xC0, 0x80];
    let mut reader = ClassReader::new(&bytes);
    let pool = ConstantPool::try_from(&mut reader).unwrap();

    assert!(matches!(pool.get(1), Some(ConstantPoolEntry::Utf8(b)) if *b == [0xC0, 0x80]));
    assert_eq!(pool.utf8(1), None);
}

#[test]
fn empty_pool_keeps_slot_zero() {
    let bytes = [0x00, 0x00, 0xAA];
    let mut reader = ClassReader::new(&bytes);
    let pool = ConstantPool::try_from(&mut reader).unwrap();

    assert_eq!(pool.count, 0);
    assert_eq!(reader.offset(), 2);
    assert!(pool.get(0).is_none());
    assert!(pool.get(1).is_none());
}

#[test]
fn rejects_unknown_tag_at_its_offset() {
    let bytes = [0x00, 0x03, 0x03, 0, 0, 0, 1, 0x02, 0x00];
    let mut reader = ClassReader::new(&bytes);

    let result = ConstantPool::try_from(&mut reader);

    assert_eq!(
        result.err(),
        Some(ParseError::InvalidConstantPoolTag { offset: 7, tag: 2 })
    );
}

#[test]
fn rejects_long_in_last_slot() {
    let bytes = [0x00, 0x02, 0x06, 0, 0, 0, 0, 0, 0, 0, 1];
    let mut reader = ClassReader::new(&bytes);

    let result = ConstantPool::try_from(&mut reader);

    assert_eq!(result.err(), Some(ParseError::InvalidConstantPoolLayout { offset: 2 }));
}

#[test]
fn reports_truncated_entry() {
    let bytes = [0x00, 0x02, 0x09, 0x00, 0x01, 0x00];
    let mut reader = ClassReader::new(&bytes);

    let result = ConstantPool::try_from(&mut reader);

    assert_eq!(result.err(), Some(ParseError::UnexpectedEof { offset: 5 }));
}

#[test]
fn reads_every_kind_of_entry() {
    let mut bytes = vec![0x00, 18];
    bytes.extend_from_slice(&[0x03, 0xFF, 0xFF, 0xFF, 0xFE]); // 1 integer -2
    bytes.extend_from_slice(&[0x04, 0x3F, 0x80, 0x00, 0x00]); // 2 float bits
    bytes.extend_from_slice(&[0x06, 0x3F, 0xF0, 0, 0, 0, 0, 0, 0]); // 3,4 double bits
    bytes.extend_from_slice(&[0x08, 0x00, 0x01]); // 5 string
    bytes.extend_from_slice(&[0x09, 0x00, 0x01, 0x00, 0x02]); // 6 field ref
    bytes.extend_from_slice(&[0x0A, 0x00, 0x03, 0x00, 0x04]); // 7 method ref
    bytes.extend_from_slice(&[0x0B, 0x00, 0x05, 0x00, 0x06]); // 8 interface method ref
    bytes.extend_from_slice(&[0x0C, 0x00, 0x07, 0x00, 0x08]); // 9 name and type
    bytes.extend_from_slice(&[0x0F, 0x06, 0x00, 0x09]); // 10 method handle
    bytes.extend_from_slice(&[0x10, 0x00, 0x0A]); // 11 method type
    bytes.extend_from_slice(&[0x11, 0x00, 0x0B, 0x00, 0x0C]); // 12 dynamic
    bytes.extend_from_slice(&[0x12, 0x00, 0x0D, 0x00, 0x0E]); // 13 invoke dynamic
    bytes.extend_from_slice(&[0x13, 0x00, 0x0F]); // 14 module
    bytes.extend_from_slice(&[0x14, 0x00, 0x10]); // 15 package
    bytes.extend_from_slice(&[0x05, 0xFF, 0xFF, 0xFF, 0xFF, 0xFF, 0xFF, 0xFF, 0xFF]); // 16,17 long -1
    let mut reader = ClassReader::new(&bytes);
    let pool = ConstantPool::try_from(&mut reader).expect("valid pool");

    assert_eq!(reader.offset(), bytes.len());
    assert!(matches!(pool.get(1), Some(ConstantPoolEntry::Integer(-2))));
    assert!(matches!(pool.get(2), Some(ConstantPoolEntry::Float(0x3F80_0000))));
    assert!(matches!(pool.get(3), Some(ConstantPoolEntry::Double(0x3FF0_0000_0000_0000))));
    assert!(matches!(pool.get(4), Some(ConstantPoolEntry::Unusable)));
    assert!(matches!(pool.get(5), Some(ConstantPoolEntry::String { .. })));
    assert!(matches!(pool.get(6), Some(ConstantPoolEntry::FieldRef { .. })));
    assert!(matches!(pool.get(7), Some(ConstantPoolEntry::MethodRef { .. })));
    assert!(matches!(pool.get(8), Some(ConstantPoolEntry::InterfaceMethodRef { .. })));
    assert!(matches!(pool.get(9), Some(ConstantPoolEntry::NameAndType { .. })));
    assert!(matches!(
        pool.get(10),
        Some(ConstantPoolEntry::MethodHandle { reference_kind: 6, .. })
    ));
    assert!(matches!(pool.get(11), Some(ConstantPoolEntry::MethodType { .. })));
    assert!(matches!(pool.get(12), Some(ConstantPoolEntry::Dynamic { .. })));
    assert!(matches!(pool.get(13), Some(ConstantPoolEntry::InvokeDynamic { .. })));
    assert!(matches!(pool.get(14), Some(ConstantPoolEntry::Module { .. })));
    assert!(matches!(pool.get(15), Some(ConstantPoolEntry::Package { .. })));
    assert!(matches!(pool.get(16), Some(ConstantPoolEntry::Long(-1))));
    assert!(matches!(pool.get(17), Some(ConstantPoolEntry::Unusable)));
}

#[test]
fn tag_bytes_name_their_kinds() {
    assert_eq!(ConstantPoolTag::try_from(1), Ok(ConstantPoolTag::Utf8));
    assert_eq!(ConstantPoolTag::try_from(12), Ok(ConstantPoolTag::NameAndType));
    assert_eq!(ConstantPoolTag::try_from(20), Ok(ConstantPoolTag::Package));
    assert_eq!(ConstantPoolTag::try_from(2), Err(2));
    assert_eq!(ConstantPoolTag::try_from(13), Err(13));
    assert_eq!(ConstantPoolTag::try_from(21), Err(21));
}

#[test]
fn unusable_slots_follow_wide_entries_only() {
    let mut bytes = vec![0x00, 0x06];
    bytes.extend_from_slice(&[0x06, 0, 0, 0, 0, 0, 0, 0, 1]);
    bytes.extend_from_slice(&[0x03, 0, 0, 0, 2]);
    bytes.extend_from_slice(&[0x05, 0, 0, 0, 0, 0, 0, 0, 3]);
    let mut reader = ClassReader::new(&bytes);
    let pool = ConstantPool::try_from(&mut reader).unwrap();

    for index in 1..6u16 {
        if let Some(ConstantPoolEntry::Unusable) = pool.get(index) {
            assert!(matches!(
                pool.get(index - 1),
                Some(ConstantPoolEntry::Long(_)) | Some(ConstantPoolEntry::Double(_))
            ));
        }
    }
    assert!(matches!(pool.get(2), Some(ConstantPoolEntry::Unusable)));
    assert!(matches!(pool.get(3), Some(ConstantPoolEntry::Integer(2))));
    assert!(matches!(pool.get(5), Some(ConstantPoolEntry::Unusable)));
}

#[test]
fn count_reads_the_slot_count() {
    let bytes = sample_pool();
    let mut reader = ClassReader::new(&bytes);
    let pool = ConstantPool::try_from(&mut reader).unwrap();

    assert_eq!(pool.count(), 6);
    assert_eq!(pool.count(), pool.count);
}
