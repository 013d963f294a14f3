use dex_rs_classfile::class_file_version::ClassFileVersion;
use dex_rs_classfile::{ClassReader, ParseError, RawClassFileVersion, VersionError};

#[test]
fn u32_read_is_two_u16_reads() {
    let bytes = [0x12, 0x34, 0x56, 0x78, 0x9A, 0xBC, 0xDE, 0xF0];
    let mut pair = ClassReader::new(&bytes);
    let high = pair.read_u16().unwrap() as u32;
    let low = pair.read_u16().unwrap() as u32;
    let mut whole = ClassReader::new(&bytes);

    assert_eq!(whole.read_u32().unwrap(), high * 0x1_0000 + low);
    assert_eq!(whole.offset(), pair.offset());
}

#[test]
fn u64_read_is_two_u32_reads() {
    let bytes = [0x12, 0x34, 0x56, 0x78, 0x9A, 0xBC, 0xDE, 0xF0];
    let mut pair = ClassReader::new(&bytes);
    let high = pair.read_u32().unwrap() as u64;
    let low = pair.read_u32().unwrap() as u64;
    let mut whole = ClassReader::new(&bytes);

    assert_eq!(whole.read_u64().unwrap(), (high << 32) | low);
}

#[test]
fn read_bytes_in_two_parts_matches_one_read() {
    let bytes = [1, 2, 3, 4, 5, 6];
    let mut parts = ClassReader::new(&bytes);
    let first = parts.read_bytes(2).unwrap();
    let second = parts.read_bytes(3).unwrap();
    let mut whole = ClassReader::new(&bytes);
    let all = whole.read_bytes(5).unwrap();

    assert_eq!([first, second].concat(), all.to_vec());
    assert_eq!(parts.offset(), whole.offset());
}

#[test]
fn failed_reads_of_every_width_keep_the_offset() {
    let bytes = [1, 2, 3];
    let mut reader = ClassReader::new(&bytes);
    reader.read_u8().unwrap();

    assert_eq!(reader.read_u32(), Err(ParseError::UnexpectedEof { offset: 1 }));
    assert_eq!(reader.read_u64(), Err(ParseError::UnexpectedEof { offset: 1 }));
    assert_eq!(reader.read_bytes(3), Err(ParseError::UnexpectedEof { offset: 1 }));
    assert_eq!(reader.read_bytes(usize::MAX), Err(ParseError::UnexpectedEof { offset: 1 }));
    assert_eq!(reader.offset(), 1);
    assert_eq!(reader.read_u16(), Ok(0x0203));
    assert_eq!(reader.offset(), 3);
}

#[test]
fn compaction_keeps_major_and_preview() {
    for major in [46u16, 52, 55, 56, 61, 65, 70, 127] {
        for minor in [0u16, u16::MAX] {
            if major < 56 && minor == u16::MAX {
                continue;
            }
            let version = ClassFileVersion::try_from(RawClassFileVersion { major, minor }).unwrap();
            assert_eq!(version.major() as u16, major);
            assert_eq!(version.preview(), minor == u16::MAX);
        }
    }
}

#[test]
fn rejects_majors_that_do_not_fit_in_seven_bits() {
    for major in [128u16, 200, 255] {
        for minor in [0u16, u16::MAX] {
            assert_eq!(
                ClassFileVersion::try_from(RawClassFileVersion { major, minor }),
                Err(VersionError::InvalidMajor { major })
            );
        }
    }
    assert_eq!(
        ClassFileVersion::try_from(RawClassFileVersion { major: 200, minor: 1 }),
        Err(VersionError::InvalidMinor { major: 200, minor: 1 })
    );
    assert!(ClassFileVersion::try_from(RawClassFileVersion { major: 127, minor: 0 }).is_ok());
}

#[test]
fn versions_before_java_two_have_no_release() {
    let version = ClassFileVersion::new_unchecked(45, false);

    assert_eq!(version.java_version(), None);
    assert_eq!(version.to_string(), "class file version 45");
    assert_eq!(
        version.debug_string(),
        "ClassFileVersion { major: 45, java_version: None, preview: false }"
    );
    assert_eq!(ClassFileVersion::new_unchecked(46, false).java_version(), Some(2));
    assert_eq!(ClassFileVersion::new_unchecked(5, false).to_string(), "class file version 5");
}

#[test]
fn debug_text_names_every_part() {
    assert_eq!(
        ClassFileVersion::new_unchecked(65, true).debug_string(),
        "ClassFileVersion { major: 65, java_version: Some(21), preview: true }"
    );
    assert_eq!(
        ClassFileVersion::new_unchecked(127, false).to_string(),
        "Java 83 (class file 127)"
    );
    assert_eq!(
        ClassFileVersion::new_unchecked(100, true).to_string(),
        "Java 56 preview (class file 100)"
    );
}

#[test]
fn header_ignores_bytes_after_it() {
    let short = [0xCA, 0xFE, 0xBA, 0xBE, 0x00, 0x00, 0x00, 0x34];
    let mut long = short.to_vec();
    long.extend_from_slice(&[0xFF; 16]);

    let a = RawClassFileVersion::parse(&mut ClassReader::new(&short));
    let b = RawClassFileVersion::parse(&mut ClassReader::new(&long));

    assert_eq!(a, b);
}

#[test]
fn wrong_magic_is_reported_after_reading_it() {
    let bytes = [0xCA, 0xFE, 0xBA, 0xBF, 0x00, 0x00, 0x00, 0x34];
    let mut reader = ClassReader::new(&bytes);

    let result = RawClassFileVersion::parse(&mut reader);

    assert_eq!(result, Err(ParseError::InvalidMagic { found: 0xCAFEBABF }));
    assert_eq!(reader.offset(), 4);
}
