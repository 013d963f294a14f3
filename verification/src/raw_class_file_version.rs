use vstd::prelude::*;

use crate::class_reader::{
    lemma_read_ignores_later_bytes, lemma_reads_against_bytes, read_u16_spec, read_u32_spec,
    u16_at, u32_at, ClassReader, ParseError, Step,
};

verus! {

/// The magic number every class file starts with.
pub const CLASS_MAGIC: u32 = 0xCAFE_BABE;

/// The version numbers of a class file as they are written in its header.
#[derive(Clone, Copy, Debug, PartialEq, Eq, Structural)]
pub struct RawClassFileVersion {
    pub major: u16,
    pub minor: u16,
}

/// Reading a class file header at `pos`: the magic number, then the minor and the
/// major version, each big-endian. A wrong magic number is rejected after it is read.
pub open spec fn raw_version_spec(data: Seq<u8>, pos: nat) -> Step<RawClassFileVersion> {
    let (magic, p1) = read_u32_spec(data, pos);
    match magic {
        Err(e) => (Err(e), p1),
        Ok(magic) => if magic != CLASS_MAGIC {
            (Err(ParseError::InvalidMagic { found: magic }), p1)
        } else {
            let (minor, p2) = read_u16_spec(data, p1);
            match minor {
                Err(e) => (Err(e), p2),
                Ok(minor) => {
                    let (major, p3) = read_u16_spec(data, p2);
                    match major {
                        Err(e) => (Err(e), p3),
                        Ok(major) => (Ok(RawClassFileVersion { major, minor }), p3),
                    }
                },
            }
        },
    }
}

/// The version read from a header depends only on its eight bytes: whatever follows
/// them is ignored.
pub proof fn lemma_header_ignores_later_bytes(data: Seq<u8>, later: Seq<u8>, pos: nat)
    requires
        pos + 8 <= data.len(),
    ensures
        raw_version_spec(data + later, pos) == raw_version_spec(data, pos),
{
    lemma_read_ignores_later_bytes(data, later, pos, 4);
    lemma_read_ignores_later_bytes(data, later, pos + 4, 2);
    lemma_read_ignores_later_bytes(data, later, pos + 6, 2);
}

/// A header is the magic number (bytes CA FE BA BE), then the minor and the major
/// version, each a big-endian 16-bit number: on eight bytes starting with the magic
/// number it gives those versions and ends after them; on a wrong magic number it
/// names the number found and ends after it.
pub proof fn lemma_header_against_bytes(data: Seq<u8>, pos: nat)
    requires
        pos + 8 <= data.len(),
    ensures
        (data[pos as int] == 0xCA && data[pos + 1int] == 0xFE && data[pos + 2int] == 0xBA && data[pos + 3int] == 0xBE) ==> raw_version_spec(data, pos) == (
            Ok::<RawClassFileVersion, ParseError>(
                RawClassFileVersion {
                    major: u16_at(data, pos + 6int) as u16,
                    minor: u16_at(data, pos + 4int) as u16,
                },
            ),
            pos + 8,
        ),
        !(data[pos as int] == 0xCA && data[pos + 1int] == 0xFE && data[pos + 2int] == 0xBA && data[pos + 3int] == 0xBE) ==> raw_version_spec(data, pos) == (
            Err::<RawClassFileVersion, ParseError>(
                ParseError::InvalidMagic { found: u32_at(data, pos as int) as u32 },
            ),
            pos + 4,
        ),
{
    lemma_reads_against_bytes(data, pos);
    lemma_reads_against_bytes(data, pos + 4);
    lemma_reads_against_bytes(data, pos + 6);
    let (a, b, c, d) = (
        data[pos as int] as int,
        data[pos + 1int] as int,
        data[pos + 2int] as int,
        data[pos + 3int] as int,
    );
    assert(a * 0x100_0000 + b * 0x1_0000 + c * 0x100 + d == 0xCAFE_BABE <==> (a == 0xCA && b
        == 0xFE && c == 0xBA && d == 0xBE)) by (nonlinear_arith)
        requires
            0 <= a < 256,
            0 <= b < 256,
            0 <= c < 256,
            0 <= d < 256,
    ;
}

impl RawClassFileVersion {
    pub fn parse(reader: &mut ClassReader<'_>) -> (r: Result<Self, ParseError>)
        ensures
            final(reader).data() == old(reader).data(),
            final(reader).pos() <= final(reader).data().len(),
            (r, final(reader).pos()) == raw_version_spec(old(reader).data(), old(reader).pos()),
    {
        let magic = reader.read_u32()?;
        if magic != CLASS_MAGIC {
            return Err(ParseError::InvalidMagic { found: magic });
        }
        let minor = reader.read_u16()?;
        let major = reader.read_u16()?;
        Ok(Self { major, minor })
    }
}

} // verus!
