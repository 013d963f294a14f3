use vstd::prelude::*;
use vstd::utf8::valid_utf8;
use vstd::string::*;

use crate::class_reader::{
    eof_at, lemma_reads_against_bytes, read_bytes_spec, read_u16_spec, read_u32_spec,
    read_u64_spec, read_u8_spec, u16_at, u32_at, u64_at, ClassReader, ParseError, Step,
};

verus! {

/// The kind of a constant pool entry, as named by the tag byte in front of it.
#[derive(Debug, Clone, Copy, PartialEq, Eq, Structural)]
pub enum ConstantPoolTag {
    Utf8,
    Integer,
    Float,
    Long,
    Double,
    Class,
    String,
    FieldRef,
    MethodRef,
    InterfaceMethodRef,
    NameAndType,
    MethodHandle,
    MethodType,
    Dynamic,
    InvokeDynamic,
    Module,
    Package,
}

/// The tag byte of each kind of entry.
pub open spec fn tag_byte(tag: ConstantPoolTag) -> u8 {
    match tag {
        ConstantPoolTag::Utf8 => 1,
        ConstantPoolTag::Integer => 3,
        ConstantPoolTag::Float => 4,
        ConstantPoolTag::Long => 5,
        ConstantPoolTag::Double => 6,
        ConstantPoolTag::Class => 7,
        ConstantPoolTag::String => 8,
        ConstantPoolTag::FieldRef => 9,
        ConstantPoolTag::MethodRef => 10,
        ConstantPoolTag::InterfaceMethodRef => 11,
        ConstantPoolTag::NameAndType => 12,
        ConstantPoolTag::MethodHandle => 15,
        ConstantPoolTag::MethodType => 16,
        ConstantPoolTag::Dynamic => 17,
        ConstantPoolTag::InvokeDynamic => 18,
        ConstantPoolTag::Module => 19,
        ConstantPoolTag::Package => 20,
    }
}

/// The kind that a tag byte names, if any.
pub open spec fn tag_of(byte: u8) -> Option<ConstantPoolTag> {
    if byte == 1 {
        Some(ConstantPoolTag::Utf8)
    } else if byte == 3 {
        Some(ConstantPoolTag::Integer)
    } else if byte == 4 {
        Some(ConstantPoolTag::Float)
    } else if byte == 5 {
        Some(ConstantPoolTag::Long)
    } else if byte == 6 {
        Some(ConstantPoolTag::Double)
    } else if byte == 7 {
        Some(ConstantPoolTag::Class)
    } else if byte == 8 {
        Some(ConstantPoolTag::String)
    } else if byte == 9 {
        Some(ConstantPoolTag::FieldRef)
    } else if byte == 10 {
        Some(ConstantPoolTag::MethodRef)
    } else if byte == 11 {
        Some(ConstantPoolTag::InterfaceMethodRef)
    } else if byte == 12 {
        Some(ConstantPoolTag::NameAndType)
    } else if byte == 15 {
        Some(ConstantPoolTag::MethodHandle)
    } else if byte == 16 {
        Some(ConstantPoolTag::MethodType)
    } else if byte == 17 {
        Some(ConstantPoolTag::Dynamic)
    } else if byte == 18 {
        Some(ConstantPoolTag::InvokeDynamic)
    } else if byte == 19 {
        Some(ConstantPoolTag::Module)
    } else if byte == 20 {
        Some(ConstantPoolTag::Package)
    } else {
        None
    }
}

impl TryFrom<u8> for ConstantPoolTag {
    type Error = u8;

    /// The kind a tag byte names; an unknown byte is handed back as the error.
    fn try_from(tag: u8) -> (r: Result<Self, u8>)
        ensures
            match tag_of(tag) {
                Some(t) => r == Ok::<Self, u8>(t),
                None => r == Err::<Self, u8>(tag),
            },
    {
        match tag {
            1 => Ok(Self::Utf8),
            3 => Ok(Self::Integer),
            4 => Ok(Self::Float),
            5 => Ok(Self::Long),
            6 => Ok(Self::Double),
            7 => Ok(Self::Class),
            8 => Ok(Self::String),
            9 => Ok(Self::FieldRef),
            10 => Ok(Self::MethodRef),
            11 => Ok(Self::InterfaceMethodRef),
            12 => Ok(Self::NameAndType),
            15 => Ok(Self::MethodHandle),
            16 => Ok(Self::MethodType),
            17 => Ok(Self::Dynamic),
            18 => Ok(Self::InvokeDynamic),
            19 => Ok(Self::Module),
            20 => Ok(Self::Package),
            unknown => Err(unknown),
        }
    }
}

impl vstd::std_specs::convert::TryFromSpecImpl<u8> for ConstantPoolTag {
    open spec fn obeys_try_from_spec() -> bool {
        true
    }

    open spec fn try_from_spec(tag: u8) -> Result<Self, u8> {
        match tag_of(tag) {
            Some(t) => Ok(t),
            None => Err(tag),
        }
    }
}

/// Each kind of entry has its own tag byte, and reading that byte back gives the kind.
pub proof fn lemma_tag_round_trip(tag: ConstantPoolTag)
    ensures
        tag_of(tag_byte(tag)) == Some(tag),
{
}

/// Every tag byte that names a kind is the tag byte of that kind.
pub proof fn lemma_tag_byte_of(byte: u8)
    ensures
        tag_of(byte) matches Some(tag) ==> tag_byte(tag) == byte,
{
}

/// The tag bytes of the class file format: 1 UTF-8, 3 integer, 4 float, 5 long,
/// 6 double, 7 class, 8 string, 9 field reference, 10 method reference, 11 interface
/// method reference, 12 name and type, 15 method handle, 16 method type, 17 dynamic,
/// 18 invoke dynamic, 19 module, 20 package; every other byte names no kind.
pub proof fn lemma_tag_table(byte: u8)
    ensures
        tag_of(1) == Some(ConstantPoolTag::Utf8),
        tag_of(3) == Some(ConstantPoolTag::Integer),
        tag_of(4) == Some(ConstantPoolTag::Float),
        tag_of(5) == Some(ConstantPoolTag::Long),
        tag_of(6) == Some(ConstantPoolTag::Double),
        tag_of(7) == Some(ConstantPoolTag::Class),
        tag_of(8) == Some(ConstantPoolTag::String),
        tag_of(9) == Some(ConstantPoolTag::FieldRef),
        tag_of(10) == Some(ConstantPoolTag::MethodRef),
        tag_of(11) == Some(ConstantPoolTag::InterfaceMethodRef),
        tag_of(12) == Some(ConstantPoolTag::NameAndType),
        tag_of(15) == Some(ConstantPoolTag::MethodHandle),
        tag_of(16) == Some(ConstantPoolTag::MethodType),
        tag_of(17) == Some(ConstantPoolTag::Dynamic),
        tag_of(18) == Some(ConstantPoolTag::InvokeDynamic),
        tag_of(19) == Some(ConstantPoolTag::Module),
        tag_of(20) == Some(ConstantPoolTag::Package),
        (byte == 0 || byte == 2 || byte == 13 || byte == 14 || byte > 20) ==> tag_of(byte) is None,
{
}

/// Index of a class entry.
#[derive(Clone, Copy, Debug, PartialEq, Eq, Structural)]
pub struct ClassIndex(u16);

/// Index of a name-and-type entry.
#[derive(Clone, Copy, Debug, PartialEq, Eq, Structural)]
pub struct NameAndTypeIndex(u16);

/// Index into the bootstrap methods attribute.
#[derive(Clone, Copy, Debug, PartialEq, Eq, Structural)]
pub struct BootstrapMethodIndex(u16);

/// Index of a UTF-8 entry.
#[derive(Clone, Copy, Debug, PartialEq, Eq, Structural)]
pub struct Utf8Index(u16);

/// Index of a field, method or interface method reference entry.
#[derive(Clone, Copy, Debug, PartialEq, Eq, Structural)]
pub struct ReferenceIndex(u16);

impl ClassIndex {
    pub closed spec fn value(self) -> u16 {
        self.0
    }
}

impl NameAndTypeIndex {
    pub closed spec fn value(self) -> u16 {
        self.0
    }
}

impl BootstrapMethodIndex {
    pub closed spec fn value(self) -> u16 {
        self.0
    }
}

impl Utf8Index {
    pub closed spec fn value(self) -> u16 {
        self.0
    }
}

impl ReferenceIndex {
    pub closed spec fn value(self) -> u16 {
        self.0
    }
}

/// One entry of a constant pool. A UTF-8 entry borrows its bytes from the class file.
/// Float and double entries hold the bits of the number.
#[derive(Debug)]
pub enum ConstantPoolEntry<'a> {
    Utf8(&'a [u8]),
    Integer(i32),
    Float(u32),
    Long(i64),
    Double(u64),
    Class { name_index: Utf8Index },
    String { string_index: Utf8Index },
    FieldRef { class_index: ClassIndex, name_and_type_index: NameAndTypeIndex },
    MethodRef { class_index: ClassIndex, name_and_type_index: NameAndTypeIndex },
    InterfaceMethodRef { class_index: ClassIndex, name_and_type_index: NameAndTypeIndex },
    NameAndType { name_index: Utf8Index, descriptor_index: Utf8Index },
    MethodHandle { reference_kind: u8, reference_index: ReferenceIndex },
    MethodType { descriptor_index: Utf8Index },
    Dynamic { bootstrap_method_attr_index: BootstrapMethodIndex, name_and_type_index: NameAndTypeIndex },
    InvokeDynamic {
        bootstrap_method_attr_index: BootstrapMethodIndex,
        name_and_type_index: NameAndTypeIndex,
    },
    Module { name_index: Utf8Index },
    Package { name_index: Utf8Index },
    /// The slot after a long or double entry, and slot 0.
    Unusable,
}

/// A constant pool entry as plain values: the bytes of a UTF-8 entry, indices as
/// numbers.
pub enum EntryView {
    Utf8(Seq<u8>),
    Integer(i32),
    Float(u32),
    Long(i64),
    Double(u64),
    Class { name_index: u16 },
    String { string_index: u16 },
    FieldRef { class_index: u16, name_and_type_index: u16 },
    MethodRef { class_index: u16, name_and_type_index: u16 },
    InterfaceMethodRef { class_index: u16, name_and_type_index: u16 },
    NameAndType { name_index: u16, descriptor_index: u16 },
    MethodHandle { reference_kind: u8, reference_index: u16 },
    MethodType { descriptor_index: u16 },
    Dynamic { bootstrap_method_attr_index: u16, name_and_type_index: u16 },
    InvokeDynamic { bootstrap_method_attr_index: u16, name_and_type_index: u16 },
    Module { name_index: u16 },
    Package { name_index: u16 },
    Unusable,
}

impl<'a> View for ConstantPoolEntry<'a> {
    type V = EntryView;

    open spec fn view(&self) -> EntryView {
        match *self {
            ConstantPoolEntry::Utf8(bytes) => EntryView::Utf8(bytes@),
            ConstantPoolEntry::Integer(v) => EntryView::Integer(v),
            ConstantPoolEntry::Float(v) => EntryView::Float(v),
            ConstantPoolEntry::Long(v) => EntryView::Long(v),
            ConstantPoolEntry::Double(v) => EntryView::Double(v),
            ConstantPoolEntry::Class { name_index } => EntryView::Class {
                name_index: name_index.value(),
            },
            ConstantPoolEntry::String { string_index } => EntryView::String {
                string_index: string_index.value(),
            },
            ConstantPoolEntry::FieldRef { class_index, name_and_type_index } => EntryView::FieldRef {
                class_index: class_index.value(),
                name_and_type_index: name_and_type_index.value(),
            },
            ConstantPoolEntry::MethodRef {
                class_index,
                name_and_type_index,
            } => EntryView::MethodRef {
                class_index: class_index.value(),
                name_and_type_index: name_and_type_index.value(),
            },
            ConstantPoolEntry::InterfaceMethodRef {
                class_index,
                name_and_type_index,
            } => EntryView::InterfaceMethodRef {
                class_index: class_index.value(),
                name_and_type_index: name_and_type_index.value(),
            },
            ConstantPoolEntry::NameAndType {
                name_index,
                descriptor_index,
            } => EntryView::NameAndType {
                name_index: name_index.value(),
                descriptor_index: descriptor_index.value(),
            },
            ConstantPoolEntry::MethodHandle {
                reference_kind,
                reference_index,
            } => EntryView::MethodHandle {
                reference_kind,
                reference_index: reference_index.value(),
            },
            ConstantPoolEntry::MethodType { descriptor_index } => EntryView::MethodType {
                descriptor_index: descriptor_index.value(),
            },
            ConstantPoolEntry::Dynamic {
                bootstrap_method_attr_index,
                name_and_type_index,
            } => EntryView::Dynamic {
                bootstrap_method_attr_index: bootstrap_method_attr_index.value(),
                name_and_type_index: name_and_type_index.value(),
            },
            ConstantPoolEntry::InvokeDynamic {
                bootstrap_method_attr_index,
                name_and_type_index,
            } => EntryView::InvokeDynamic {
                bootstrap_method_attr_index: bootstrap_method_attr_index.value(),
                name_and_type_index: name_and_type_index.value(),
            },
            ConstantPoolEntry::Module { name_index } => EntryView::Module {
                name_index: name_index.value(),
            },
            ConstantPoolEntry::Package { name_index } => EntryView::Package {
                name_index: name_index.value(),
            },
            ConstantPoolEntry::Unusable => EntryView::Unusable,
        }
    }
}

/// What decoding the body of one entry yields: one entry, or an entry that takes two
/// slots together with the unusable slot after it.
enum DecodedEntry<'a> {
    One(ConstantPoolEntry<'a>),
    Two(ConstantPoolEntry<'a>, ConstantPoolEntry<'a>),
}

pub enum DecodedView {
    One(EntryView),
    Two(EntryView, EntryView),
}

impl<'a> View for DecodedEntry<'a> {
    type V = DecodedView;

    closed spec fn view(&self) -> DecodedView {
        match *self {
            DecodedEntry::One(e) => DecodedView::One(e@),
            DecodedEntry::Two(a, b) => DecodedView::Two(a@, b@),
        }
    }
}

/// An entry body made of one 16-bit index.
pub open spec fn one_index_spec(
    data: Seq<u8>,
    pos: nat,
    make: spec_fn(u16) -> EntryView,
) -> Step<DecodedView> {
    let (a, p1) = read_u16_spec(data, pos);
    match a {
        Err(e) => (Err(e), p1),
        Ok(a) => (Ok(DecodedView::One(make(a))), p1),
    }
}

/// An entry body made of two 16-bit indices, in this order.
pub open spec fn two_indices_spec(
    data: Seq<u8>,
    pos: nat,
    make: spec_fn(u16, u16) -> EntryView,
) -> Step<DecodedView> {
    let (a, p1) = read_u16_spec(data, pos);
    match a {
        Err(e) => (Err(e), p1),
        Ok(a) => {
            let (b, p2) = read_u16_spec(data, p1);
            match b {
                Err(e) => (Err(e), p2),
                Ok(b) => (Ok(DecodedView::One(make(a, b))), p2),
            }
        },
    }
}

/// Decoding the body of an entry of the given kind, which starts right after its tag
/// byte. Long and double entries take two slots.
pub open spec fn decode_entry_spec(tag: ConstantPoolTag, data: Seq<u8>, pos: nat) -> Step<
    DecodedView,
> {
    match tag {
        ConstantPoolTag::Utf8 => {
            let (len, p1) = read_u16_spec(data, pos);
            match len {
                Err(e) => (Err(e), p1),
                Ok(len) => {
                    let (bytes, p2) = read_bytes_spec(data, p1, len as nat);
                    match bytes {
                        Err(e) => (Err(e), p2),
                        Ok(bytes) => (Ok(DecodedView::One(EntryView::Utf8(bytes))), p2),
                    }
                },
            }
        },
        ConstantPoolTag::Integer => {
            let (v, p1) = read_u32_spec(data, pos);
            match v {
                Err(e) => (Err(e), p1),
                Ok(v) => (Ok(DecodedView::One(EntryView::Integer(v as i32))), p1),
            }
        },
        ConstantPoolTag::Float => {
            let (v, p1) = read_u32_spec(data, pos);
            match v {
                Err(e) => (Err(e), p1),
                Ok(v) => (Ok(DecodedView::One(EntryView::Float(v))), p1),
            }
        },
        ConstantPoolTag::Long => {
            let (v, p1) = read_u64_spec(data, pos);
            match v {
                Err(e) => (Err(e), p1),
                Ok(v) => (Ok(DecodedView::Two(EntryView::Long(v as i64), EntryView::Unusable)), p1),
            }
        },
        ConstantPoolTag::Double => {
            let (v, p1) = read_u64_spec(data, pos);
            match v {
                Err(e) => (Err(e), p1),
                Ok(v) => (Ok(DecodedView::Two(EntryView::Double(v), EntryView::Unusable)), p1),
            }
        },
        ConstantPoolTag::Class => one_index_spec(data, pos, |a: u16| EntryView::Class { name_index: a }),
        ConstantPoolTag::String => one_index_spec(
            data,
            pos,
            |a: u16| EntryView::String { string_index: a },
        ),
        ConstantPoolTag::FieldRef => two_indices_spec(
            data,
            pos,
            |a: u16, b: u16| EntryView::FieldRef { class_index: a, name_and_type_index: b },
        ),
        ConstantPoolTag::MethodRef => two_indices_spec(
            data,
            pos,
            |a: u16, b: u16| EntryView::MethodRef { class_index: a, name_and_type_index: b },
        ),
        ConstantPoolTag::InterfaceMethodRef => two_indices_spec(
            data,
            pos,
            |a: u16, b: u16|
                EntryView::InterfaceMethodRef { class_index: a, name_and_type_index: b },
        ),
        ConstantPoolTag::NameAndType => two_indices_spec(
            data,
            pos,
            |a: u16, b: u16| EntryView::NameAndType { name_index: a, descriptor_index: b },
        ),
        ConstantPoolTag::MethodHandle => {
            let (kind, p1) = read_u8_spec(data, pos);
            match kind {
                Err(e) => (Err(e), p1),
                Ok(kind) => {
                    let (index, p2) = read_u16_spec(data, p1);
                    match index {
                        Err(e) => (Err(e), p2),
                        Ok(index) => (
                            Ok(
                                DecodedView::One(
                                    EntryView::MethodHandle {
                                        reference_kind: kind,
                                        reference_index: index,
                                    },
                                ),
                            ),
                            p2,
                        ),
                    }
                },
            }
        },
        ConstantPoolTag::MethodType => one_index_spec(
            data,
            pos,
            |a: u16| EntryView::MethodType { descriptor_index: a },
        ),
        ConstantPoolTag::Dynamic => two_indices_spec(
            data,
            pos,
            |a: u16, b: u16|
                EntryView::Dynamic { bootstrap_method_attr_index: a, name_and_type_index: b },
        ),
        ConstantPoolTag::InvokeDynamic => two_indices_spec(
            data,
            pos,
            |a: u16, b: u16|
                EntryView::InvokeDynamic { bootstrap_method_attr_index: a, name_and_type_index: b },
        ),
        ConstantPoolTag::Module => one_index_spec(data, pos, |a: u16| EntryView::Module { name_index: a }),
        ConstantPoolTag::Package => one_index_spec(
            data,
            pos,
            |a: u16| EntryView::Package { name_index: a },
        ),
    }
}

/// What the body of each kind of entry holds, stated against its bytes (`pos` is the
/// first byte after the tag): UTF-8 entries a 16-bit length and that many bytes;
/// integers and floats four bytes; longs and doubles eight bytes and a second,
/// unusable slot; method handles a reference kind byte and a 16-bit index; every other
/// kind one or two 16-bit indices, in the order the class file format names them
/// (class then name-and-type, name then descriptor, bootstrap method then
/// name-and-type). Numbers are big-endian.
pub proof fn lemma_entry_bodies_against_bytes(data: Seq<u8>, pos: nat)
    ensures
        pos + 2 <= data.len() && pos + 2 + u16_at(data, pos as int) <= data.len()
            ==> decode_entry_spec(ConstantPoolTag::Utf8, data, pos) == (
            Ok::<DecodedView, ParseError>(
                DecodedView::One(
                    EntryView::Utf8(
                        data.subrange(pos + 2int, pos + 2 + u16_at(data, pos as int)),
                    ),
                ),
            ),
            (pos + 2 + u16_at(data, pos as int)) as nat,
        ),
        pos + 4 <= data.len() ==> decode_entry_spec(ConstantPoolTag::Integer, data, pos) == (
            Ok::<DecodedView, ParseError>(
                DecodedView::One(EntryView::Integer(u32_at(data, pos as int) as u32 as i32)),
            ),
            pos + 4,
        ),
        pos + 4 <= data.len() ==> decode_entry_spec(ConstantPoolTag::Float, data, pos) == (
            Ok::<DecodedView, ParseError>(
                DecodedView::One(EntryView::Float(u32_at(data, pos as int) as u32)),
            ),
            pos + 4,
        ),
        pos + 8 <= data.len() ==> decode_entry_spec(ConstantPoolTag::Long, data, pos) == (
            Ok::<DecodedView, ParseError>(
                DecodedView::Two(
                    EntryView::Long(u64_at(data, pos as int) as u64 as i64),
                    EntryView::Unusable,
                ),
            ),
            pos + 8,
        ),
        pos + 8 <= data.len() ==> decode_entry_spec(ConstantPoolTag::Double, data, pos) == (
            Ok::<DecodedView, ParseError>(
                DecodedView::Two(EntryView::Double(u64_at(data, pos as int) as u64), EntryView::Unusable),
            ),
            pos + 8,
        ),
        pos + 2 <= data.len() ==> decode_entry_spec(ConstantPoolTag::Class, data, pos) == (
            Ok::<DecodedView, ParseError>(
                DecodedView::One(EntryView::Class { name_index: u16_at(data, pos as int) as u16 }),
            ),
            pos + 2,
        ),
        pos + 2 <= data.len() ==> decode_entry_spec(ConstantPoolTag::String, data, pos) == (
            Ok::<DecodedView, ParseError>(
                DecodedView::One(
                    EntryView::String { string_index: u16_at(data, pos as int) as u16 },
                ),
            ),
            pos + 2,
        ),
        pos + 2 <= data.len() ==> decode_entry_spec(ConstantPoolTag::MethodType, data, pos) == (
            Ok::<DecodedView, ParseError>(
                DecodedView::One(
                    EntryView::MethodType { descriptor_index: u16_at(data, pos as int) as u16 },
                ),
            ),
            pos + 2,
        ),
        pos + 2 <= data.len() ==> decode_entry_spec(ConstantPoolTag::Module, data, pos) == (
            Ok::<DecodedView, ParseError>(
                DecodedView::One(EntryView::Module { name_index: u16_at(data, pos as int) as u16 }),
            ),
            pos + 2,
        ),
        pos + 2 <= data.len() ==> decode_entry_spec(ConstantPoolTag::Package, data, pos) == (
            Ok::<DecodedView, ParseError>(
                DecodedView::One(EntryView::Package { name_index: u16_at(data, pos as int) as u16 }),
            ),
            pos + 2,
        ),
        pos + 3 <= data.len() ==> decode_entry_spec(ConstantPoolTag::MethodHandle, data, pos) == (
            Ok::<DecodedView, ParseError>(
                DecodedView::One(
                    EntryView::MethodHandle {
                        reference_kind: data[pos as int],
                        reference_index: u16_at(data, pos + 1int) as u16,
                    },
                ),
            ),
            pos + 3,
        ),
        pos + 4 <= data.len() ==> decode_entry_spec(ConstantPoolTag::FieldRef, data, pos) == (
            Ok::<DecodedView, ParseError>(
                DecodedView::One(
                    EntryView::FieldRef {
                        class_index: u16_at(data, pos as int) as u16,
                        name_and_type_index: u16_at(data, pos + 2int) as u16,
                    },
                ),
            ),
            pos + 4,
        ),
        pos + 4 <= data.len() ==> decode_entry_spec(ConstantPoolTag::MethodRef, data, pos) == (
            Ok::<DecodedView, ParseError>(
                DecodedView::One(
                    EntryView::MethodRef {
                        class_index: u16_at(data, pos as int) as u16,
                        name_and_type_index: u16_at(data, pos + 2int) as u16,
                    },
                ),
            ),
            pos + 4,
        ),
        pos + 4 <= data.len() ==> decode_entry_spec(ConstantPoolTag::InterfaceMethodRef, data, pos)
            == (
            Ok::<DecodedView, ParseError>(
                DecodedView::One(
                    EntryView::InterfaceMethodRef {
                        class_index: u16_at(data, pos as int) as u16,
                        name_and_type_index: u16_at(data, pos + 2int) as u16,
                    },
                ),
            ),
            pos + 4,
        ),
        pos + 4 <= data.len() ==> decode_entry_spec(ConstantPoolTag::NameAndType, data, pos) == (
            Ok::<DecodedView, ParseError>(
                DecodedView::One(
                    EntryView::NameAndType {
                        name_index: u16_at(data, pos as int) as u16,
                        descriptor_index: u16_at(data, pos + 2int) as u16,
                    },
                ),
            ),
            pos + 4,
        ),
        pos + 4 <= data.len() ==> decode_entry_spec(ConstantPoolTag::Dynamic, data, pos) == (
            Ok::<DecodedView, ParseError>(
                DecodedView::One(
                    EntryView::Dynamic {
                        bootstrap_method_attr_index: u16_at(data, pos as int) as u16,
                        name_and_type_index: u16_at(data, pos + 2int) as u16,
                    },
                ),
            ),
            pos + 4,
        ),
        pos + 4 <= data.len() ==> decode_entry_spec(ConstantPoolTag::InvokeDynamic, data, pos) == (
            Ok::<DecodedView, ParseError>(
                DecodedView::One(
                    EntryView::InvokeDynamic {
                        bootstrap_method_attr_index: u16_at(data, pos as int) as u16,
                        name_and_type_index: u16_at(data, pos + 2int) as u16,
                    },
                ),
            ),
            pos + 4,
        ),
{
    lemma_reads_against_bytes(data, pos);
    lemma_reads_against_bytes(data, pos + 1);
    lemma_reads_against_bytes(data, pos + 2);
}

/// Whether a decoding function's result and the position it left the reader at agree
/// with the spec step `expected`.
spec fn agrees<'a>(
    r: Result<DecodedEntry<'a>, ParseError>,
    pos: nat,
    expected: Step<DecodedView>,
) -> bool {
    &&& pos == expected.1
    &&& match expected.0 {
        Ok(v) => r matches Ok(d) && d@ == v,
        Err(e) => r == Err::<DecodedEntry<'a>, ParseError>(e),
    }
}

/// Reading the entries of a pool that has `count` slots, when the slots in `acc` are
/// already filled and the next entry starts at `pos`. An unknown tag is reported at
/// the offset of its tag byte; so is an entry that needs two slots when only one is
/// left.
pub open spec fn pool_entries_spec(data: Seq<u8>, pos: nat, count: nat, acc: Seq<EntryView>) -> Step<
    Seq<EntryView>,
>
    decreases count - acc.len(),
{
    if acc.len() >= count {
        (Ok(acc), pos)
    } else {
        let (raw, p1) = read_u8_spec(data, pos);
        match raw {
            Err(e) => (Err(e), p1),
            Ok(raw) => match tag_of(raw) {
                None => (Err(ParseError::InvalidConstantPoolTag { offset: pos as usize, tag: raw }), p1),
                Some(tag) => {
                    let (decoded, p2) = decode_entry_spec(tag, data, p1);
                    match decoded {
                        Err(e) => (Err(e), p2),
                        Ok(DecodedView::One(entry)) => pool_entries_spec(
                            data,
                            p2,
                            count,
                            acc.push(entry),
                        ),
                        Ok(DecodedView::Two(first, second)) => if acc.len() + 2 > count {
                            (Err(ParseError::InvalidConstantPoolLayout { offset: pos as usize }), p2)
                        } else {
                            pool_entries_spec(data, p2, count, acc.push(first).push(second))
                        },
                    }
                },
            },
        }
    }
}

/// Reading a constant pool: its slot count, then its entries. Slot 0 is never
/// written in a class file and holds an unusable entry.
pub open spec fn constant_pool_spec(data: Seq<u8>, pos: nat) -> Step<(u16, Seq<EntryView>)> {
    let (count, p1) = read_u16_spec(data, pos);
    match count {
        Err(e) => (Err(e), p1),
        Ok(count) => {
            let (entries, p2) = pool_entries_spec(data, p1, count as nat, seq![EntryView::Unusable]);
            match entries {
                Err(e) => (Err(e), p2),
                Ok(entries) => (Ok((count, entries)), p2),
            }
        },
    }
}

/// Whether an entry takes two slots.
pub open spec fn is_wide(entry: EntryView) -> bool {
    entry is Long || entry is Double
}

/// The slot layout of a constant pool: slot 0 is unusable, the slot after each long
/// or double entry exists and is unusable, and every other unusable slot follows a
/// long or double entry.
pub open spec fn well_laid_out(entries: Seq<EntryView>) -> bool {
    &&& entries.len() >= 1
    &&& entries[0] is Unusable
    &&& forall|i: int|
        0 <= i < entries.len() && is_wide(#[trigger] entries[i]) ==> i + 1 < entries.len()
            && entries[i + 1] is Unusable
    &&& forall|i: int|
        1 <= i < entries.len() && #[trigger] entries[i] is Unusable ==> is_wide(entries[i - 1])
}

proof fn lemma_pool_entries_layout(data: Seq<u8>, pos: nat, count: nat, acc: Seq<EntryView>)
    requires
        well_laid_out(acc),
        acc.len() <= count || acc.len() == 1,
    ensures
        pool_entries_spec(data, pos, count, acc).0 matches Ok(entries) ==> {
            &&& entries.len() == (if count == 0 { 1 } else { count })
            &&& well_laid_out(entries)
        },
    decreases count - acc.len(),
{
    if acc.len() < count {
        let (raw, p1) = read_u8_spec(data, pos);
        if let Ok(raw) = raw {
            if let Some(tag) = tag_of(raw) {
                let (decoded, p2) = decode_entry_spec(tag, data, p1);
                match decoded {
                    Ok(DecodedView::One(entry)) => {
                        if tag is Long || tag is Double {
                            assert(false);
                        }
                        assert(!is_wide(entry));
                        let next = acc.push(entry);
                        assert(!(entry is Unusable));
                        assert forall|i: int|
                            0 <= i < next.len() && is_wide(#[trigger] next[i]) implies i + 1 < next.len()
                                && next[i + 1] is Unusable by {
                            assert(next[i] == acc[i]);
                        }
                        assert forall|i: int|
                            1 <= i < next.len() && #[trigger] next[i] is Unusable implies is_wide(
                                next[i - 1],
                            ) by {
                            assert(next[i] == acc[i]);
                            assert(next[i - 1] == acc[i - 1]);
                        }
                        lemma_pool_entries_layout(data, p2, count, next);
                    },
                    Ok(DecodedView::Two(first, second)) => {
                        if acc.len() + 2 <= count {
                            assert(second is Unusable);
                            let next = acc.push(first).push(second);
                            assert(is_wide(first));
                            assert forall|i: int|
                                0 <= i < next.len() && is_wide(#[trigger] next[i]) implies i + 1
                                    < next.len() && next[i + 1] is Unusable by {
                                if i < acc.len() {
                                    assert(next[i] == acc[i]);
                                }
                            }
                            assert forall|i: int|
                                1 <= i < next.len() && #[trigger] next[i] is Unusable implies is_wide(
                                    next[i - 1],
                                ) by {
                                if i < acc.len() {
                                    assert(next[i] == acc[i]);
                                    assert(next[i - 1] == acc[i - 1]);
                                }
                            }
                            lemma_pool_entries_layout(data, p2, count, next);
                        }
                    },
                    Err(_) => {},
                }
            }
        }
    }
}

/// A constant pool read from a class file has as many slots as its count says (slot 0
/// included, so a count of 0 still leaves slot 0), slot 0 is unusable, every long or
/// double entry is followed by an unusable slot, and every other unusable slot follows
/// a long or double entry.
pub proof fn lemma_pool_layout(data: Seq<u8>, pos: nat)
    ensures
        constant_pool_spec(data, pos).0 matches Ok((count, entries)) ==> {
            &&& entries.len() == (if count == 0 { 1 } else { count as nat })
            &&& well_laid_out(entries)
        },
{
    let (count, p1) = read_u16_spec(data, pos);
    if let Ok(count) = count {
        let start = seq![EntryView::Unusable];
        assert(start[0] is Unusable);
        lemma_pool_entries_layout(data, p1, count as nat, start);
    }
}

/// The bytes of the UTF-8 entry in slot `index`, if that slot exists and holds one.
pub open spec fn utf8_entry(entries: Seq<EntryView>, index: u16) -> Option<Seq<u8>> {
    if 0 < index < entries.len() {
        match entries[index as int] {
            EntryView::Utf8(bytes) => Some(bytes),
            _ => None,
        }
    } else {
        None
    }
}

/// The bytes of the UTF-8 entry in a slot are found exactly when the slot is past 0,
/// within the pool, and holds a UTF-8 entry, whatever its length (empty included).
pub proof fn lemma_utf8_entry_found(entries: Seq<EntryView>, index: u16)
    ensures
        utf8_entry(entries, index) is Some <==> (0 < index < entries.len()
            && entries[index as int] is Utf8),
        utf8_entry(entries, index) matches Some(bytes) ==> entries[index as int]
            == EntryView::Utf8(bytes),
{
}

/// A constant pool starts with its slot count, a big-endian 16-bit number; each entry
/// starts with its tag byte, and a byte that names no kind is rejected at its offset.
pub proof fn lemma_pool_against_bytes(data: Seq<u8>, pos: nat, count: nat, acc: Seq<EntryView>)
    ensures
        pos + 2 <= data.len() ==> (constant_pool_spec(data, pos).0 matches Ok((slots, _))
            ==> slots == u16_at(data, pos as int)),
        pos + 2 > data.len() ==> constant_pool_spec(data, pos) == (
            Err::<(u16, Seq<EntryView>), ParseError>(eof_at(pos)),
            pos,
        ),
        acc.len() < count && pos < data.len() && tag_of(data[pos as int]) is None
            ==> pool_entries_spec(data, pos, count, acc) == (
            Err::<Seq<EntryView>, ParseError>(
                ParseError::InvalidConstantPoolTag { offset: pos as usize, tag: data[pos as int] },
            ),
            pos + 1,
        ),
        acc.len() < count && pos < data.len() && tag_of(data[pos as int]) is Some
            ==> pool_entries_spec(data, pos, count, acc) == match decode_entry_spec(
            tag_of(data[pos as int])->Some_0,
            data,
            pos + 1,
        ) {
            (Err(e), next) => (Err(e), next),
            (Ok(DecodedView::One(entry)), next) => pool_entries_spec(data, next, count, acc.push(entry)),
            (Ok(DecodedView::Two(first, second)), next) => if acc.len() + 2 > count {
                (Err(ParseError::InvalidConstantPoolLayout { offset: pos as usize }), next)
            } else {
                pool_entries_spec(data, next, count, acc.push(first).push(second))
            },
        },
{
    lemma_reads_against_bytes(data, pos);
}

/// The entries of a class file's constant pool, indexed from 1 as in the class file.
pub struct ConstantPool<'a> {
    pub count: u16,
    entries: Vec<ConstantPoolEntry<'a>>,
}

impl<'a> ConstantPool<'a> {
    /// The slot count written in the class file (the `count` field).
    pub closed spec fn slot_count(self) -> u16 {
        self.count
    }

    /// The entries, slot 0 included.
    pub closed spec fn entries_view(self) -> Seq<EntryView> {
        self.entries@.map_values(|e: ConstantPoolEntry<'a>| e@)
    }

    /// Reads a constant pool at the reader's position.
    pub fn try_from(reader: &mut ClassReader<'a>) -> (r: Result<Self, ParseError>)
        ensures
            final(reader).data() == old(reader).data(),
            old(reader).pos() <= final(reader).pos() <= final(reader).data().len(),
            final(reader).pos() == constant_pool_spec(old(reader).data(), old(reader).pos()).1,
            match constant_pool_spec(old(reader).data(), old(reader).pos()).0 {
                Ok((count, entries)) => r matches Ok(pool) && pool.slot_count() == count
                    && pool.entries_view() == entries,
                Err(e) => r matches Err(found) && found == e,
            },
    {
        let ghost first = reader.pos();
        let count = reader.read_u16()?;
        let ghost data = reader.data();
        let ghost start = reader.pos();
        let mut entries: Vec<ConstantPoolEntry<'a>> = Vec::with_capacity(count as usize);
        entries.push(ConstantPoolEntry::Unusable);
        proof {
            assert(entries@.map_values(|e: ConstantPoolEntry<'a>| e@) =~= seq![EntryView::Unusable]);
        }
        while entries.len() < count as usize
            invariant
                reader.data() == data,
                data == old(reader).data(),
                first == old(reader).pos(),
                read_u16_spec(data, first) == (Ok::<u16, ParseError>(count), start),
                start <= reader.pos() <= data.len(),
                entries@.len() <= count || entries@.len() == 1,
                pool_entries_spec(data, reader.pos(), count as nat, entries@.map_values(|e: ConstantPoolEntry<'a>| e@))
                    == pool_entries_spec(data, start, count as nat, seq![EntryView::Unusable]),
            decreases count - entries@.len(),
        {
            let ghost acc = entries@.map_values(|e: ConstantPoolEntry<'a>| e@);
            let ghost here = reader.pos();
            let offset = reader.offset();
            let raw_tag = reader.read_u8()?;
            let tag = match ConstantPoolTag::try_from(raw_tag) {
                Ok(tag) => tag,
                Err(tag) => {
                    return Err(ParseError::InvalidConstantPoolTag { offset, tag });
                },
            };
            let decoded = decode_entry(tag, reader)?;
            match decoded {
                DecodedEntry::One(entry) => {
                    entries.push(entry);
                    proof {
                        assert(entries@.map_values(|e: ConstantPoolEntry<'a>| e@) =~= acc.push(entry@));
                    }
                },
                DecodedEntry::Two(first, second) => {
                    if entries.len() + 2 > count as usize {
                        return Err(ParseError::InvalidConstantPoolLayout { offset });
                    }
                    entries.push(first);
                    entries.push(second);
                    proof {
                        assert(entries@.map_values(|e: ConstantPoolEntry<'a>| e@) =~= acc.push(first@).push(second@));
                    }
                },
            }
        }
        Ok(Self { count, entries })
    }

    /// The slot count written in the class file.
    pub fn count(&self) -> (count: u16)
        ensures
            count == self.slot_count(),
    {
        self.count
    }

    /// The entry in slot `index`; slot 0 and slots past the end hold none.
    pub fn get(&self, index: u16) -> (r: Option<&ConstantPoolEntry<'a>>)
        ensures
            match r {
                Some(entry) => 0 < index < self.entries_view().len() && entry@ == self.entries_view()[index as int],
                None => index == 0 || index >= self.entries_view().len(),
            },
    {
        if index == 0 {
            return None;
        }
        let i = index as usize;
        if i < self.entries.len() {
            Some(&self.entries[i])
        } else {
            None
        }
    }

    /// The text of the UTF-8 entry in slot `index`, when that slot holds one and its
    /// bytes are well-formed UTF-8.
    pub fn utf8(&self, index: u16) -> (r: Option<&str>)
        ensures
            match utf8_entry(self.entries_view(), index) {
                Some(bytes) => if valid_utf8(bytes) {
                    r matches Some(text) && text.spec_bytes() == bytes
                } else {
                    r is None
                },
                None => r is None,
            },
            r is Some <==> (0 < index < self.entries_view().len()
                && self.entries_view()[index as int] is Utf8 && valid_utf8(
                self.entries_view()[index as int]->Utf8_0,
            )),
            r matches Some(text) ==> text.spec_bytes() == self.entries_view()[index as int]->Utf8_0,
    {
        match self.get(index) {
            Some(ConstantPoolEntry::Utf8(bytes)) => str_from_utf8(bytes),
            _ => None,
        }
    }
}

/// Calls `std::str::from_utf8`, which, as its documentation says, gives back the same
/// bytes viewed as a string slice when they are well-formed UTF-8 and an error
/// otherwise. Well-formedness is vstd's `valid_utf8`: no stray continuation bytes, no
/// overlong encodings, no surrogates, nothing above U+10FFFF.
#[verifier::external_body]
fn str_from_utf8(bytes: &[u8]) -> (r: Option<&str>)
    ensures
        r is Some <==> valid_utf8(bytes@),
        r matches Some(text) ==> text.spec_bytes() == bytes@,
{
    std::str::from_utf8(bytes).ok()
}

/// Decodes the body of an entry of the given kind.
fn decode_entry<'a>(tag: ConstantPoolTag, reader: &mut ClassReader<'a>) -> (r: Result<
    DecodedEntry<'a>,
    ParseError,
>)
    ensures
        final(reader).data() == old(reader).data(),
        old(reader).pos() <= final(reader).pos() <= final(reader).data().len(),
        agrees(r, final(reader).pos(), decode_entry_spec(tag, old(reader).data(), old(reader).pos())),
{
    match tag {
        ConstantPoolTag::Utf8 => decode_utf8(reader),
        ConstantPoolTag::Integer => decode_integer(reader),
        ConstantPoolTag::Float => decode_float(reader),
        ConstantPoolTag::Long => decode_long(reader),
        ConstantPoolTag::Double => decode_double(reader),
        ConstantPoolTag::Class => decode_class(reader),
        ConstantPoolTag::String => decode_string(reader),
        ConstantPoolTag::FieldRef => decode_field_ref(reader),
        ConstantPoolTag::MethodRef => decode_method_ref(reader),
        ConstantPoolTag::InterfaceMethodRef => decode_interface_method_ref(reader),
        ConstantPoolTag::NameAndType => decode_name_and_type(reader),
        ConstantPoolTag::MethodHandle => decode_method_handle(reader),
        ConstantPoolTag::MethodType => decode_method_type(reader),
        ConstantPoolTag::Dynamic => decode_dynamic(reader),
        ConstantPoolTag::InvokeDynamic => decode_invoke_dynamic(reader),
        ConstantPoolTag::Module => decode_module(reader),
        ConstantPoolTag::Package => decode_package(reader),
    }
}

fn decode_method_ref<'a>(reader: &mut ClassReader<'_>) -> (r: Result<DecodedEntry<'a>, ParseError>)
    ensures
        final(reader).data() == old(reader).data(),
        old(reader).pos() <= final(reader).pos() <= final(reader).data().len(),
        agrees(
            r,
            final(reader).pos(),
            decode_entry_spec(ConstantPoolTag::MethodRef, old(reader).data(), old(reader).pos()),
        ),
{
    Ok(
        DecodedEntry::One(
            ConstantPoolEntry::MethodRef {
                class_index: ClassIndex(reader.read_u16()?),
                name_and_type_index: NameAndTypeIndex(reader.read_u16()?),
            },
        ),
    )
}

fn decode_interface_method_ref<'a>(reader: &mut ClassReader<'_>) -> (r: Result<DecodedEntry<'a>, ParseError>)
    ensures
        final(reader).data() == old(reader).data(),
        old(reader).pos() <= final(reader).pos() <= final(reader).data().len(),
        agrees(
            r,
            final(reader).pos(),
            decode_entry_spec(ConstantPoolTag::InterfaceMethodRef, old(reader).data(), old(reader).pos()),
        ),
{
    Ok(
        DecodedEntry::One(
            ConstantPoolEntry::InterfaceMethodRef {
                class_index: ClassIndex(reader.read_u16()?),
                name_and_type_index: NameAndTypeIndex(reader.read_u16()?),
            },
        ),
    )
}

fn decode_name_and_type<'a>(reader: &mut ClassReader<'_>) -> (r: Result<DecodedEntry<'a>, ParseError>)
    ensures
        final(reader).data() == old(reader).data(),
        old(reader).pos() <= final(reader).pos() <= final(reader).data().len(),
        agrees(
            r,
            final(reader).pos(),
            decode_entry_spec(ConstantPoolTag::NameAndType, old(reader).data(), old(reader).pos()),
        ),
{
    Ok(
        DecodedEntry::One(
            ConstantPoolEntry::NameAndType {
                name_index: Utf8Index(reader.read_u16()?),
                descriptor_index: Utf8Index(reader.read_u16()?),
            },
        ),
    )
}

fn decode_method_handle<'a>(reader: &mut ClassReader<'_>) -> (r: Result<DecodedEntry<'a>, ParseError>)
    ensures
        final(reader).data() == old(reader).data(),
        old(reader).pos() <= final(reader).pos() <= final(reader).data().len(),
        agrees(
            r,
            final(reader).pos(),
            decode_entry_spec(ConstantPoolTag::MethodHandle, old(reader).data(), old(reader).pos()),
        ),
{
    Ok(
        DecodedEntry::One(
            ConstantPoolEntry::MethodHandle {
                reference_kind: reader.read_u8()?,
                reference_index: ReferenceIndex(reader.read_u16()?),
            },
        ),
    )
}

fn decode_method_type<'a>(reader: &mut ClassReader<'_>) -> (r: Result<DecodedEntry<'a>, ParseError>)
    ensures
        final(reader).data() == old(reader).data(),
        old(reader).pos() <= final(reader).pos() <= final(reader).data().len(),
        agrees(
            r,
            final(reader).pos(),
            decode_entry_spec(ConstantPoolTag::MethodType, old(reader).data(), old(reader).pos()),
        ),
{
    Ok(DecodedEntry::One(ConstantPoolEntry::MethodType { descriptor_index: Utf8Index(reader.read_u16()?) }))
}

fn decode_dynamic<'a>(reader: &mut ClassReader<'_>) -> (r: Result<DecodedEntry<'a>, ParseError>)
    ensures
        final(reader).data() == old(reader).data(),
        old(reader).pos() <= final(reader).pos() <= final(reader).data().len(),
        agrees(
            r,
            final(reader).pos(),
            decode_entry_spec(ConstantPoolTag::Dynamic, old(reader).data(), old(reader).pos()),
        ),
{
    Ok(
        DecodedEntry::One(
            ConstantPoolEntry::Dynamic {
                bootstrap_method_attr_index: BootstrapMethodIndex(reader.read_u16()?),
                name_and_type_index: NameAndTypeIndex(reader.read_u16()?),
            },
        ),
    )
}

fn decode_invoke_dynamic<'a>(reader: &mut ClassReader<'_>) -> (r: Result<DecodedEntry<'a>, ParseError>)
    ensures
        final(reader).data() == old(reader).data(),
        old(reader).pos() <= final(reader).pos() <= final(reader).data().len(),
        agrees(
            r,
            final(reader).pos(),
            decode_entry_spec(ConstantPoolTag::InvokeDynamic, old(reader).data(), old(reader).pos()),
        ),
{
    Ok(
        DecodedEntry::One(
            ConstantPoolEntry::InvokeDynamic {
                bootstrap_method_attr_index: BootstrapMethodIndex(reader.read_u16()?),
                name_and_type_index: NameAndTypeIndex(reader.read_u16()?),
            },
        ),
    )
}

fn decode_package<'a>(reader: &mut ClassReader<'_>) -> (r: Result<DecodedEntry<'a>, ParseError>)
    ensures
        final(reader).data() == old(reader).data(),
        old(reader).pos() <= final(reader).pos() <= final(reader).data().len(),
        agrees(
            r,
            final(reader).pos(),
            decode_entry_spec(ConstantPoolTag::Package, old(reader).data(), old(reader).pos()),
        ),
{
    Ok(DecodedEntry::One(ConstantPoolEntry::Package { name_index: Utf8Index(reader.read_u16()?) }))
}

fn decode_module<'a>(reader: &mut ClassReader<'_>) -> (r: Result<DecodedEntry<'a>, ParseError>)
    ensures
        final(reader).data() == old(reader).data(),
        old(reader).pos() <= final(reader).pos() <= final(reader).data().len(),
        agrees(
            r,
            final(reader).pos(),
            decode_entry_spec(ConstantPoolTag::Module, old(reader).data(), old(reader).pos()),
        ),
{
    Ok(DecodedEntry::One(ConstantPoolEntry::Module { name_index: Utf8Index(reader.read_u16()?) }))
}

fn decode_field_ref<'a>(reader: &mut ClassReader<'_>) -> (r: Result<DecodedEntry<'a>, ParseError>)
    ensures
        final(reader).data() == old(reader).data(),
        old(reader).pos() <= final(reader).pos() <= final(reader).data().len(),
        agrees(
            r,
            final(reader).pos(),
            decode_entry_spec(ConstantPoolTag::FieldRef, old(reader).data(), old(reader).pos()),
        ),
{
    Ok(
        DecodedEntry::One(
            ConstantPoolEntry::FieldRef {
                class_index: ClassIndex(reader.read_u16()?),
                name_and_type_index: NameAndTypeIndex(reader.read_u16()?),
            },
        ),
    )
}

fn decode_string<'a>(reader: &mut ClassReader<'_>) -> (r: Result<DecodedEntry<'a>, ParseError>)
    ensures
        final(reader).data() == old(reader).data(),
        old(reader).pos() <= final(reader).pos() <= final(reader).data().len(),
        agrees(
            r,
            final(reader).pos(),
            decode_entry_spec(ConstantPoolTag::String, old(reader).data(), old(reader).pos()),
        ),
{
    Ok(DecodedEntry::One(ConstantPoolEntry::String { string_index: Utf8Index(reader.read_u16()?) }))
}

fn decode_class<'a>(reader: &mut ClassReader<'_>) -> (r: Result<DecodedEntry<'a>, ParseError>)
    ensures
        final(reader).data() == old(reader).data(),
        old(reader).pos() <= final(reader).pos() <= final(reader).data().len(),
        agrees(
            r,
            final(reader).pos(),
            decode_entry_spec(ConstantPoolTag::Class, old(reader).data(), old(reader).pos()),
        ),
{
    Ok(DecodedEntry::One(ConstantPoolEntry::Class { name_index: Utf8Index(reader.read_u16()?) }))
}

fn decode_double<'a>(reader: &mut ClassReader<'_>) -> (r: Result<DecodedEntry<'a>, ParseError>)
    ensures
        final(reader).data() == old(reader).data(),
        old(reader).pos() <= final(reader).pos() <= final(reader).data().len(),
        agrees(
            r,
            final(reader).pos(),
            decode_entry_spec(ConstantPoolTag::Double, old(reader).data(), old(reader).pos()),
        ),
{
    Ok(DecodedEntry::Two(ConstantPoolEntry::Double(reader.read_u64()?), ConstantPoolEntry::Unusable))
}

fn decode_long<'a>(reader: &mut ClassReader<'_>) -> (r: Result<DecodedEntry<'a>, ParseError>)
    ensures
        final(reader).data() == old(reader).data(),
        old(reader).pos() <= final(reader).pos() <= final(reader).data().len(),
        agrees(
            r,
            final(reader).pos(),
            decode_entry_spec(ConstantPoolTag::Long, old(reader).data(), old(reader).pos()),
        ),
{
    Ok(
        DecodedEntry::Two(
            ConstantPoolEntry::Long(reader.read_u64()? as i64),
            ConstantPoolEntry::Unusable,
        ),
    )
}

fn decode_float<'a>(reader: &mut ClassReader<'_>) -> (r: Result<DecodedEntry<'a>, ParseError>)
    ensures
        final(reader).data() == old(reader).data(),
        old(reader).pos() <= final(reader).pos() <= final(reader).data().len(),
        agrees(
            r,
            final(reader).pos(),
            decode_entry_spec(ConstantPoolTag::Float, old(reader).data(), old(reader).pos()),
        ),
{
    Ok(DecodedEntry::One(ConstantPoolEntry::Float(reader.read_u32()?)))
}

fn decode_integer<'a>(reader: &mut ClassReader<'_>) -> (r: Result<DecodedEntry<'a>, ParseError>)
    ensures
        final(reader).data() == old(reader).data(),
        old(reader).pos() <= final(reader).pos() <= final(reader).data().len(),
        agrees(
            r,
            final(reader).pos(),
            decode_entry_spec(ConstantPoolTag::Integer, old(reader).data(), old(reader).pos()),
        ),
{
    Ok(DecodedEntry::One(ConstantPoolEntry::Integer(reader.read_u32()? as i32)))
}

fn decode_utf8<'a>(reader: &mut ClassReader<'a>) -> (r: Result<DecodedEntry<'a>, ParseError>)
    ensures
        final(reader).data() == old(reader).data(),
        old(reader).pos() <= final(reader).pos() <= final(reader).data().len(),
        agrees(
            r,
            final(reader).pos(),
            decode_entry_spec(ConstantPoolTag::Utf8, old(reader).data(), old(reader).pos()),
        ),
{
    let length = reader.read_u16()? as usize;
    let bytes = reader.read_bytes(length)?;
    Ok(DecodedEntry::One(ConstantPoolEntry::Utf8(bytes)))
}

} // verus!
