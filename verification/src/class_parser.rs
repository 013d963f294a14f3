use vstd::prelude::*;
use vstd::utf8::{
    decode_utf8, decode_utf8_encode_utf8, encode_utf8, encode_utf8_decode_utf8, encode_utf8_valid_utf8,
    is_ascii_chars, is_ascii_chars_encode_utf8, valid_utf8,
};

use crate::class_file_version::{compact_version_spec, ClassFileVersion};
use crate::class_reader::{
    eof_at, lemma_reads_against_bytes, read_bytes_spec, read_u16_spec, read_u32_spec, u16_at,
    u32_at, ClassReader, ParseError, Step,
};
use crate::constant_pool::{constant_pool_spec, utf8_entry, ConstantPool, ConstantPoolEntry, EntryView};
use crate::instruction_set::{instructions_spec, InstructionSet};
use crate::instructions::JvmInstruction;
use crate::raw_class_file_version::{raw_version_spec, RawClassFileVersion};

verus! {

/// The header of a field or method.
#[derive(Debug, Clone, Copy, PartialEq, Eq, Structural)]
pub struct MemberInfo {
    /// Position of the member in its table, counting from 0.
    pub ordinal: u16,
    pub access_flags: u16,
    pub name_index: u16,
    pub descriptor_index: u16,
    pub attributes_count: u16,
}

/// One thing met while walking through a class file after its constant pool, in the
/// order of the file. The attributes of a field or method follow it; the
/// instructions and the nested attributes of a `Code` attribute follow it.
#[derive(Debug, Clone, Copy, PartialEq, Eq, Structural)]
pub enum ClassElement {
    AccessFlags(u16),
    ThisClass(u16),
    SuperClass(u16),
    InterfacesCount(u16),
    Interface { ordinal: u16, class_index: u16 },
    FieldsCount(u16),
    Field(MemberInfo),
    MethodsCount(u16),
    Method(MemberInfo),
    ClassAttributesCount(u16),
    Attribute { name_index: u16, length: u32 },
    Code { max_stack: u16, max_locals: u16, code_length: u32 },
    Instruction(JvmInstruction),
}

/// Puts `first` in front of what a step produced.
pub open spec fn prefix_step(first: Seq<ClassElement>, step: Step<Seq<ClassElement>>) -> Step<
    Seq<ClassElement>,
> {
    match step.0 {
        Ok(rest) => (Ok(first + rest), step.1),
        Err(e) => (Err(e), step.1),
    }
}

/// The bytes of the name `Code` in UTF-8.
pub open spec fn code_name() -> Seq<u8> {
    seq![0x43u8, 0x6fu8, 0x64u8, 0x65u8]
}

/// Whether the constant pool names an attribute `Code` at `index`: the slot holds a
/// UTF-8 entry whose bytes spell `Code`.
pub open spec fn names_code(pool: Seq<EntryView>, index: u16) -> bool {
    utf8_entry(pool, index) == Some(code_name())
}

/// Reading `count` 16-bit values and dropping them.
pub open spec fn skip_u16s_spec(data: Seq<u8>, pos: nat, count: nat) -> Step<()>
    decreases count,
{
    if count == 0 {
        (Ok(()), pos)
    } else {
        let (v, p1) = read_u16_spec(data, pos);
        match v {
            Err(e) => (Err(e), p1),
            Ok(_) => skip_u16s_spec(data, p1, (count - 1) as nat),
        }
    }
}

/// Reading one attribute at `pos`: its name index and length, then, for a `Code`
/// attribute, its body; any other attribute's body is skipped.
pub open spec fn attribute_spec(pool: Seq<EntryView>, data: Seq<u8>, pos: nat) -> Step<
    Seq<ClassElement>,
>
    decreases data.len() - pos, 0nat,
{
    let (name, p1) = read_u16_spec(data, pos);
    match name {
        Err(e) => (Err(e), p1),
        Ok(name_index) => {
            let (length, p2) = read_u32_spec(data, p1);
            match length {
                Err(e) => (Err(e), p2),
                Ok(length) => {
                    let head = seq![ClassElement::Attribute { name_index, length }];
                    if names_code(pool, name_index) {
                        if pos < p2 <= data.len() {
                            prefix_step(head, code_attribute_spec(pool, data, p2))
                        } else {
                            (Ok(head), p2)
                        }
                    } else {
                        let (body, p3) = read_bytes_spec(data, p2, length as nat);
                        match body {
                            Err(e) => (Err(e), p3),
                            Ok(_) => (Ok(head), p3),
                        }
                    }
                },
            }
        },
    }
}

/// Reading the sizes at the start of a `Code` attribute: the maximum stack depth,
/// the number of locals and the length of the code.
pub open spec fn code_sizes_spec(data: Seq<u8>, pos: nat) -> Step<(u16, u16, u32)> {
    let (max_stack, p1) = read_u16_spec(data, pos);
    match max_stack {
        Err(e) => (Err(e), p1),
        Ok(max_stack) => {
            let (max_locals, p2) = read_u16_spec(data, p1);
            match max_locals {
                Err(e) => (Err(e), p2),
                Ok(max_locals) => {
                    let (code_length, p3) = read_u32_spec(data, p2);
                    match code_length {
                        Err(e) => (Err(e), p3),
                        Ok(code_length) => (Ok((max_stack, max_locals, code_length)), p3),
                    }
                },
            }
        },
    }
}

/// Reading `code_length` bytes of code and decoding them into instructions. A
/// decoding error is reported as it is, with the reader after the code.
pub open spec fn code_body_spec(data: Seq<u8>, pos: nat, code_length: u32) -> Step<
    Seq<JvmInstruction>,
> {
    let (code, p1) = read_bytes_spec(data, pos, code_length as nat);
    match code {
        Err(e) => (Err(e), p1),
        Ok(code) => (instructions_spec(code, 0, code_length as nat, seq![]).0, p1),
    }
}

/// Reading the exception table after the code, which is dropped, and the number of
/// nested attributes.
pub open spec fn code_tail_spec(data: Seq<u8>, pos: nat) -> Step<u16> {
    let (table_length, p1) = read_u16_spec(data, pos);
    match table_length {
        Err(e) => (Err(e), p1),
        Ok(table_length) => {
            let (table, p2) = skip_u16s_spec(data, p1, 4 * table_length as nat);
            match table {
                Err(e) => (Err(e), p2),
                Ok(_) => read_u16_spec(data, p2),
            }
        },
    }
}

/// The elements that stand for a `Code` attribute's sizes and instructions.
pub open spec fn code_elements(sizes: (u16, u16, u32), instructions: Seq<JvmInstruction>) -> Seq<
    ClassElement,
> {
    seq![ClassElement::Code { max_stack: sizes.0, max_locals: sizes.1, code_length: sizes.2 }]
        + instructions.map_values(|i: JvmInstruction| ClassElement::Instruction(i))
}

/// Reading the body of a `Code` attribute at `pos`: the sizes, the code, which is
/// decoded into instructions, the exception table, which is skipped, and the nested
/// attributes.
pub open spec fn code_attribute_spec(pool: Seq<EntryView>, data: Seq<u8>, pos: nat) -> Step<
    Seq<ClassElement>,
>
    decreases data.len() - pos, 0nat,
{
    let (sizes, p1) = code_sizes_spec(data, pos);
    match sizes {
        Err(e) => (Err(e), p1),
        Ok(sizes) => {
            let (instructions, p2) = code_body_spec(data, p1, sizes.2);
            match instructions {
                Err(e) => (Err(e), p2),
                Ok(instructions) => {
                    let (count, p3) = code_tail_spec(data, p2);
                    match count {
                        Err(e) => (Err(e), p3),
                        Ok(count) => if pos < p3 <= data.len() {
                            prefix_step(
                                code_elements(sizes, instructions),
                                attributes_spec(pool, data, p3, count as nat),
                            )
                        } else {
                            (Ok(code_elements(sizes, instructions)), p3)
                        },
                    }
                },
            }
        },
    }
}

/// Reading `count` attributes one after another at `pos`.
pub open spec fn attributes_spec(pool: Seq<EntryView>, data: Seq<u8>, pos: nat, count: nat) -> Step<
    Seq<ClassElement>,
>
    decreases data.len() - pos, count,
{
    if count == 0 {
        (Ok(seq![]), pos)
    } else {
        let (first, p1) = attribute_spec(pool, data, pos);
        match first {
            Err(e) => (Err(e), p1),
            Ok(first) => if pos <= p1 <= data.len() {
                prefix_step(first, attributes_spec(pool, data, p1, (count - 1) as nat))
            } else {
                (Ok(first), p1)
            },
        }
    }
}

/// The bytes tested for an attribute named `Code` are the UTF-8 encoding of the text
/// `Code`.
proof fn lemma_code_name_encodes_code()
    ensures
        encode_utf8("Code"@) == code_name(),
{
    reveal_strlit("Code");
    let text = "Code"@;
    assert(is_ascii_chars(text));
    is_ascii_chars_encode_utf8(text);
    assert(encode_utf8(text) =~= code_name());
}

/// A slot names an attribute `Code` exactly when it holds a UTF-8 entry whose bytes
/// are well-formed UTF-8 and decode to the text `Code`, which is what the text
/// lookup of the constant pool gives.
pub proof fn lemma_names_code_iff_text_is_code(pool: Seq<EntryView>, index: u16)
    ensures
        names_code(pool, index) <==> (utf8_entry(pool, index) matches Some(bytes) && valid_utf8(
            bytes,
        ) && decode_utf8(bytes) == "Code"@),
{
    lemma_code_name_encodes_code();
    encode_utf8_valid_utf8("Code"@);
    encode_utf8_decode_utf8("Code"@);
    if let Some(bytes) = utf8_entry(pool, index) {
        if valid_utf8(bytes) && decode_utf8(bytes) == "Code"@ {
            decode_utf8_encode_utf8(bytes);
        }
    }
}

/// Reading two 16-bit values one after the other.
pub open spec fn read_u16_pair_spec(data: Seq<u8>, pos: nat) -> Step<(u16, u16)> {
    let (first, p1) = read_u16_spec(data, pos);
    match first {
        Err(e) => (Err(e), p1),
        Ok(first) => {
            let (second, p2) = read_u16_spec(data, p1);
            match second {
                Err(e) => (Err(e), p2),
                Ok(second) => (Ok((first, second)), p2),
            }
        },
    }
}

/// Reading four 16-bit values one after another.
pub open spec fn read_four_u16_spec(data: Seq<u8>, pos: nat) -> Step<(u16, u16, u16, u16)> {
    let (first, p1) = read_u16_pair_spec(data, pos);
    match first {
        Err(e) => (Err(e), p1),
        Ok(first) => {
            let (second, p2) = read_u16_pair_spec(data, p1);
            match second {
                Err(e) => (Err(e), p2),
                Ok(second) => (Ok((first.0, first.1, second.0, second.1)), p2),
            }
        },
    }
}

/// Reading the interface table entries from `ordinal` up to `count`, one class index
/// each.
pub open spec fn interfaces_spec(data: Seq<u8>, pos: nat, ordinal: nat, count: nat) -> Step<
    Seq<ClassElement>,
>
    decreases count - ordinal,
{
    if ordinal >= count {
        (Ok(seq![]), pos)
    } else {
        let (class_index, p1) = read_u16_spec(data, pos);
        match class_index {
            Err(e) => (Err(e), p1),
            Ok(class_index) => prefix_step(
                seq![ClassElement::Interface { ordinal: ordinal as u16, class_index }],
                interfaces_spec(data, p1, ordinal + 1, count),
            ),
        }
    }
}

/// Reading what follows the constant pool up to the field table: the access flags,
/// this class, the super class and the interface table.
pub open spec fn class_header_spec(data: Seq<u8>, pos: nat) -> Step<Seq<ClassElement>> {
    let (values, p1) = read_four_u16_spec(data, pos);
    match values {
        Err(e) => (Err(e), p1),
        Ok(values) => prefix_step(
            seq![
                ClassElement::AccessFlags(values.0),
                ClassElement::ThisClass(values.1),
                ClassElement::SuperClass(values.2),
                ClassElement::InterfacesCount(values.3),
            ],
            interfaces_spec(data, p1, 0, values.3 as nat),
        ),
    }
}

/// The element of a field or a method.
pub open spec fn member_element(info: MemberInfo, methods: bool) -> ClassElement {
    if methods {
        ClassElement::Method(info)
    } else {
        ClassElement::Field(info)
    }
}

/// Reading the field or method table entries from `ordinal` up to `count`: each has
/// its access flags, name index, descriptor index and attribute count, then its
/// attributes.
pub open spec fn members_spec(
    pool: Seq<EntryView>,
    data: Seq<u8>,
    pos: nat,
    ordinal: nat,
    count: nat,
    methods: bool,
) -> Step<Seq<ClassElement>>
    decreases count - ordinal,
{
    if ordinal >= count {
        (Ok(seq![]), pos)
    } else {
        let (values, p1) = read_four_u16_spec(data, pos);
        match values {
            Err(e) => (Err(e), p1),
            Ok(values) => {
                let info = MemberInfo {
                    ordinal: ordinal as u16,
                    access_flags: values.0,
                    name_index: values.1,
                    descriptor_index: values.2,
                    attributes_count: values.3,
                };
                let (attributes, p2) = attributes_spec(pool, data, p1, values.3 as nat);
                match attributes {
                    Err(e) => (Err(e), p2),
                    Ok(attributes) => prefix_step(
                        seq![member_element(info, methods)] + attributes,
                        members_spec(pool, data, p2, ordinal + 1, count, methods),
                    ),
                }
            },
        }
    }
}

/// Reading a field table (or, with `methods`, a method table): its count, then its
/// entries.
pub open spec fn member_table_spec(pool: Seq<EntryView>, data: Seq<u8>, pos: nat, methods: bool) -> Step<
    Seq<ClassElement>,
> {
    let (count, p1) = read_u16_spec(data, pos);
    match count {
        Err(e) => (Err(e), p1),
        Ok(count) => prefix_step(
            seq![if methods { ClassElement::MethodsCount(count) } else { ClassElement::FieldsCount(count) }],
            members_spec(pool, data, p1, 0, count as nat, methods),
        ),
    }
}

/// Reading the attributes of the class itself: their count, then the attributes.
pub open spec fn class_attributes_spec(pool: Seq<EntryView>, data: Seq<u8>, pos: nat) -> Step<
    Seq<ClassElement>,
> {
    let (count, p1) = read_u16_spec(data, pos);
    match count {
        Err(e) => (Err(e), p1),
        Ok(count) => prefix_step(
            seq![ClassElement::ClassAttributesCount(count)],
            attributes_spec(pool, data, p1, count as nat),
        ),
    }
}

/// Reading everything after the constant pool: the header, the field table, the
/// method table and the class attributes.
pub open spec fn class_body_spec(pool: Seq<EntryView>, data: Seq<u8>, pos: nat) -> Step<
    Seq<ClassElement>,
> {
    let (header, p1) = class_header_spec(data, pos);
    match header {
        Err(e) => (Err(e), p1),
        Ok(header) => {
            let (fields, p2) = member_table_spec(pool, data, p1, false);
            match fields {
                Err(e) => (Err(e), p2),
                Ok(fields) => {
                    let (methods, p3) = member_table_spec(pool, data, p2, true);
                    match methods {
                        Err(e) => (Err(e), p3),
                        Ok(methods) => prefix_step(
                            header + fields + methods,
                            class_attributes_spec(pool, data, p3),
                        ),
                    }
                },
            }
        },
    }
}

/// A parsed class file as plain values.
pub struct ClassView {
    /// The compact version byte.
    pub version_bits: u8,
    pub pool_count: u16,
    pub pool_entries: Seq<EntryView>,
    pub elements: Seq<ClassElement>,
}

/// Reading a whole class file at `pos`: the header with the version, which must have
/// a compact form, the constant pool, then the rest.
pub open spec fn class_spec(data: Seq<u8>, pos: nat) -> Step<ClassView> {
    let (raw, p1) = raw_version_spec(data, pos);
    match raw {
        Err(e) => (Err(e), p1),
        Ok(raw) => match compact_version_spec(raw) {
            Err(e) => (Err(ParseError::InvalidVersion(e)), p1),
            Ok(version_bits) => {
                let (pool, p2) = constant_pool_spec(data, p1);
                match pool {
                    Err(e) => (Err(e), p2),
                    Ok((pool_count, pool_entries)) => {
                        let (elements, p3) = class_body_spec(pool_entries, data, p2);
                        match elements {
                            Err(e) => (Err(e), p3),
                            Ok(elements) => (
                                Ok(ClassView { version_bits, pool_count, pool_entries, elements }),
                                p3,
                            ),
                        }
                    },
                }
            },
        },
    }
}

/// Putting elements in front of a step keeps them first, followed by what the step
/// produced, and changes neither its error nor its final position.
pub proof fn lemma_prefix_step_keeps_order(first: Seq<ClassElement>, step: Step<Seq<ClassElement>>)
    ensures
        prefix_step(first, step).1 == step.1,
        step.0 is Ok <==> prefix_step(first, step).0 is Ok,
        step.0 matches Ok(rest) ==> prefix_step(first, step).0->Ok_0.len() == first.len()
            + rest.len() && prefix_step(first, step).0->Ok_0.subrange(0, first.len() as int)
            == first && prefix_step(first, step).0->Ok_0.subrange(
            first.len() as int,
            (first.len() + rest.len()) as int,
        ) == rest,
        step.0 matches Err(e) ==> prefix_step(first, step).0 == Err::<Seq<ClassElement>, ParseError>(e),
{
    if let Ok(rest) = step.0 {
        assert((first + rest).subrange(0, first.len() as int) =~= first);
        assert((first + rest).subrange(first.len() as int, (first.len() + rest.len()) as int) =~= rest);
    }
}

/// The access flags, this class, super class and interface count are the four
/// big-endian 16-bit numbers at the start of the header, in that order, and the
/// interface table follows them.
pub proof fn lemma_class_header_against_bytes(data: Seq<u8>, pos: nat)
    requires
        pos + 8 <= data.len(),
    ensures
        class_header_spec(data, pos) == prefix_step(
            seq![
                ClassElement::AccessFlags(u16_at(data, pos as int) as u16),
                ClassElement::ThisClass(u16_at(data, pos + 2int) as u16),
                ClassElement::SuperClass(u16_at(data, pos + 4int) as u16),
                ClassElement::InterfacesCount(u16_at(data, pos + 6int) as u16),
            ],
            interfaces_spec(data, pos + 8, 0, u16_at(data, pos + 6int) as nat),
        ),
{
    lemma_reads_against_bytes(data, pos);
    lemma_reads_against_bytes(data, pos + 2);
    lemma_reads_against_bytes(data, pos + 4);
    lemma_reads_against_bytes(data, pos + 6);
}

/// Each interface table entry is the big-endian 16-bit class index at its offset,
/// numbered from the entry's position in the table.
pub proof fn lemma_interface_against_bytes(data: Seq<u8>, pos: nat, ordinal: nat, count: nat)
    requires
        ordinal < count,
        pos + 2 <= data.len(),
    ensures
        interfaces_spec(data, pos, ordinal, count) == prefix_step(
            seq![
                ClassElement::Interface {
                    ordinal: ordinal as u16,
                    class_index: u16_at(data, pos as int) as u16,
                },
            ],
            interfaces_spec(data, pos + 2, ordinal + 1, count),
        ),
{
    lemma_reads_against_bytes(data, pos);
}

/// A field or method table entry is four big-endian 16-bit numbers: access flags,
/// name index, descriptor index and attribute count, in that order; that many
/// attributes follow, then the next entry.
pub proof fn lemma_member_against_bytes(
    pool: Seq<EntryView>,
    data: Seq<u8>,
    pos: nat,
    ordinal: nat,
    count: nat,
    methods: bool,
)
    requires
        ordinal < count,
        pos + 8 <= data.len(),
    ensures
        ({
            let info = MemberInfo {
                ordinal: ordinal as u16,
                access_flags: u16_at(data, pos as int) as u16,
                name_index: u16_at(data, pos + 2int) as u16,
                descriptor_index: u16_at(data, pos + 4int) as u16,
                attributes_count: u16_at(data, pos + 6int) as u16,
            };
            let element = if methods {
                ClassElement::Method(info)
            } else {
                ClassElement::Field(info)
            };
            let (attributes, next) = attributes_spec(
                pool,
                data,
                pos + 8,
                u16_at(data, pos + 6int) as nat,
            );
            members_spec(pool, data, pos, ordinal, count, methods) == match attributes {
                Ok(attributes) => prefix_step(
                    seq![element] + attributes,
                    members_spec(pool, data, next, ordinal + 1, count, methods),
                ),
                Err(e) => (Err(e), next),
            }
        }),
{
    lemma_reads_against_bytes(data, pos);
    lemma_reads_against_bytes(data, pos + 2);
    lemma_reads_against_bytes(data, pos + 4);
    lemma_reads_against_bytes(data, pos + 6);
}

/// A field or method table starts with its entry count, a big-endian 16-bit number;
/// the entries follow, numbered from 0.
pub proof fn lemma_member_table_against_bytes(
    pool: Seq<EntryView>,
    data: Seq<u8>,
    pos: nat,
    methods: bool,
)
    requires
        pos + 2 <= data.len(),
    ensures
        member_table_spec(pool, data, pos, methods) == prefix_step(
            seq![
                if methods {
                    ClassElement::MethodsCount(u16_at(data, pos as int) as u16)
                } else {
                    ClassElement::FieldsCount(u16_at(data, pos as int) as u16)
                },
            ],
            members_spec(pool, data, pos + 2, 0, u16_at(data, pos as int) as nat, methods),
        ),
{
    lemma_reads_against_bytes(data, pos);
}

/// An attribute starts with its name index (16 bits) and its length (32 bits), both
/// big-endian. An attribute named `Code` is decoded; any other has its `length` bytes
/// skipped.
pub proof fn lemma_attribute_against_bytes(pool: Seq<EntryView>, data: Seq<u8>, pos: nat)
    requires
        pos + 6 <= data.len(),
    ensures
        ({
            let name_index = u16_at(data, pos as int) as u16;
            let length = u32_at(data, pos + 2int) as u32;
            let head = seq![ClassElement::Attribute { name_index, length }];
            attribute_spec(pool, data, pos) == if names_code(pool, name_index) {
                prefix_step(head, code_attribute_spec(pool, data, pos + 6))
            } else if pos + 6 + length <= data.len() {
                (Ok(head), (pos + 6 + length) as nat)
            } else {
                (Err(eof_at(pos + 6)), pos + 6)
            }
        }),
{
    lemma_reads_against_bytes(data, pos);
    lemma_reads_against_bytes(data, pos + 2);
}

/// The sizes at the start of a `Code` attribute are the maximum stack depth and the
/// number of locals (16 bits each) and the code length (32 bits), big-endian, in that
/// order.
pub proof fn lemma_code_sizes_against_bytes(data: Seq<u8>, pos: nat)
    requires
        pos + 8 <= data.len(),
    ensures
        code_sizes_spec(data, pos) == (
            Ok::<(u16, u16, u32), ParseError>(
                (
                    u16_at(data, pos as int) as u16,
                    u16_at(data, pos + 2int) as u16,
                    u32_at(data, pos + 4int) as u32,
                ),
            ),
            pos + 8,
        ),
{
    lemma_reads_against_bytes(data, pos);
    lemma_reads_against_bytes(data, pos + 2);
    lemma_reads_against_bytes(data, pos + 4);
}

/// The elements of a `Code` attribute start with its sizes, in the order maximum
/// stack, maximum locals, code length, followed by one element per decoded
/// instruction, in order.
pub proof fn lemma_code_elements_order(
    max_stack: u16,
    max_locals: u16,
    code_length: u32,
    instructions: Seq<JvmInstruction>,
)
    ensures
        code_elements((max_stack, max_locals, code_length), instructions).len() == 1
            + instructions.len(),
        code_elements((max_stack, max_locals, code_length), instructions)[0] == (ClassElement::Code {
            max_stack,
            max_locals,
            code_length,
        }),
        forall|i: int|
            0 <= i < instructions.len() ==> code_elements(
                (max_stack, max_locals, code_length),
                instructions,
            )[1 + i] == ClassElement::Instruction(#[trigger] instructions[i]),
{
}

/// Skipping `count` 16-bit values reads exactly `2 * count` bytes when they are there.
pub proof fn lemma_skip_u16s_against_bytes(data: Seq<u8>, pos: nat, count: nat)
    requires
        pos + 2 * count <= data.len(),
    ensures
        skip_u16s_spec(data, pos, count) == (Ok::<(), ParseError>(()), pos + 2 * count),
    decreases count,
{
    if count > 0 {
        lemma_reads_against_bytes(data, pos);
        lemma_skip_u16s_against_bytes(data, pos + 2, (count - 1) as nat);
    }
}

/// After the code come the exception table length (16 bits), that many entries of
/// eight bytes, which are skipped, and the nested attribute count (16 bits).
pub proof fn lemma_code_tail_against_bytes(data: Seq<u8>, pos: nat)
    requires
        pos + 2 <= data.len(),
        pos + 4 + 8 * u16_at(data, pos as int) <= data.len(),
    ensures
        code_tail_spec(data, pos) == (
            Ok::<u16, ParseError>(
                u16_at(data, pos + 2 + 8 * u16_at(data, pos as int)) as u16,
            ),
            (pos + 4 + 8 * u16_at(data, pos as int)) as nat,
        ),
{
    lemma_reads_against_bytes(data, pos);
    let table = u16_at(data, pos as int) as nat;
    lemma_skip_u16s_against_bytes(data, pos + 2, 4 * table);
    lemma_reads_against_bytes(data, pos + 2 + 8 * table);
}

/// Whether a parsing function's result, and what it appended to the elements, agree
/// with the spec outcome `expected`. On failure the elements that were there stay in
/// front.
pub open spec fn appended(
    r: Result<(), ParseError>,
    before: Seq<ClassElement>,
    after: Seq<ClassElement>,
    expected: Result<Seq<ClassElement>, ParseError>,
) -> bool {
    match expected {
        Ok(elements) => r is Ok && after == before + elements,
        Err(e) => r == Err::<(), ParseError>(e) && before.is_prefix_of(after),
    }
}

/// Whether the pool names an attribute `Code` at `index`.
fn is_code_attribute(pool: &ConstantPool, index: u16) -> (b: bool)
    ensures
        b == names_code(pool.entries_view(), index),
{
    match pool.get(index) {
        Some(ConstantPoolEntry::Utf8(bytes)) => {
            let is_code = bytes.len() == 4 && bytes[0] == 0x43 && bytes[1] == 0x6f && bytes[2]
                == 0x64 && bytes[3] == 0x65;
            proof {
                if is_code {
                    assert(bytes@ =~= code_name());
                }
            }
            is_code
        },
        _ => false,
    }
}

proof fn lemma_prefix_step_assoc(
    first: Seq<ClassElement>,
    second: Seq<ClassElement>,
    step: Step<Seq<ClassElement>>,
)
    ensures
        prefix_step(first, prefix_step(second, step)) == prefix_step(first + second, step),
{
    if let Ok(rest) = step.0 {
        assert(first + (second + rest) =~= (first + second) + rest);
    }
}

proof fn lemma_prefix_of_trans(a: Seq<ClassElement>, b: Seq<ClassElement>, c: Seq<ClassElement>)
    requires
        a.is_prefix_of(b),
        b.is_prefix_of(c),
    ensures
        a.is_prefix_of(c),
{
    assert(c.take(a.len() as int) =~= b.take(a.len() as int));
}

proof fn lemma_prefix_of_append(a: Seq<ClassElement>, b: Seq<ClassElement>)
    ensures
        a.is_prefix_of(a + b),
{
    assert((a + b).take(a.len() as int) =~= a);
}

fn parse_attribute(
    reader: &mut ClassReader,
    pool: &ConstantPool,
    elements: &mut Vec<ClassElement>,
) -> (r: Result<(), ParseError>)
    ensures
        final(reader).data() == old(reader).data(),
        old(reader).pos() <= final(reader).pos() <= final(reader).data().len(),
        final(reader).pos() == attribute_spec(
            pool.entries_view(),
            old(reader).data(),
            old(reader).pos(),
        ).1,
        appended(
            r,
            old(elements)@,
            final(elements)@,
            attribute_spec(pool.entries_view(), old(reader).data(), old(reader).pos()).0,
        ),
    decreases old(reader).data().len() - old(reader).pos(), 0nat,
{
    proof {
        use_type_invariant(&*reader);
        lemma_prefix_of_append(elements@, seq![]);
        assert(elements@ + seq![] =~= elements@);
    }
    let ghost before = elements@;
    let name_index = reader.read_u16()?;
    let length = reader.read_u32()?;
    let ghost head = seq![ClassElement::Attribute { name_index, length }];
    elements.push(ClassElement::Attribute { name_index, length });
    proof {
        assert(elements@ =~= before + head);
        lemma_prefix_of_append(before, head);
    }
    if is_code_attribute(pool, name_index) {
        let ghost mid = elements@;
        let result = parse_code_attribute(reader, pool, elements);
        proof {
            let spec = code_attribute_spec(pool.entries_view(), reader.data(), (old(reader).pos() + 6) as nat);
            match spec.0 {
                Ok(rest) => {
                    assert(elements@ =~= before + (head + rest));
                },
                Err(_) => {
                    lemma_prefix_of_trans(before, mid, elements@);
                },
            }
        }
        result
    } else {
        reader.read_bytes(length as usize)?;
        Ok(())
    }
}

fn parse_code_attribute(
    reader: &mut ClassReader,
    pool: &ConstantPool,
    elements: &mut Vec<ClassElement>,
) -> (r: Result<(), ParseError>)
    ensures
        final(reader).data() == old(reader).data(),
        old(reader).pos() <= final(reader).pos() <= final(reader).data().len(),
        final(reader).pos() == code_attribute_spec(
            pool.entries_view(),
            old(reader).data(),
            old(reader).pos(),
        ).1,
        appended(
            r,
            old(elements)@,
            final(elements)@,
            code_attribute_spec(pool.entries_view(), old(reader).data(), old(reader).pos()).0,
        ),
    decreases old(reader).data().len() - old(reader).pos(), 0nat,
{
    proof {
        use_type_invariant(&*reader);
        lemma_prefix_of_append(elements@, seq![]);
        assert(elements@ + seq![] =~= elements@);
    }
    let ghost before = elements@;
    let max_stack = reader.read_u16()?;
    let max_locals = reader.read_u16()?;
    let code_length = reader.read_u32()?;
    let code = reader.read_bytes(code_length as usize)?;
    elements.push(ClassElement::Code { max_stack, max_locals, code_length });
    let ghost head0 = seq![ClassElement::Code { max_stack, max_locals, code_length }];
    proof {
        assert(code@.len() == code_length as nat);
        assert(elements@ =~= before + head0);
        lemma_prefix_of_append(before, head0);
    }
    let instructions = ClassParser::decode_instructions(code, code_length as usize)?;
    let ghost decoded = instructions.instructions@;
    let mut i: usize = 0;
    while i < instructions.instructions.len()
        invariant
            i <= decoded.len(),
            decoded == instructions.instructions@,
            elements@ == before + head0 + decoded.take(i as int).map_values(
                |x: JvmInstruction| ClassElement::Instruction(x),
            ),
        decreases decoded.len() - i,
    {
        let instruction = instructions.instructions[i];
        elements.push(ClassElement::Instruction(instruction));
        proof {
            assert(decoded.take(i + 1) =~= decoded.take(i as int).push(instruction));
            assert(decoded.take(i + 1).map_values(|x: JvmInstruction| ClassElement::Instruction(x))
                =~= decoded.take(i as int).map_values(|x: JvmInstruction| ClassElement::Instruction(x)).push(
                ClassElement::Instruction(instruction),
            ));
        }
        i = i + 1;
    }
    let ghost head = head0 + decoded.map_values(|x: JvmInstruction| ClassElement::Instruction(x));
    proof {
        assert(decoded.take(i as int) =~= decoded);
        assert(elements@ =~= before + head);
        lemma_prefix_of_append(before, head);
    }
    let table_length = reader.read_u16()?;
    skip_exception_table(reader, table_length)?;
    let attributes_count = reader.read_u16()?;
    let ghost mid = elements@;
    let ghost p7 = reader.pos();
    let result = parse_attributes(reader, pool, attributes_count, elements);
    proof {
        match attributes_spec(pool.entries_view(), reader.data(), p7, attributes_count as nat).0 {
            Ok(rest) => {
                assert(elements@ =~= before + (head + rest));
            },
            Err(_) => {
                lemma_prefix_of_trans(before, mid, elements@);
            },
        }
    }
    result
}

/// Reads and drops the entries of an exception table, four 16-bit values each.
fn skip_exception_table(reader: &mut ClassReader, table_length: u16) -> (r: Result<(), ParseError>)
    ensures
        final(reader).data() == old(reader).data(),
        old(reader).pos() <= final(reader).pos() <= final(reader).data().len(),
        (r, final(reader).pos()) == skip_u16s_spec(
            old(reader).data(),
            old(reader).pos(),
            4 * table_length as nat,
        ),
{
    proof {
        use_type_invariant(&*reader);
    }
    let ghost data = reader.data();
    let ghost start = reader.pos();
    let mut i: u32 = 0;
    let total: u32 = 4 * table_length as u32;
    while i < total
        invariant
            i <= total,
            total == 4 * table_length as nat,
            reader.data() == data,
            data == old(reader).data(),
            start == old(reader).pos(),
            start <= reader.pos() <= data.len(),
            skip_u16s_spec(data, reader.pos(), (total - i) as nat) == skip_u16s_spec(
                data,
                start,
                total as nat,
            ),
        decreases total - i,
    {
        reader.read_u16()?;
        i = i + 1;
    }
    Ok(())
}

/// Reads `count` attributes one after another.
fn parse_attributes(
    reader: &mut ClassReader,
    pool: &ConstantPool,
    count: u16,
    elements: &mut Vec<ClassElement>,
) -> (r: Result<(), ParseError>)
    ensures
        final(reader).data() == old(reader).data(),
        old(reader).pos() <= final(reader).pos() <= final(reader).data().len(),
        final(reader).pos() == attributes_spec(
            pool.entries_view(),
            old(reader).data(),
            old(reader).pos(),
            count as nat,
        ).1,
        appended(
            r,
            old(elements)@,
            final(elements)@,
            attributes_spec(pool.entries_view(), old(reader).data(), old(reader).pos(), count as nat).0,
        ),
    decreases old(reader).data().len() - old(reader).pos(), 1nat,
{
    proof {
        use_type_invariant(&*reader);
    }
    let ghost data = reader.data();
    let ghost start = reader.pos();
    let ghost base = elements@;
    let ghost mut done: Seq<ClassElement> = seq![];
    proof {
        assert(base + done =~= base);
        assert(prefix_step(done, attributes_spec(pool.entries_view(), data, start, count as nat)) == attributes_spec(pool.entries_view(), data, start, count as nat)) by {
            let s = attributes_spec(pool.entries_view(), data, start, count as nat);
            if let Ok(rest) = s.0 {
                assert(done + rest =~= rest);
            }
        }
    }
    let mut i: u16 = 0;
    while i < count
        invariant
            i <= count,
            reader.data() == data,
            data == old(reader).data(),
            start == old(reader).pos(),
            start <= reader.pos() <= data.len(),
            base == old(elements)@,
            elements@ == base + done,
            prefix_step(done, attributes_spec(pool.entries_view(), data, reader.pos(), (count - i) as nat))
                == attributes_spec(pool.entries_view(), data, start, count as nat),
        decreases count - i,
    {
        let ghost here = reader.pos();
        let ghost so_far = elements@;
        let result = parse_attribute(reader, pool, elements);
        match result {
            Err(e) => {
                proof {
                    lemma_prefix_of_append(base, done);
                    lemma_prefix_of_trans(base, so_far, elements@);
                }
                return Err(e);
            },
            Ok(()) => {},
        }
        proof {
            let first = attribute_spec(pool.entries_view(), data, here).0->Ok_0;
            lemma_prefix_step_assoc(done, first, attributes_spec(pool.entries_view(), data, reader.pos(), (count - i - 1) as nat));
            done = done + first;
            assert(elements@ =~= base + done);
        }
        i = i + 1;
    }
    proof {
        lemma_prefix_of_append(base, done);
    }
    Ok(())
}

/// The constant pool and version of a class file, and what follows them.
pub struct ClassParser<'a> {
    pub version: ClassFileVersion,
    pub constant_pool: ConstantPool<'a>,
    pub elements: Vec<ClassElement>,
}

/// Reads the interface table entries, one class index each.
fn parse_interfaces(reader: &mut ClassReader, count: u16, elements: &mut Vec<ClassElement>) -> (r:
    Result<(), ParseError>)
    ensures
        final(reader).data() == old(reader).data(),
        old(reader).pos() <= final(reader).pos() <= final(reader).data().len(),
        final(reader).pos() == interfaces_spec(old(reader).data(), old(reader).pos(), 0, count as nat).1,
        appended(
            r,
            old(elements)@,
            final(elements)@,
            interfaces_spec(old(reader).data(), old(reader).pos(), 0, count as nat).0,
        ),
{
    proof {
        use_type_invariant(&*reader);
    }
    let ghost data = reader.data();
    let ghost start = reader.pos();
    let ghost base = elements@;
    let ghost mut done: Seq<ClassElement> = seq![];
    proof {
        assert(base + done =~= base);
        let s = interfaces_spec(data, start, 0, count as nat);
        if let Ok(rest) = s.0 {
            assert(done + rest =~= rest);
        }
    }
    let mut interface_index: u16 = 0;
    while interface_index < count
        invariant
            interface_index <= count,
            reader.data() == data,
            data == old(reader).data(),
            start == old(reader).pos(),
            start <= reader.pos() <= data.len(),
            base == old(elements)@,
            elements@ == base + done,
            prefix_step(done, interfaces_spec(data, reader.pos(), interface_index as nat, count as nat))
                == interfaces_spec(data, start, 0, count as nat),
        decreases count - interface_index,
    {
        let ghost here = reader.pos();
        let class_index = match reader.read_u16() {
            Ok(class_index) => class_index,
            Err(e) => {
                proof {
                    lemma_prefix_of_append(base, done);
                }
                return Err(e);
            },
        };
        let element = ClassElement::Interface { ordinal: interface_index, class_index };
        elements.push(element);
        proof {
            lemma_prefix_step_assoc(
                done,
                seq![element],
                interfaces_spec(data, reader.pos(), (interface_index + 1) as nat, count as nat),
            );
            done = done + seq![element];
            assert(elements@ =~= base + done);
        }
        interface_index = interface_index + 1;
    }
    proof {
        lemma_prefix_of_append(base, done);
        assert(done + seq![] =~= done);
    }
    Ok(())
}

/// Reads a field table, or with `methods` a method table: the count, then each entry
/// with its attributes.
fn parse_members(
    reader: &mut ClassReader,
    pool: &ConstantPool,
    methods: bool,
    elements: &mut Vec<ClassElement>,
) -> (r: Result<(), ParseError>)
    ensures
        final(reader).data() == old(reader).data(),
        old(reader).pos() <= final(reader).pos() <= final(reader).data().len(),
        final(reader).pos() == member_table_spec(
            pool.entries_view(),
            old(reader).data(),
            old(reader).pos(),
            methods,
        ).1,
        appended(
            r,
            old(elements)@,
            final(elements)@,
            member_table_spec(pool.entries_view(), old(reader).data(), old(reader).pos(), methods).0,
        ),
{
    proof {
        use_type_invariant(&*reader);
        lemma_prefix_of_append(elements@, seq![]);
        assert(elements@ + seq![] =~= elements@);
    }
    let ghost data = reader.data();
    let ghost base = elements@;
    let count = reader.read_u16()?;
    let ghost start = reader.pos();
    let head = if methods {
        ClassElement::MethodsCount(count)
    } else {
        ClassElement::FieldsCount(count)
    };
    elements.push(head);
    let ghost mut done: Seq<ClassElement> = seq![head];
    let ghost cp = pool.entries_view();
    proof {
        assert(elements@ =~= base + done);
    }
    let mut member_index: u16 = 0;
    while member_index < count
        invariant
            member_index <= count,
            reader.data() == data,
            data == old(reader).data(),
            cp == pool.entries_view(),
            start <= reader.pos() <= data.len(),
            old(reader).pos() <= start,
            base == old(elements)@,
            elements@ == base + done,
            prefix_step(done, members_spec(cp, data, reader.pos(), member_index as nat, count as nat, methods))
                == member_table_spec(cp, data, old(reader).pos(), methods),
        decreases count - member_index,
    {
        let ghost here = reader.pos();
        let ghost so_far = elements@;
        let access_flags = match reader.read_u16() {
            Ok(v) => v,
            Err(e) => {
                proof {
                    lemma_prefix_of_append(base, done);
                }
                return Err(e);
            },
        };
        let name_index = match reader.read_u16() {
            Ok(v) => v,
            Err(e) => {
                proof {
                    lemma_prefix_of_append(base, done);
                }
                return Err(e);
            },
        };
        let descriptor_index = match reader.read_u16() {
            Ok(v) => v,
            Err(e) => {
                proof {
                    lemma_prefix_of_append(base, done);
                }
                return Err(e);
            },
        };
        let attributes_count = match reader.read_u16() {
            Ok(v) => v,
            Err(e) => {
                proof {
                    lemma_prefix_of_append(base, done);
                }
                return Err(e);
            },
        };
        let info = MemberInfo {
            ordinal: member_index,
            access_flags,
            name_index,
            descriptor_index,
            attributes_count,
        };
        let element = if methods {
            ClassElement::Method(info)
        } else {
            ClassElement::Field(info)
        };
        elements.push(element);
        let ghost mid = elements@;
        let ghost p1 = reader.pos();
        proof {
            lemma_prefix_of_append(base, done);
            lemma_prefix_of_append(base + done, seq![element]);
        }
        let result = parse_attributes(reader, pool, attributes_count, elements);
        match result {
            Err(e) => {
                proof {
                    lemma_prefix_of_trans(base, mid, elements@);
                    assert(mid =~= base + done + seq![element]);
                }
                return Err(e);
            },
            Ok(()) => {},
        }
        proof {
            let attrs = attributes_spec(cp, data, p1, attributes_count as nat).0->Ok_0;
            lemma_prefix_step_assoc(
                done,
                seq![element] + attrs,
                members_spec(cp, data, reader.pos(), (member_index + 1) as nat, count as nat, methods),
            );
            done = done + (seq![element] + attrs);
            assert(elements@ =~= base + done);
        }
        member_index = member_index + 1;
    }
    proof {
        lemma_prefix_of_append(base, done);
        assert(done + seq![] =~= done);
    }
    Ok(())
}

/// Reads the access flags, this class, the super class and the interface table.
fn parse_class_header(reader: &mut ClassReader, elements: &mut Vec<ClassElement>) -> (r: Result<
    (),
    ParseError,
>)
    ensures
        final(reader).data() == old(reader).data(),
        old(reader).pos() <= final(reader).pos() <= final(reader).data().len(),
        final(reader).pos() == class_header_spec(old(reader).data(), old(reader).pos()).1,
        appended(
            r,
            old(elements)@,
            final(elements)@,
            class_header_spec(old(reader).data(), old(reader).pos()).0,
        ),
{
    proof {
        use_type_invariant(&*reader);
        lemma_prefix_of_append(elements@, seq![]);
        assert(elements@ + seq![] =~= elements@);
    }
    let ghost base = elements@;
    let access_flags = reader.read_u16()?;
    elements.push(ClassElement::AccessFlags(access_flags));
    proof {
        let h = seq![ClassElement::AccessFlags(access_flags)];
        assert(elements@ =~= base + h);
        lemma_prefix_of_append(base, h);
    }
    let this_class = reader.read_u16()?;
    elements.push(ClassElement::ThisClass(this_class));
    proof {
        let h = seq![ClassElement::AccessFlags(access_flags), ClassElement::ThisClass(this_class)];
        assert(elements@ =~= base + h);
        lemma_prefix_of_append(base, h);
    }
    let super_class = reader.read_u16()?;
    elements.push(ClassElement::SuperClass(super_class));
    proof {
        let h = seq![
            ClassElement::AccessFlags(access_flags),
            ClassElement::ThisClass(this_class),
            ClassElement::SuperClass(super_class),
        ];
        assert(elements@ =~= base + h);
        lemma_prefix_of_append(base, h);
    }
    let interface_count = reader.read_u16()?;
    elements.push(ClassElement::InterfacesCount(interface_count));
    let ghost head = seq![
        ClassElement::AccessFlags(access_flags),
        ClassElement::ThisClass(this_class),
        ClassElement::SuperClass(super_class),
        ClassElement::InterfacesCount(interface_count),
    ];
    let ghost s1 = elements@;
    let ghost p1 = reader.pos();
    proof {
        assert(s1 =~= base + head);
        lemma_prefix_of_append(base, head);
    }
    let interfaces = parse_interfaces(reader, interface_count, elements);
    proof {
        lemma_prefix_of_trans(base, s1, elements@);
        if let Ok(rest) = interfaces_spec(reader.data(), p1, 0, interface_count as nat).0 {
            assert(elements@ =~= base + (head + rest));
        }
    }
    interfaces
}

/// Reads the class attributes: their count, then the attributes.
fn parse_class_attributes(
    reader: &mut ClassReader,
    pool: &ConstantPool,
    elements: &mut Vec<ClassElement>,
) -> (r: Result<(), ParseError>)
    ensures
        final(reader).data() == old(reader).data(),
        old(reader).pos() <= final(reader).pos() <= final(reader).data().len(),
        final(reader).pos() == class_attributes_spec(
            pool.entries_view(),
            old(reader).data(),
            old(reader).pos(),
        ).1,
        appended(
            r,
            old(elements)@,
            final(elements)@,
            class_attributes_spec(pool.entries_view(), old(reader).data(), old(reader).pos()).0,
        ),
{
    proof {
        use_type_invariant(&*reader);
        lemma_prefix_of_append(elements@, seq![]);
        assert(elements@ + seq![] =~= elements@);
    }
    let ghost base = elements@;
    let attributes_count = reader.read_u16()?;
    let ghost head = seq![ClassElement::ClassAttributesCount(attributes_count)];
    elements.push(ClassElement::ClassAttributesCount(attributes_count));
    let ghost s1 = elements@;
    let ghost p1 = reader.pos();
    proof {
        assert(s1 =~= base + head);
        lemma_prefix_of_append(base, head);
    }
    let attributes = parse_attributes(reader, pool, attributes_count, elements);
    proof {
        lemma_prefix_of_trans(base, s1, elements@);
        if let Ok(rest) = attributes_spec(pool.entries_view(), reader.data(), p1, attributes_count as nat).0 {
            assert(elements@ =~= base + (head + rest));
        }
    }
    attributes
}

/// Reads everything after the constant pool, appending what it meets to `elements`.
/// When the class file turns out malformed, the elements met before the failure are
/// kept.
pub fn parse_class_body(
    reader: &mut ClassReader,
    pool: &ConstantPool,
    elements: &mut Vec<ClassElement>,
) -> (r: Result<(), ParseError>)
    ensures
        final(reader).data() == old(reader).data(),
        old(reader).pos() <= final(reader).pos() <= final(reader).data().len(),
        final(reader).pos() == class_body_spec(pool.entries_view(), old(reader).data(), old(reader).pos()).1,
        appended(
            r,
            old(elements)@,
            final(elements)@,
            class_body_spec(pool.entries_view(), old(reader).data(), old(reader).pos()).0,
        ),
{
    let ghost base = elements@;
    let ghost data = reader.data();
    let ghost cp = pool.entries_view();
    let ghost p0 = reader.pos();
    let header = parse_class_header(reader, elements);
    let ghost s1 = elements@;
    let ghost p1 = reader.pos();
    match header {
        Err(e) => {
            return Err(e);
        },
        Ok(()) => {},
    }
    let ghost h = class_header_spec(data, p0).0->Ok_0;
    proof {
        lemma_prefix_of_append(base, h);
    }
    let fields = parse_members(reader, pool, false, elements);
    let ghost s2 = elements@;
    let ghost p2 = reader.pos();
    match fields {
        Err(e) => {
            proof {
                lemma_prefix_of_trans(base, s1, s2);
            }
            return Err(e);
        },
        Ok(()) => {},
    }
    let ghost f = member_table_spec(cp, data, p1, false).0->Ok_0;
    proof {
        assert(s2 =~= base + (h + f));
        lemma_prefix_of_append(base, h + f);
    }
    let methods = parse_members(reader, pool, true, elements);
    let ghost s3 = elements@;
    let ghost p3 = reader.pos();
    match methods {
        Err(e) => {
            proof {
                lemma_prefix_of_trans(base, s2, s3);
            }
            return Err(e);
        },
        Ok(()) => {},
    }
    let ghost m = member_table_spec(cp, data, p2, true).0->Ok_0;
    proof {
        assert(s3 =~= base + (h + f + m));
        lemma_prefix_of_append(base, h + f + m);
    }
    let attributes = parse_class_attributes(reader, pool, elements);
    proof {
        lemma_prefix_of_trans(base, s3, elements@);
        if let Ok(a) = class_attributes_spec(cp, data, p3).0 {
            assert(elements@ =~= base + (h + f + m + a));
        }
    }
    attributes
}

impl<'a> ClassParser<'a> {
    /// Reads a whole class file: its version, which must have a compact form, its
    /// constant pool, and the rest as elements in the order of the file.
    pub fn try_parse(class_reader: &mut ClassReader<'a>) -> (r: Result<Self, ParseError>)
        ensures
            final(class_reader).data() == old(class_reader).data(),
            final(class_reader).pos() == class_spec(old(class_reader).data(), old(class_reader).pos()).1,
            match class_spec(old(class_reader).data(), old(class_reader).pos()).0 {
                Ok(class) => r matches Ok(parsed) && parsed.version.bits() == class.version_bits
                    && parsed.constant_pool.slot_count() == class.pool_count
                    && parsed.constant_pool.entries_view() == class.pool_entries
                    && parsed.elements@ == class.elements,
                Err(e) => r matches Err(found) && found == e,
            },
    {
        let raw = RawClassFileVersion::parse(class_reader)?;
        let version = match ClassFileVersion::try_from(raw) {
            Ok(version) => version,
            Err(e) => {
                return Err(ParseError::InvalidVersion(e));
            },
        };
        let constant_pool = ConstantPool::try_from(&mut *class_reader)?;
        let mut elements: Vec<ClassElement> = Vec::new();
        let body = parse_class_body(class_reader, &constant_pool, &mut elements);
        proof {
            if body is Ok {
                assert(seq![] + elements@ =~= elements@);
            }
        }
        body?;
        Ok(ClassParser { version, constant_pool, elements })
    }

    /// Reads a whole class file that is known to be well formed.
    pub fn parse(class_reader: &mut ClassReader<'a>) -> (parsed: Self)
        requires
            class_spec(old(class_reader).data(), old(class_reader).pos()).0 is Ok,
        ensures
            final(class_reader).data() == old(class_reader).data(),
            final(class_reader).pos() == class_spec(old(class_reader).data(), old(class_reader).pos()).1,
            ({
                let class = class_spec(old(class_reader).data(), old(class_reader).pos()).0->Ok_0;
                &&& parsed.version.bits() == class.version_bits
                &&& parsed.constant_pool.slot_count() == class.pool_count
                &&& parsed.constant_pool.entries_view() == class.pool_entries
                &&& parsed.elements@ == class.elements
            }),
    {
        Self::try_parse(class_reader).unwrap()
    }
    /// Decodes the instructions of a method body, which fills `code_length` bytes.
    fn decode_instructions(code: &[u8], code_length: usize) -> (r: Result<InstructionSet, ParseError>)
        ensures
            match instructions_spec(code@, 0, code_length as nat, seq![]).0 {
                Ok(instructions) => r matches Ok(set) && set.instructions@ == instructions,
                Err(e) => r matches Err(found) && found == e,
            },
    {
        let mut reader = ClassReader::new(code);
        InstructionSet::decode(&mut reader, code_length)
    }
}

} // verus!
