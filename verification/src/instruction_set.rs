use vstd::prelude::*;

use crate::class_reader::{
    eof_at, lemma_reads_against_bytes, read_u16_spec, read_u8_spec, u16_at, ClassReader,
    ParseError, Step,
};
use crate::instructions::JvmInstruction;

verus! {

/// An instruction whose operand is one 16-bit constant pool index.
pub open spec fn indexed_spec(data: Seq<u8>, pos: nat, make: spec_fn(u16) -> JvmInstruction) -> Step<
    JvmInstruction,
> {
    let (index, p1) = read_u16_spec(data, pos);
    match index {
        Err(e) => (Err(e), p1),
        Ok(index) => (Ok(make(index)), p1),
    }
}

/// Decoding the operands of an instruction whose opcode was just read; the operands
/// start at `pos`. Opcodes outside the supported set are rejected.
pub open spec fn opcode_spec(opcode: u8, data: Seq<u8>, pos: nat) -> Step<JvmInstruction> {
    match opcode {
        0x15u8 => {
            let (slot, p1) = read_u8_spec(data, pos);
            match slot {
                Err(e) => (Err(e), p1),
                Ok(slot) => (Ok(JvmInstruction::ILoad(slot as u16)), p1),
            }
        },
        0x1au8 => (Ok(JvmInstruction::ILoad(0)), pos),
        0x1bu8 => (Ok(JvmInstruction::ILoad(1)), pos),
        0x1cu8 => (Ok(JvmInstruction::ILoad(2)), pos),
        0x1du8 => (Ok(JvmInstruction::ILoad(3)), pos),
        0x02u8 => (Ok(JvmInstruction::IConst(-1i16)), pos),
        0x03u8 => (Ok(JvmInstruction::IConst(0)), pos),
        0x04u8 => (Ok(JvmInstruction::IConst(1)), pos),
        0x05u8 => (Ok(JvmInstruction::IConst(2)), pos),
        0x06u8 => (Ok(JvmInstruction::IConst(3)), pos),
        0x07u8 => (Ok(JvmInstruction::IConst(4)), pos),
        0x08u8 => (Ok(JvmInstruction::IConst(5)), pos),
        0x3bu8 => (Ok(JvmInstruction::IStore(0)), pos),
        0x3cu8 => (Ok(JvmInstruction::IStore(1)), pos),
        0x3du8 => (Ok(JvmInstruction::IStore(2)), pos),
        0x3eu8 => (Ok(JvmInstruction::IStore(3)), pos),
        0xb2u8 => indexed_spec(data, pos, |i: u16| JvmInstruction::GetStatic(i)),
        0xb6u8 => indexed_spec(data, pos, |i: u16| JvmInstruction::InvokeStatic(i)),
        0xb8u8 => indexed_spec(data, pos, |i: u16| JvmInstruction::InvokeVirtual(i)),
        0x60u8 => (Ok(JvmInstruction::IAdd), pos),
        0xacu8 => (Ok(JvmInstruction::IReturn), pos),
        0xb1u8 => (Ok(JvmInstruction::Return), pos),
        0xb7u8 => indexed_spec(data, pos, |i: u16| JvmInstruction::InvokeSpecial { index: i }),
        _ => (Err(ParseError::InvalidOpcode { opcode }), pos),
    }
}

/// Decoding one instruction at `pos`: its opcode byte, then its operands.
pub open spec fn instruction_spec(data: Seq<u8>, pos: nat) -> Step<JvmInstruction> {
    let (opcode, p1) = read_u8_spec(data, pos);
    match opcode {
        Err(e) => (Err(e), p1),
        Ok(opcode) => opcode_spec(opcode, data, p1),
    }
}

/// Whether an opcode is one of those decoded.
pub open spec fn is_supported_opcode(opcode: u8) -> bool {
    ||| 0x02 <= opcode <= 0x08
    ||| 0x1a <= opcode <= 0x1d
    ||| 0x3b <= opcode <= 0x3e
    ||| opcode == 0x15 || opcode == 0x60 || opcode == 0xac || opcode == 0xb1
    ||| opcode == 0xb2 || opcode == 0xb6 || opcode == 0xb7 || opcode == 0xb8
}

/// The meaning of each decoded opcode, stated against the bytes after it: `iload_<n>`
/// (0x1a + n), `istore_<n>` (0x3b + n) and `iconst_<n>` (0x03 + n) carry their number
/// in the opcode and read nothing more, `iconst_m1` (0x02) pushes -1; `iload` (0x15)
/// reads a one-byte slot; the field and invoke opcodes read a big-endian 16-bit
/// constant pool index; `iadd`, `ireturn` and `return` read nothing. Every other
/// opcode is rejected without reading.
pub proof fn lemma_opcode_meanings(data: Seq<u8>, pos: nat, n: u8)
    ensures
        n < 4 ==> opcode_spec((0x1a + n) as u8, data, pos) == (
            Ok::<JvmInstruction, ParseError>(JvmInstruction::ILoad(n as u16)),
            pos,
        ),
        n < 4 ==> opcode_spec((0x3b + n) as u8, data, pos) == (
            Ok::<JvmInstruction, ParseError>(JvmInstruction::IStore(n as u16)),
            pos,
        ),
        n < 6 ==> opcode_spec((0x03 + n) as u8, data, pos) == (
            Ok::<JvmInstruction, ParseError>(JvmInstruction::IConst(n as i16)),
            pos,
        ),
        opcode_spec(0x02, data, pos) == (
            Ok::<JvmInstruction, ParseError>(JvmInstruction::IConst(-1i16)),
            pos,
        ),
        opcode_spec(0x60, data, pos) == (Ok::<JvmInstruction, ParseError>(JvmInstruction::IAdd), pos),
        opcode_spec(0xac, data, pos) == (
            Ok::<JvmInstruction, ParseError>(JvmInstruction::IReturn),
            pos,
        ),
        opcode_spec(0xb1, data, pos) == (Ok::<JvmInstruction, ParseError>(JvmInstruction::Return), pos),
        opcode_spec(0x15, data, pos) == if pos + 1 <= data.len() {
            (
                Ok::<JvmInstruction, ParseError>(JvmInstruction::ILoad(data[pos as int] as u16)),
                pos + 1,
            )
        } else {
            (Err::<JvmInstruction, ParseError>(eof_at(pos)), pos)
        },
        pos + 2 <= data.len() ==> opcode_spec(0xb2, data, pos) == (
            Ok::<JvmInstruction, ParseError>(
                JvmInstruction::GetStatic(u16_at(data, pos as int) as u16),
            ),
            pos + 2,
        ),
        pos + 2 <= data.len() ==> opcode_spec(0xb6, data, pos) == (
            Ok::<JvmInstruction, ParseError>(
                JvmInstruction::InvokeStatic(u16_at(data, pos as int) as u16),
            ),
            pos + 2,
        ),
        pos + 2 <= data.len() ==> opcode_spec(0xb8, data, pos) == (
            Ok::<JvmInstruction, ParseError>(
                JvmInstruction::InvokeVirtual(u16_at(data, pos as int) as u16),
            ),
            pos + 2,
        ),
        pos + 2 <= data.len() ==> opcode_spec(0xb7, data, pos) == (
            Ok::<JvmInstruction, ParseError>(
                JvmInstruction::InvokeSpecial { index: u16_at(data, pos as int) as u16 },
            ),
            pos + 2,
        ),
        pos + 2 > data.len() && (n == 0xb2 || n == 0xb6 || n == 0xb7 || n == 0xb8) ==> opcode_spec(
            n,
            data,
            pos,
        ) == (Err::<JvmInstruction, ParseError>(eof_at(pos)), pos),
        !is_supported_opcode(n) ==> opcode_spec(n, data, pos) == (
            Err::<JvmInstruction, ParseError>(ParseError::InvalidOpcode { opcode: n }),
            pos,
        ),
{
    lemma_reads_against_bytes(data, pos);
    if n < 6 {
        if n == 0 {
        } else if n == 1 {
        } else if n == 2 {
        } else if n == 3 {
        } else if n == 4 {
        } else {
        }
    }
}

/// Decoding one instruction reads its opcode byte, then what that opcode's meaning
/// asks for (see `lemma_opcode_meanings`).
pub proof fn lemma_instruction_reads_opcode_first(data: Seq<u8>, pos: nat)
    ensures
        pos < data.len() ==> instruction_spec(data, pos) == opcode_spec(data[pos as int], data, pos + 1),
        pos >= data.len() ==> instruction_spec(data, pos) == (
            Err::<JvmInstruction, ParseError>(eof_at(pos)),
            pos,
        ),
{
    lemma_reads_against_bytes(data, pos);
}

/// Decoding instructions one after another while the position is below
/// `code_length`, after the ones in `acc`. Every decoded instruction moves the
/// position forward; the test of that in the definition only makes the recursion
/// visibly finite and never fails (see `lemma_instruction_advances`).
pub open spec fn instructions_spec(
    data: Seq<u8>,
    pos: nat,
    code_length: nat,
    acc: Seq<JvmInstruction>,
) -> Step<Seq<JvmInstruction>>
    decreases data.len() - pos,
{
    if pos < code_length {
        let (instruction, p1) = instruction_spec(data, pos);
        match instruction {
            Err(e) => (Err(e), p1),
            Ok(instruction) => if pos < p1 <= data.len() {
                instructions_spec(data, p1, code_length, acc.push(instruction))
            } else {
                (Ok(acc.push(instruction)), p1)
            },
        }
    } else {
        (Ok(acc), pos)
    }
}

/// A decoded instruction ends after its opcode byte and within the input.
pub proof fn lemma_instruction_advances(data: Seq<u8>, pos: nat)
    ensures
        instruction_spec(data, pos).0 is Ok ==> pos < instruction_spec(data, pos).1 <= data.len(),
{
}

/// Decoding instructions moves forward and stays within the input; when it starts
/// below `code_length` and succeeds it reaches `code_length`. So decoding a whole
/// method body (`code_length` its length) from its start consumes it exactly.
pub proof fn lemma_instructions_reach_end(
    data: Seq<u8>,
    pos: nat,
    code_length: nat,
    acc: Seq<JvmInstruction>,
)
    requires
        pos <= data.len(),
    ensures
        instructions_spec(data, pos, code_length, acc).0 is Ok ==> {
            let end = instructions_spec(data, pos, code_length, acc).1;
            &&& pos <= end <= data.len()
            &&& pos < code_length ==> code_length <= end
        },
        code_length == data.len() && pos == 0 && instructions_spec(data, pos, code_length, acc).0 is Ok
            ==> instructions_spec(data, pos, code_length, acc).1 == data.len(),
        pos >= code_length ==> instructions_spec(data, pos, code_length, acc) == (
            Ok::<Seq<JvmInstruction>, ParseError>(acc),
            pos,
        ),
        pos < code_length ==> instructions_spec(data, pos, code_length, acc) == match instruction_spec(
            data,
            pos,
        ) {
            (Ok(instruction), next) => instructions_spec(data, next, code_length, acc.push(instruction)),
            (Err(e), next) => (Err(e), next),
        },
    decreases data.len() - pos,
{
    lemma_instruction_advances(data, pos);
    if pos < code_length {
        let (instruction, p1) = instruction_spec(data, pos);
        lemma_instruction_advances(data, pos);
        if let Ok(instruction) = instruction {
            lemma_instructions_reach_end(data, p1, code_length, acc.push(instruction));
        }
    }
}

/// The instructions of a method body.
pub struct InstructionSet {
    pub instructions: Vec<JvmInstruction>,
}

impl InstructionSet {
    /// Decodes instructions until the reader's offset reaches `code_length`.
    pub fn decode(class_reader: &mut ClassReader, code_length: usize) -> (r: Result<Self, ParseError>)
        ensures
            final(class_reader).data() == old(class_reader).data(),
            old(class_reader).pos() <= final(class_reader).pos() <= final(class_reader).data().len(),
            final(class_reader).pos() == instructions_spec(
                old(class_reader).data(),
                old(class_reader).pos(),
                code_length as nat,
                seq![],
            ).1,
            match instructions_spec(
                old(class_reader).data(),
                old(class_reader).pos(),
                code_length as nat,
                seq![],
            ).0 {
                Ok(instructions) => r matches Ok(set) && set.instructions@ == instructions,
                Err(e) => r matches Err(found) && found == e,
            },
    {
        proof {
            use_type_invariant(&*class_reader);
        }
        let ghost data = class_reader.data();
        let ghost start = class_reader.pos();
        let mut instructions: Vec<JvmInstruction> = Vec::new();
        while class_reader.offset() < code_length
            invariant
                class_reader.data() == data,
                data == old(class_reader).data(),
                start == old(class_reader).pos(),
                start <= class_reader.pos() <= data.len(),
                instructions_spec(data, class_reader.pos(), code_length as nat, instructions@)
                    == instructions_spec(data, start, code_length as nat, seq![]),
            decreases data.len() - class_reader.pos(),
        {
            let instruction = Self::decode_instruction(class_reader)?;
            instructions.push(instruction);
        }
        Ok(InstructionSet { instructions })
    }

    fn decode_instruction(class_reader: &mut ClassReader) -> (r: Result<JvmInstruction, ParseError>)
        ensures
            final(class_reader).data() == old(class_reader).data(),
            old(class_reader).pos() <= final(class_reader).pos() <= final(class_reader).data().len(),
            (r, final(class_reader).pos()) == instruction_spec(
                old(class_reader).data(),
                old(class_reader).pos(),
            ),
    {
        let opcode = class_reader.read_u8()?;
        Self::decode_opcode(opcode, class_reader)
    }

    fn decode_opcode(opcode: u8, class_reader: &mut ClassReader) -> (r: Result<
        JvmInstruction,
        ParseError,
    >)
        ensures
            final(class_reader).data() == old(class_reader).data(),
            old(class_reader).pos() <= final(class_reader).pos() <= final(class_reader).data().len(),
            (r, final(class_reader).pos()) == opcode_spec(
                opcode,
                old(class_reader).data(),
                old(class_reader).pos(),
            ),
    {
        proof {
            use_type_invariant(&*class_reader);
        }
        let instruction = match opcode {
            // ILOAD
            0x15 => JvmInstruction::ILoad(class_reader.read_u8()? as u16),
            // ILOAD_0 .. ILOAD_3
            0x1a => JvmInstruction::ILoad(0),
            0x1b => JvmInstruction::ILoad(1),
            0x1c => JvmInstruction::ILoad(2),
            0x1d => JvmInstruction::ILoad(3),
            // ICONST_M1 .. ICONST_5
            0x02 => JvmInstruction::IConst(-1),
            0x03 => JvmInstruction::IConst(0),
            0x04 => JvmInstruction::IConst(1),
            0x05 => JvmInstruction::IConst(2),
            0x06 => JvmInstruction::IConst(3),
            0x07 => JvmInstruction::IConst(4),
            0x08 => JvmInstruction::IConst(5),
            // ISTORE_0 .. ISTORE_3
            0x3b => JvmInstruction::IStore(0),
            0x3c => JvmInstruction::IStore(1),
            0x3d => JvmInstruction::IStore(2),
            0x3e => JvmInstruction::IStore(3),
            0xb2 => Self::decode_get_static(class_reader)?,
            0xb6 => Self::decode_invoke_static(class_reader)?,
            0xb8 => Self::decode_invoke_virtual(class_reader)?,
            0x60 => JvmInstruction::IAdd,
            0xac => JvmInstruction::IReturn,
            0xb1 => JvmInstruction::Return,
            0xb7 => {
                let index = class_reader.read_u16()?;
                JvmInstruction::InvokeSpecial { index }
            },
            opcode => {
                return Err(ParseError::InvalidOpcode { opcode });
            },
        };
        Ok(instruction)
    }

    fn decode_invoke_virtual(class_reader: &mut ClassReader) -> (r: Result<JvmInstruction, ParseError>)
        ensures
            final(class_reader).data() == old(class_reader).data(),
            old(class_reader).pos() <= final(class_reader).pos() <= final(class_reader).data().len(),
            (r, final(class_reader).pos()) == indexed_spec(
                old(class_reader).data(),
                old(class_reader).pos(),
                |i: u16| JvmInstruction::InvokeVirtual(i),
            ),
    {
        let index = class_reader.read_u16()?;
        Ok(JvmInstruction::InvokeVirtual(index))
    }

    fn decode_invoke_static(class_reader: &mut ClassReader) -> (r: Result<JvmInstruction, ParseError>)
        ensures
            final(class_reader).data() == old(class_reader).data(),
            old(class_reader).pos() <= final(class_reader).pos() <= final(class_reader).data().len(),
            (r, final(class_reader).pos()) == indexed_spec(
                old(class_reader).data(),
                old(class_reader).pos(),
                |i: u16| JvmInstruction::InvokeStatic(i),
            ),
    {
        let index = class_reader.read_u16()?;
        Ok(JvmInstruction::InvokeStatic(index))
    }

    fn decode_get_static(class_reader: &mut ClassReader) -> (r: Result<JvmInstruction, ParseError>)
        ensures
            final(class_reader).data() == old(class_reader).data(),
            old(class_reader).pos() <= final(class_reader).pos() <= final(class_reader).data().len(),
            (r, final(class_reader).pos()) == indexed_spec(
                old(class_reader).data(),
                old(class_reader).pos(),
                |i: u16| JvmInstruction::GetStatic(i),
            ),
    {
        let index = class_reader.read_u16()?;
        Ok(JvmInstruction::GetStatic(index))
    }
}

} // verus!
