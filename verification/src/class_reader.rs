use vstd::prelude::*;

use crate::class_file_version::VersionError;

verus! {

/// The errors that reading and decoding a class file can report.
#[derive(Debug, Clone, Copy, PartialEq, Eq, Structural)]
pub enum ParseError {
    UnexpectedEof { offset: usize },
    InvalidMagic { found: u32 },
    InvalidVersion(VersionError),
    InvalidConstantPoolTag { offset: usize, tag: u8 },
    InvalidConstantPoolLayout { offset: usize },
    InvalidOpcode { opcode: u8 },
}

/// The outcome of a read or decode step that starts at some position of a byte
/// sequence: what it produced (or the error it met) and the position the reader is
/// left at afterwards, whether the step succeeded or not.
pub type Step<T> = (Result<T, ParseError>, nat);

/// The error reported when a read starting at `pos` runs past the end of the input.
pub open spec fn eof_at(pos: nat) -> ParseError {
    ParseError::UnexpectedEof { offset: pos as usize }
}

/// Reading `len` bytes at `pos`: the bytes and the position just after them, or,
/// when fewer than `len` bytes remain, an end-of-input error that names `pos` and
/// leaves the position where it was.
pub open spec fn read_bytes_spec(data: Seq<u8>, pos: nat, len: nat) -> Step<Seq<u8>> {
    if pos + len <= data.len() {
        (Ok(data.subrange(pos as int, (pos + len) as int)), pos + len)
    } else {
        (Err(eof_at(pos)), pos)
    }
}

/// The unsigned number that a byte sequence denotes when its first byte is the most
/// significant one (big-endian order).
pub open spec fn be_value(bytes: Seq<u8>) -> nat
    decreases bytes.len(),
{
    if bytes.len() == 0 {
        0
    } else {
        be_value(bytes.drop_last()) * 256 + bytes.last() as nat
    }
}

/// 256 to the power `n`: one more than the largest number that `n` bytes can hold.
pub open spec fn pow256(n: nat) -> nat
    decreases n,
{
    if n == 0 {
        1
    } else {
        256 * pow256((n - 1) as nat)
    }
}

/// Reading a big-endian number of `width` bytes at `pos`.
pub open spec fn read_be_spec(data: Seq<u8>, pos: nat, width: nat) -> Step<nat> {
    let (r, next) = read_bytes_spec(data, pos, width);
    match r {
        Ok(bytes) => (Ok(be_value(bytes)), next),
        Err(e) => (Err(e), next),
    }
}

pub open spec fn read_u8_spec(data: Seq<u8>, pos: nat) -> Step<u8> {
    let (r, next) = read_be_spec(data, pos, 1);
    match r {
        Ok(v) => (Ok(v as u8), next),
        Err(e) => (Err(e), next),
    }
}

pub open spec fn read_u16_spec(data: Seq<u8>, pos: nat) -> Step<u16> {
    let (r, next) = read_be_spec(data, pos, 2);
    match r {
        Ok(v) => (Ok(v as u16), next),
        Err(e) => (Err(e), next),
    }
}

pub open spec fn read_u32_spec(data: Seq<u8>, pos: nat) -> Step<u32> {
    let (r, next) = read_be_spec(data, pos, 4);
    match r {
        Ok(v) => (Ok(v as u32), next),
        Err(e) => (Err(e), next),
    }
}

pub open spec fn read_u64_spec(data: Seq<u8>, pos: nat) -> Step<u64> {
    let (r, next) = read_be_spec(data, pos, 8);
    match r {
        Ok(v) => (Ok(v as u64), next),
        Err(e) => (Err(e), next),
    }
}

/// Every read either succeeds, consuming exactly the bytes it asked for and staying
/// within the input, or fails because too few bytes remain, naming the offset it
/// started at and leaving the position where it was.
pub proof fn lemma_read_outcome(data: Seq<u8>, pos: nat, len: nat)
    requires
        pos <= data.len(),
    ensures
        read_bytes_spec(data, pos, len).0 is Ok <==> pos + len <= data.len(),
        read_bytes_spec(data, pos, len).0 is Ok ==> read_bytes_spec(data, pos, len).1 == pos + len
            && read_bytes_spec(data, pos, len).1 <= data.len(),
        read_bytes_spec(data, pos, len).0 is Err ==> read_bytes_spec(data, pos, len).1 == pos
            && read_bytes_spec(data, pos, len).0 == Err::<Seq<u8>, ParseError>(eof_at(pos)),
{
}

/// Reading `n` bytes and then `m` more succeeds exactly when reading `n + m` bytes at
/// once does, and gives the same bytes, split in two, and the same final position.
pub proof fn lemma_read_bytes_concat(data: Seq<u8>, pos: nat, n: nat, m: nat)
    ensures
        ({
            let (first, p1) = read_bytes_spec(data, pos, n);
            let (second, p2) = read_bytes_spec(data, p1, m);
            let (whole, p3) = read_bytes_spec(data, pos, n + m);
            &&& (first is Ok && second is Ok) <==> whole is Ok
            &&& whole is Ok ==> p2 == p3 && whole->Ok_0 == first->Ok_0 + second->Ok_0
        }),
{
    if pos + n + m <= data.len() {
        assert(data.subrange(pos as int, (pos + n + m) as int) =~= data.subrange(
            pos as int,
            (pos + n) as int,
        ) + data.subrange((pos + n) as int, (pos + n + m) as int));
    }
}

/// The number held in bytes `high` followed by bytes `low` is the number in `high`
/// shifted up by the width of `low`, plus the number in `low`: big-endian quantities
/// are built from consecutive bytes.
pub proof fn lemma_be_value_concat(high: Seq<u8>, low: Seq<u8>)
    ensures
        be_value(high + low) == be_value(high) * pow256(low.len()) + be_value(low),
    decreases low.len(),
{
    if low.len() == 0 {
        assert(high + low =~= high);
        assert(pow256(0) == 1);
        assert(be_value(low) == 0);
        assert(be_value(high) * 1 == be_value(high));
    } else {
        let whole = high + low;
        assert(whole.drop_last() =~= high + low.drop_last());
        lemma_be_value_concat(high, low.drop_last());
        let a = be_value(high);
        let p = pow256((low.len() - 1) as nat);
        let b = be_value(low.drop_last());
        assert((a * p + b) * 256 + low.last() == a * (256 * p) + (b * 256 + low.last()))
            by (nonlinear_arith);
        assert(whole.last() == low.last());
        assert(be_value(whole) == be_value(whole.drop_last()) * 256 + whole.last());
        assert(be_value(low) == b * 256 + low.last());
        assert(pow256(low.len()) == 256 * p);
        assert(be_value(whole) == a * pow256(low.len()) + be_value(low));
    }
}

/// A number read from `n` bytes is below 256 to the power `n`.
pub proof fn lemma_be_value_bound(bytes: Seq<u8>)
    ensures
        be_value(bytes) < pow256(bytes.len()),
    decreases bytes.len(),
{
    if bytes.len() > 0 {
        lemma_be_value_bound(bytes.drop_last());
        let v = be_value(bytes.drop_last());
        let p = pow256((bytes.len() - 1) as nat);
        assert(v * 256 + bytes.last() < 256 * p) by (nonlinear_arith)
            requires
                v < p,
                bytes.last() < 256,
        ;
    }
}

/// A 32-bit read gives the number of two 16-bit reads at the same place, the first
/// one high, and ends where they end; a 64-bit read is likewise made of two 32-bit
/// reads.
pub proof fn lemma_wide_reads_compose(data: Seq<u8>, pos: nat)
    ensures
        ({
            let (high, p1) = read_u16_spec(data, pos);
            let (low, p2) = read_u16_spec(data, p1);
            let (whole, p3) = read_u32_spec(data, pos);
            &&& (high is Ok && low is Ok) <==> whole is Ok
            &&& whole is Ok ==> p2 == p3 && whole->Ok_0 as nat == high->Ok_0 as nat * 0x1_0000
                + low->Ok_0 as nat
        }),
        ({
            let (high, p1) = read_u32_spec(data, pos);
            let (low, p2) = read_u32_spec(data, p1);
            let (whole, p3) = read_u64_spec(data, pos);
            &&& (high is Ok && low is Ok) <==> whole is Ok
            &&& whole is Ok ==> p2 == p3 && whole->Ok_0 as nat == high->Ok_0 as nat
                * 0x1_0000_0000 + low->Ok_0 as nat
        }),
{
    reveal_with_fuel(pow256, 9);
    lemma_read_bytes_concat(data, pos, 2, 2);
    lemma_read_bytes_concat(data, pos, 4, 4);
    if pos + 4 <= data.len() {
        let a = data.subrange(pos as int, (pos + 2) as int);
        let b = data.subrange((pos + 2) as int, (pos + 4) as int);
        lemma_be_value_concat(a, b);
        lemma_be_value_bound(a);
        lemma_be_value_bound(b);
        lemma_be_value_bound(a + b);
    }
    if pos + 8 <= data.len() {
        let a = data.subrange(pos as int, (pos + 4) as int);
        let b = data.subrange((pos + 4) as int, (pos + 8) as int);
        lemma_be_value_concat(a, b);
        lemma_be_value_bound(a);
        lemma_be_value_bound(b);
        lemma_be_value_bound(a + b);
    }
}

/// What a read gives depends only on the bytes it covers: bytes after them change
/// nothing.
pub proof fn lemma_read_ignores_later_bytes(data: Seq<u8>, later: Seq<u8>, pos: nat, len: nat)
    requires
        pos + len <= data.len(),
    ensures
        read_bytes_spec(data + later, pos, len) == read_bytes_spec(data, pos, len),
{
    assert((data + later).subrange(pos as int, (pos + len) as int) =~= data.subrange(
        pos as int,
        (pos + len) as int,
    ));
}

/// The 16-bit number in bytes `i` and `i + 1`, the first one high.
pub open spec fn u16_at(data: Seq<u8>, i: int) -> int {
    data[i] * 256 + data[i + 1]
}

/// The 32-bit number in bytes `i` to `i + 3`, the first one highest.
pub open spec fn u32_at(data: Seq<u8>, i: int) -> int {
    data[i] * 0x100_0000 + data[i + 1] * 0x1_0000 + data[i + 2] * 0x100 + data[i + 3]
}

/// The 64-bit number in bytes `i` to `i + 7`, the first one highest.
pub open spec fn u64_at(data: Seq<u8>, i: int) -> int {
    u32_at(data, i) * 0x1_0000_0000 + u32_at(data, i + 4)
}

proof fn lemma_be_value_single(data: Seq<u8>, i: int)
    requires
        0 <= i < data.len(),
    ensures
        be_value(data.subrange(i, i + 1)) == data[i],
{
    let s = data.subrange(i, i + 1);
    assert(s.drop_last() =~= Seq::<u8>::empty());
    assert(be_value(s.drop_last()) == 0);
}

proof fn lemma_be_value_pair(data: Seq<u8>, i: int)
    requires
        0 <= i,
        i + 2 <= data.len(),
    ensures
        be_value(data.subrange(i, i + 2)) == u16_at(data, i),
{
    let s = data.subrange(i, i + 2);
    assert(s.drop_last() =~= data.subrange(i, i + 1));
    lemma_be_value_single(data, i);
}

proof fn lemma_be_value_quad(data: Seq<u8>, i: int)
    requires
        0 <= i,
        i + 4 <= data.len(),
    ensures
        be_value(data.subrange(i, i + 4)) == u32_at(data, i),
{
    reveal_with_fuel(pow256, 3);
    assert(data.subrange(i, i + 4) =~= data.subrange(i, i + 2) + data.subrange(i + 2, i + 4));
    lemma_be_value_concat(data.subrange(i, i + 2), data.subrange(i + 2, i + 4));
    lemma_be_value_pair(data, i);
    lemma_be_value_pair(data, i + 2);
    assert(pow256(2) == 0x1_0000);
    let (a, b) = (data[i] as int, data[i + 1] as int);
    assert((a * 256 + b) * 0x1_0000 == a * 0x100_0000 + b * 0x1_0000) by (nonlinear_arith);
}

proof fn lemma_be_value_octet(data: Seq<u8>, i: int)
    requires
        0 <= i,
        i + 8 <= data.len(),
    ensures
        be_value(data.subrange(i, i + 8)) == u64_at(data, i),
{
    reveal_with_fuel(pow256, 5);
    assert(data.subrange(i, i + 8) =~= data.subrange(i, i + 4) + data.subrange(i + 4, i + 8));
    lemma_be_value_concat(data.subrange(i, i + 4), data.subrange(i + 4, i + 8));
    lemma_be_value_quad(data, i);
    lemma_be_value_quad(data, i + 4);
}

/// What each read gives, stated against the bytes: the byte at the offset, or the
/// two, four or eight bytes there with the first one most significant; or, when
/// too few bytes remain, an end-of-input error naming the offset, which stays put.
pub proof fn lemma_reads_against_bytes(data: Seq<u8>, pos: nat)
    ensures
        read_u8_spec(data, pos) == if pos + 1 <= data.len() {
            (Ok::<u8, ParseError>(data[pos as int]), pos + 1)
        } else {
            (Err::<u8, ParseError>(eof_at(pos)), pos)
        },
        read_u16_spec(data, pos) == if pos + 2 <= data.len() {
            (Ok::<u16, ParseError>(u16_at(data, pos as int) as u16), pos + 2)
        } else {
            (Err::<u16, ParseError>(eof_at(pos)), pos)
        },
        read_u32_spec(data, pos) == if pos + 4 <= data.len() {
            (Ok::<u32, ParseError>(u32_at(data, pos as int) as u32), pos + 4)
        } else {
            (Err::<u32, ParseError>(eof_at(pos)), pos)
        },
        read_u64_spec(data, pos) == if pos + 8 <= data.len() {
            (Ok::<u64, ParseError>(u64_at(data, pos as int) as u64), pos + 8)
        } else {
            (Err::<u64, ParseError>(eof_at(pos)), pos)
        },
        pos + 2 <= data.len() ==> 0 <= u16_at(data, pos as int) < 0x1_0000,
        pos + 4 <= data.len() ==> 0 <= u32_at(data, pos as int) < 0x1_0000_0000,
        pos + 8 <= data.len() ==> 0 <= u64_at(data, pos as int) < 0x1_0000_0000_0000_0000,
{
    reveal_with_fuel(pow256, 9);
    if pos + 1 <= data.len() {
        lemma_be_value_single(data, pos as int);
    }
    if pos + 2 <= data.len() {
        lemma_be_value_pair(data, pos as int);
        lemma_be_value_bound(data.subrange(pos as int, (pos + 2) as int));
    }
    if pos + 4 <= data.len() {
        lemma_be_value_quad(data, pos as int);
        lemma_be_value_bound(data.subrange(pos as int, (pos + 4) as int));
    }
    if pos + 8 <= data.len() {
        lemma_be_value_octet(data, pos as int);
        lemma_be_value_bound(data.subrange(pos as int, (pos + 8) as int));
    }
}

/// Running past the end is reported as `UnexpectedEof` with the offset at which the
/// read started.
pub proof fn lemma_eof_names_offset(pos: nat)
    ensures
        eof_at(pos) == (ParseError::UnexpectedEof { offset: pos as usize }),
{
}

/// A cursor over the bytes of a class file. The class file format builds its 16-,
/// 32- and 64-bit quantities from two, four and eight consecutive bytes, most
/// significant byte first. The offset never passes the end of the bytes.
pub struct ClassReader<'a> {
    bytes: &'a [u8],
    offset: usize,
}

impl<'a> ClassReader<'a> {
    /// The offset never passes the end of the bytes.
    #[verifier::type_invariant]
    pub(crate) open spec fn offset_in_bounds(self) -> bool {
        self.pos() <= self.data().len()
    }

    /// The bytes the reader walks over.
    pub closed spec fn data(self) -> Seq<u8> {
        self.bytes@
    }

    /// How many bytes have been consumed.
    pub closed spec fn pos(self) -> nat {
        self.offset as nat
    }

    pub fn new(bytes: &'a [u8]) -> (reader: Self)
        ensures
            reader.data() == bytes@,
            reader.pos() == 0,
    {
        Self { bytes, offset: 0 }
    }

    pub fn offset(&self) -> (offset: usize)
        ensures
            offset == self.pos(),
            offset <= self.data().len(),
    {
        proof {
            use_type_invariant(self);
        }
        self.offset
    }

    /// Takes the next `len` bytes, or fails with the current offset when fewer remain;
    /// a failed read leaves the offset where it was.
    pub fn read_bytes(&mut self, len: usize) -> (r: Result<&'a [u8], ParseError>)
        ensures
            final(self).data() == old(self).data(),
            final(self).pos() <= final(self).data().len(),
            final(self).pos() == read_bytes_spec(old(self).data(), old(self).pos(), len as nat).1,
            match read_bytes_spec(old(self).data(), old(self).pos(), len as nat).0 {
                Ok(bytes) => r matches Ok(out) && out@ == bytes,
                Err(e) => r == Err::<&'a [u8], ParseError>(e),
            },
    {
        proof {
            use_type_invariant(&*self);
        }
        let total = self.bytes.len();
        let start = self.offset;
        let end = match start.checked_add(len) {
            Some(end) => end,
            None => {
                return Err(ParseError::UnexpectedEof { offset: start });
            },
        };
        if end > total {
            return Err(ParseError::UnexpectedEof { offset: start });
        }
        let bytes: &'a [u8] = self.bytes;
        let out: &'a [u8] = &bytes[start..end];
        self.offset = end;
        Ok(out)
    }

    pub fn read_u8(&mut self) -> (r: Result<u8, ParseError>)
        ensures
            final(self).data() == old(self).data(),
            final(self).pos() <= final(self).data().len(),
            (r, final(self).pos()) == read_u8_spec(old(self).data(), old(self).pos()),
    {
        let bytes = self.read_bytes(1)?;
        let value = be_number(bytes);
        Ok(value as u8)
    }

    pub fn read_u16(&mut self) -> (r: Result<u16, ParseError>)
        ensures
            final(self).data() == old(self).data(),
            final(self).pos() <= final(self).data().len(),
            (r, final(self).pos()) == read_u16_spec(old(self).data(), old(self).pos()),
    {
        let bytes = self.read_bytes(2)?;
        let value = be_number(bytes);
        Ok(value as u16)
    }

    pub fn read_u32(&mut self) -> (r: Result<u32, ParseError>)
        ensures
            final(self).data() == old(self).data(),
            final(self).pos() <= final(self).data().len(),
            (r, final(self).pos()) == read_u32_spec(old(self).data(), old(self).pos()),
    {
        let bytes = self.read_bytes(4)?;
        let value = be_number(bytes);
        Ok(value as u32)
    }

    pub fn read_u64(&mut self) -> (r: Result<u64, ParseError>)
        ensures
            final(self).data() == old(self).data(),
            final(self).pos() <= final(self).data().len(),
            (r, final(self).pos()) == read_u64_spec(old(self).data(), old(self).pos()),
    {
        let bytes = self.read_bytes(8)?;
        let value = be_number(bytes);
        Ok(value)
    }
}

/// The big-endian number held in at most eight bytes.
fn be_number(bytes: &[u8]) -> (value: u64)
    requires
        bytes@.len() <= 8,
    ensures
        value == be_value(bytes@),
        value < pow256(bytes@.len()),
{
    let mut value: u64 = 0;
    let mut i: usize = 0;
    while i < bytes.len()
        invariant
            i <= bytes@.len() <= 8,
            value == be_value(bytes@.take(i as int)),
            value < pow256(i as nat),
        decreases bytes@.len() - i,
    {
        proof {
            assert(bytes@.take(i + 1).drop_last() =~= bytes@.take(i as int));
            lemma_pow256_le_8(i as nat);
            let p = pow256(i as nat);
            assert(value * 256 + bytes@[i as int] < p * 256) by (nonlinear_arith)
                requires
                    value < p,
                    bytes@[i as int] < 256,
            ;
        }
        value = value * 256 + bytes[i] as u64;
        i = i + 1;
    }
    proof {
        assert(bytes@.take(i as int) =~= bytes@);
    }
    value
}

proof fn lemma_pow256_le_8(n: nat)
    requires
        n < 8,
    ensures
        pow256(n) * 256 <= 0x1_0000_0000_0000_0000,
{
    reveal_with_fuel(pow256, 9);
}

} // verus!
