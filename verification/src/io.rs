//! Byte and bit streams over in-memory data: the reading and writing side of
//! every BMFF structure.

use vstd::prelude::*;
use vstd::arithmetic::power2::{pow2, lemma_pow2_unfold, lemma2_to64};
use vstd::slice::slice_subrange;
use vstd::slice::slice_to_vec;
use vstd::string::StringSliceAdditionalSpecFns;
use vstd::utf8::{decode_utf8, valid_utf8};
use crate::error::{eof, Error, IoErrorKind, ParameterError, Result};
use crate::text::{latin1, latin1_string, lossy_utf8, utf8_lossy_string};

verus! {

/// A marker for a box position in a write stream.
/// Used for updating the box size after writing its contents.
pub type BoxMarker = usize;

// ---------------------------------------------------------------------------
// Big-endian numbers over byte sequences.

/// The big-endian 16-bit number at `i`.
pub open spec fn be16(s: Seq<u8>, i: int) -> int {
    s[i] * 256 + s[i + 1]
}

/// The big-endian 24-bit number at `i`.
pub open spec fn be24(s: Seq<u8>, i: int) -> int {
    s[i] * 65536 + s[i + 1] * 256 + s[i + 2]
}

/// The big-endian 32-bit number at `i`.
pub open spec fn be32(s: Seq<u8>, i: int) -> int {
    s[i] * 16777216 + s[i + 1] * 65536 + s[i + 2] * 256 + s[i + 3]
}

/// The big-endian 64-bit number at `i`.
pub open spec fn be64(s: Seq<u8>, i: int) -> int {
    be32(s, i) * 4294967296 + be32(s, i + 4)
}

/// Two's complement reading of a 16-bit unsigned number.
pub open spec fn signed16(v: int) -> int {
    if v >= 0x8000 { v - 0x10000 } else { v }
}

/// Two's complement reading of a 32-bit unsigned number.
pub open spec fn signed32(v: int) -> int {
    if v >= 0x8000_0000 { v - 0x1_0000_0000 } else { v }
}

/// Two's complement reading of a 64-bit unsigned number.
pub open spec fn signed64(v: int) -> int {
    if v >= 0x8000_0000_0000_0000 { v - 0x1_0000_0000_0000_0000 } else { v }
}

/// The two big-endian bytes of a 16-bit number.
pub open spec fn u16_bytes(v: int) -> Seq<u8> {
    seq![(v / 256) as u8, (v % 256) as u8]
}

/// The four big-endian bytes of a 32-bit number.
pub open spec fn u32_bytes(v: int) -> Seq<u8> {
    seq![(v / 16777216) as u8, ((v / 65536) % 256) as u8, ((v / 256) % 256) as u8, (v % 256) as u8]
}

/// The eight big-endian bytes of a 64-bit number.
pub open spec fn u64_bytes(v: int) -> Seq<u8> {
    u32_bytes(v / 4294967296) + u32_bytes(v % 4294967296)
}

/// `d` with `b` written at `pos`, growing `d` where `b` runs past its end.
pub open spec fn overwrite(d: Seq<u8>, pos: int, b: Seq<u8>) -> Seq<u8> {
    if pos + b.len() <= d.len() {
        d.subrange(0, pos) + b + d.subrange(pos + b.len(), d.len() as int)
    } else {
        d.subrange(0, pos) + b
    }
}

/// `n` zero bytes.
pub open spec fn zeros(n: nat) -> Seq<u8> {
    Seq::new(n, |i: int| 0u8)
}

/// The version byte and the three big-endian flag bytes of a full box header.
pub open spec fn version_flags_bytes(version: u8, flags: u32) -> Seq<u8> {
    seq![version, ((flags / 65536) % 256) as u8, ((flags / 256) % 256) as u8, (flags % 256) as u8]
}

/// Writing two pieces one after the other is writing them together.
pub proof fn lemma_overwrite_concat(d: Seq<u8>, p: int, a: Seq<u8>, b: Seq<u8>)
    requires
        0 <= p <= d.len(),
    ensures
        overwrite(overwrite(d, p, a), p + a.len(), b) == overwrite(d, p, a + b),
{
    let d1 = overwrite(d, p, a);
    assert(d1.len() >= p + a.len());
    assert(overwrite(d1, p + a.len(), b) =~= overwrite(d, p, a + b));
}

// ---------------------------------------------------------------------------
// Bits, most significant first.

/// Bit `i` of the data, counting from the most significant bit of byte 0.
pub open spec fn bit_at(s: Seq<u8>, i: int) -> u8 {
    (s[i / 8] >> ((7 - i % 8) as u8)) & 1u8
}

/// The number formed by the `k` bits from bit `c` on.
pub open spec fn bits_value(s: Seq<u8>, c: int, k: nat) -> int
    decreases k,
{
    if k == 0 {
        0
    } else {
        2 * bits_value(s, c, (k - 1) as nat) + bit_at(s, c + k - 1)
    }
}

/// The data after bit `i` is set to `b`: the first bit of a byte starts a fresh
/// zero byte, a later bit is or-ed into the byte it belongs to.
pub open spec fn set_bit(d: Seq<u8>, i: int, b: u8) -> Seq<u8> {
    if i % 8 == 0 {
        overwrite(d, i / 8, seq![(b * 128) as u8])
    } else {
        d.update(i / 8, d[i / 8] | ((b << ((7 - i % 8) as u8)) as u8))
    }
}

/// The data after the first `k` of the `n` low bits of `v`, most significant
/// first, are written from bit `c` on.
pub open spec fn write_bits_spec(d: Seq<u8>, c: int, v: u32, n: nat, k: nat) -> Seq<u8>
    decreases k,
{
    if k == 0 {
        d
    } else {
        set_bit(
            write_bits_spec(d, c, v, n, (k - 1) as nat),
            c + k - 1,
            ((v >> ((n - k) as u32)) & 1u32) as u8,
        )
    }
}

/// Where a null-terminated string that starts at `i` ends: the index of its
/// terminating zero byte, or the end of the data.
pub open spec fn nul_index(s: Seq<u8>, i: int) -> int
    decreases s.len() - i,
{
    if i >= s.len() {
        s.len() as int
    } else if s[i] == 0 {
        i
    } else {
        nul_index(s, i + 1)
    }
}

/// `s` without its trailing zero bytes.
pub open spec fn trim_trailing_zeros(s: Seq<u8>) -> Seq<u8>
    decreases s.len(),
{
    if s.len() > 0 && s.last() == 0 {
        trim_trailing_zeros(s.drop_last())
    } else {
        s
    }
}

/// Where to move a stream to.
#[derive(Debug, Clone, Copy, PartialEq, Eq, Structural)]
pub enum SeekFrom {
    /// An offset from the start.
    Start(u64),
    /// An offset from the end.
    End(i64),
    /// An offset from the current position.
    Current(i64),
}

/// The position that a seek asks for, before any check, as a mathematical integer.
pub open spec fn seek_target(pos: SeekFrom, len: int, current: int) -> int {
    match pos {
        SeekFrom::Start(off) => off as int,
        SeekFrom::End(off) => len + off,
        SeekFrom::Current(off) => current + off,
    }
}

/// `seek_target`, computed without overflow: `None` when it is negative or
/// beyond `usize::MAX`.
fn seek_target_exec(pos: SeekFrom, len: usize, current: usize) -> (r: Option<usize>)
    ensures
        r matches Some(v) ==> v == seek_target(pos, len as int, current as int),
        r is None ==> (seek_target(pos, len as int, current as int) < 0
            || seek_target(pos, len as int, current as int) > usize::MAX),
{
    let (base, off): (usize, i64) = match pos {
        SeekFrom::Start(o) => {
            if o > usize::MAX as u64 {
                return None;
            }
            return Some(o as usize);
        },
        SeekFrom::End(o) => (len, o),
        SeekFrom::Current(o) => (current, o),
    };
    if off < 0 {
        let magnitude: u64 = if off == i64::MIN {
            9223372036854775808u64
        } else {
            (-off) as u64
        };
        if magnitude > base as u64 {
            None
        } else {
            Some(base - magnitude as usize)
        }
    } else {
        let add: u64 = off as u64;
        if add > (usize::MAX - base) as u64 {
            None
        } else {
            Some(base + add as usize)
        }
    }
}

// ---------------------------------------------------------------------------
// Reading.

/// A safe equivalent to avifROStream.
#[derive(Debug)]
pub struct ReadStream<'a> {
    data: &'a [u8],
    position: usize,
    /// Bits already consumed from the byte before `position` (0 when none).
    bit_offset: u8,
}

impl<'a> ReadStream<'a> {
    /// The data the stream reads.
    pub closed spec fn bytes(&self) -> Seq<u8> {
        self.data@
    }

    /// The index of the next whole byte.
    pub closed spec fn pos(&self) -> int {
        self.position as int
    }

    /// Bits used of the partly read byte before `pos()` (0 when none).
    pub closed spec fn bits_used(&self) -> int {
        self.bit_offset as int
    }

    /// The stream's invariant.
    pub open spec fn inv(&self) -> bool {
        &&& 0 <= self.pos() <= self.bytes().len()
        &&& 0 <= self.bits_used() < 8
        &&& self.bits_used() > 0 ==> self.pos() > 0
    }

    /// Index of the next bit to read.
    pub open spec fn cursor(&self) -> int {
        if self.bits_used() == 0 {
            self.pos() * 8
        } else {
            (self.pos() - 1) * 8 + self.bits_used()
        }
    }

    /// The state after a byte-level read or skip of `n` bytes from `old`.
    pub open spec fn advanced(&self, old: &Self, n: int) -> bool {
        &&& self.bytes() == old.bytes()
        &&& self.pos() == old.pos() + n
        &&& self.bits_used() == 0
    }

    /// At least `n` whole bytes remain.
    pub open spec fn can_read(&self, n: int) -> bool {
        self.pos() + n <= self.bytes().len()
    }

    /// Create a new ReadStream from the given data.
    pub fn new(data: &'a [u8]) -> (r: Self)
        ensures
            r.inv(),
            r.bytes() == data@,
            r.pos() == 0,
            r.bits_used() == 0,
    {
        Self { data, position: 0, bit_offset: 0 }
    }

    /// Read bytes into the given buffer: as many as are left, at most `buf.len()`.
    pub fn read(&mut self, buf: &mut [u8]) -> (r: Result<usize>)
        requires
            old(self).inv(),
        ensures
            final(self).inv(),
            ({
                let n = if old(self).bytes().len() - old(self).pos() < old(buf)@.len() {
                    old(self).bytes().len() - old(self).pos()
                } else {
                    old(buf)@.len() as int
                };
                &&& r matches Ok(k) && k == n
                &&& n == 0 ==> *final(self) == *old(self) && final(buf)@ == old(buf)@
                &&& n > 0 ==> final(self).advanced(old(self), n)
                &&& n > 0 ==> final(buf)@ == old(self).bytes().subrange(
                    old(self).pos(),
                    old(self).pos() + n,
                ) + old(buf)@.subrange(n, old(buf)@.len() as int)
            }),
    {
        let available = self.data.len() - self.position;
        let to_read = if available < buf.len() {
            available
        } else {
            buf.len()
        };
        if to_read == 0 {
            return Ok(0);
        }
        let mut i: usize = 0;
        while i < to_read
            invariant
                self.inv(),
                *self == *old(self),
                to_read <= buf@.len(),
                buf@.len() == old(buf)@.len(),
                self.position + to_read <= self.data.len(),
                i <= to_read,
                forall|j: int| 0 <= j < i ==> buf@[j] == self.data@[self.position + j],
                forall|j: int| i <= j < buf@.len() ==> buf@[j] == old(buf)@[j],
            decreases to_read - i,
        {
            buf[i] = self.data[self.position + i];
            i = i + 1;
        }
        assert(buf@ =~= old(self).bytes().subrange(
            old(self).pos(),
            old(self).pos() + to_read,
        ) + old(buf)@.subrange(to_read as int, old(buf)@.len() as int));
        self.position = self.position + to_read;
        self.bit_offset = 0;
        Ok(to_read)
    }

    /// Read exactly `buf.len()` bytes into the given buffer.
    pub fn read_exact(&mut self, buf: &mut [u8]) -> (r: Result<()>)
        requires
            old(self).inv(),
        ensures
            final(self).inv(),
            old(self).can_read(old(buf)@.len() as int) ==> {
                &&& r is Ok
                &&& final(self).advanced(old(self), old(buf)@.len() as int)
                &&& final(buf)@ == old(self).bytes().subrange(
                    old(self).pos(),
                    old(self).pos() + old(buf)@.len(),
                )
            },
            !old(self).can_read(old(buf)@.len() as int) ==> {
                &&& r == Err::<(), Error>(eof())
                &&& *final(self) == *old(self)
                &&& final(buf)@ == old(buf)@
            },
    {
        if buf.len() > self.data.len() - self.position {
            return Err(Error::Io(IoErrorKind::UnexpectedEof));
        }
        let mut i: usize = 0;
        while i < buf.len()
            invariant
                self.inv(),
                *self == *old(self),
                buf@.len() == old(buf)@.len(),
                self.position + buf.len() <= self.data.len(),
                i <= buf@.len(),
                forall|j: int| 0 <= j < i ==> buf@[j] == self.data@[self.position + j],
            decreases buf@.len() - i,
        {
            buf[i] = self.data[self.position + i];
            i = i + 1;
        }
        assert(buf@ =~= old(self).bytes().subrange(
            old(self).pos(),
            old(self).pos() + old(buf)@.len(),
        ));
        self.position = self.position + buf.len();
        self.bit_offset = 0;
        Ok(())
    }

    /// Read exactly `n` bytes into a new vector.
    pub fn read_exact_buffer(&mut self, n: usize) -> (r: Result<Vec<u8>>)
        requires
            old(self).inv(),
        ensures
            final(self).inv(),
            old(self).can_read(n as int) ==> {
                &&& r matches Ok(v) && v@ == old(self).bytes().subrange(
                    old(self).pos(),
                    old(self).pos() + n,
                )
                &&& final(self).advanced(old(self), n as int)
            },
            !old(self).can_read(n as int) ==> r == Err::<Vec<u8>, Error>(eof()) && *final(self)
                == *old(self),
    {
        if n > self.data.len() - self.position {
            return Err(Error::Io(IoErrorKind::UnexpectedEof));
        }
        let v = slice_to_vec(slice_subrange(self.data, self.position, self.position + n));
        self.position = self.position + n;
        self.bit_offset = 0;
        Ok(v)
    }

    /// Read four bytes into an array, such as a four-character code.
    pub fn read_code(&mut self) -> (r: Result<[u8; 4]>)
        requires
            old(self).inv(),
        ensures
            final(self).inv(),
            old(self).can_read(4) ==> {
                &&& r matches Ok(c) && c@ == old(self).bytes().subrange(old(self).pos(), old(self).pos() + 4)
                &&& final(self).advanced(old(self), 4)
            },
            !old(self).can_read(4) ==> r == Err::<[u8; 4], Error>(eof()) && *final(self) == *old(self),
    {
        if self.data.len() - self.position < 4 {
            return Err(Error::Io(IoErrorKind::UnexpectedEof));
        }
        let p = self.position;
        let c: [u8; 4] = [self.data[p], self.data[p + 1], self.data[p + 2], self.data[p + 3]];
        assert(c@ =~= self.data@.subrange(p as int, p + 4));
        self.position = p + 4;
        self.bit_offset = 0;
        Ok(c)
    }

    /// Read a single byte.
    pub fn read_u8(&mut self) -> (r: Result<u8>)
        requires
            old(self).inv(),
        ensures
            final(self).inv(),
            old(self).can_read(1) ==> {
                &&& r matches Ok(v) && v == old(self).bytes()[old(self).pos()]
                &&& final(self).advanced(old(self), 1)
            },
            !old(self).can_read(1) ==> r == Err::<u8, Error>(eof()) && *final(self) == *old(self),
    {
        if self.position >= self.data.len() {
            return Err(Error::Io(IoErrorKind::UnexpectedEof));
        }
        let byte = self.data[self.position];
        self.position = self.position + 1;
        self.bit_offset = 0;
        Ok(byte)
    }

    /// Read a 16-bit unsigned integer in big-endian format.
    pub fn read_u16(&mut self) -> (r: Result<u16>)
        requires
            old(self).inv(),
        ensures
            final(self).inv(),
            old(self).can_read(2) ==> {
                &&& r matches Ok(v) && v == be16(old(self).bytes(), old(self).pos())
                &&& final(self).advanced(old(self), 2)
            },
            !old(self).can_read(2) ==> r == Err::<u16, Error>(eof()) && *final(self) == *old(self),
    {
        if self.data.len() - self.position < 2 {
            return Err(Error::Io(IoErrorKind::UnexpectedEof));
        }
        let p = self.position;
        let value = (self.data[p] as u16) * 256 + self.data[p + 1] as u16;
        self.position = p + 2;
        self.bit_offset = 0;
        Ok(value)
    }

    /// Read a 24-bit unsigned integer in big-endian format.
    pub fn read_u24(&mut self) -> (r: Result<u32>)
        requires
            old(self).inv(),
        ensures
            final(self).inv(),
            old(self).can_read(3) ==> {
                &&& r matches Ok(v) && v == be24(old(self).bytes(), old(self).pos())
                &&& final(self).advanced(old(self), 3)
            },
            !old(self).can_read(3) ==> r == Err::<u32, Error>(eof()) && *final(self) == *old(self),
    {
        if self.data.len() - self.position < 3 {
            return Err(Error::Io(IoErrorKind::UnexpectedEof));
        }
        let p = self.position;
        let value = (self.data[p] as u32) * 65536 + (self.data[p + 1] as u32) * 256
            + self.data[p + 2] as u32;
        self.position = p + 3;
        self.bit_offset = 0;
        Ok(value)
    }

    /// Read a 32-bit unsigned integer in big-endian format.
    pub fn read_u32(&mut self) -> (r: Result<u32>)
        requires
            old(self).inv(),
        ensures
            final(self).inv(),
            old(self).can_read(4) ==> {
                &&& r matches Ok(v) && v == be32(old(self).bytes(), old(self).pos())
                &&& final(self).advanced(old(self), 4)
            },
            !old(self).can_read(4) ==> r == Err::<u32, Error>(eof()) && *final(self) == *old(self),
    {
        if self.data.len() - self.position < 4 {
            return Err(Error::Io(IoErrorKind::UnexpectedEof));
        }
        let p = self.position;
        let value = (self.data[p] as u32) * 16777216 + (self.data[p + 1] as u32) * 65536
            + (self.data[p + 2] as u32) * 256 + self.data[p + 3] as u32;
        self.position = p + 4;
        self.bit_offset = 0;
        Ok(value)
    }

    /// Read a 64-bit unsigned integer in big-endian format.
    pub fn read_u64(&mut self) -> (r: Result<u64>)
        requires
            old(self).inv(),
        ensures
            final(self).inv(),
            old(self).can_read(8) ==> {
                &&& r matches Ok(v) && v == be64(old(self).bytes(), old(self).pos())
                &&& final(self).advanced(old(self), 8)
            },
            !old(self).can_read(8) ==> r == Err::<u64, Error>(eof()) && *final(self) == *old(self),
    {
        if self.data.len() - self.position < 8 {
            return Err(Error::Io(IoErrorKind::UnexpectedEof));
        }
        let p = self.position;
        let hi = (self.data[p] as u32) * 16777216 + (self.data[p + 1] as u32) * 65536
            + (self.data[p + 2] as u32) * 256 + self.data[p + 3] as u32;
        let lo = (self.data[p + 4] as u32) * 16777216 + (self.data[p + 5] as u32) * 65536
            + (self.data[p + 6] as u32) * 256 + self.data[p + 7] as u32;
        let value = (hi as u64) * 4294967296 + lo as u64;
        self.position = p + 8;
        self.bit_offset = 0;
        Ok(value)
    }

    /// Read a 16-bit signed integer in big-endian two's complement.
    pub fn read_i16(&mut self) -> (r: Result<i16>)
        requires
            old(self).inv(),
        ensures
            final(self).inv(),
            old(self).can_read(2) ==> {
                &&& r matches Ok(v) && v == signed16(be16(old(self).bytes(), old(self).pos()))
                &&& final(self).advanced(old(self), 2)
            },
            !old(self).can_read(2) ==> r == Err::<i16, Error>(eof()) && *final(self) == *old(self),
    {
        let u = self.read_u16()?;
        let v: i16 = if u >= 32768 {
            (u as i32 - 65536) as i16
        } else {
            u as i16
        };
        Ok(v)
    }

    /// Read a 32-bit signed integer in big-endian two's complement.
    pub fn read_i32(&mut self) -> (r: Result<i32>)
        requires
            old(self).inv(),
        ensures
            final(self).inv(),
            old(self).can_read(4) ==> {
                &&& r matches Ok(v) && v == signed32(be32(old(self).bytes(), old(self).pos()))
                &&& final(self).advanced(old(self), 4)
            },
            !old(self).can_read(4) ==> r == Err::<i32, Error>(eof()) && *final(self) == *old(self),
    {
        let u = self.read_u32()?;
        let v: i32 = if u >= 2147483648 {
            (u as i64 - 4294967296) as i32
        } else {
            u as i32
        };
        Ok(v)
    }

    /// Read a 64-bit signed integer in big-endian two's complement.
    pub fn read_i64(&mut self) -> (r: Result<i64>)
        requires
            old(self).inv(),
        ensures
            final(self).inv(),
            old(self).can_read(8) ==> {
                &&& r matches Ok(v) && v == signed64(be64(old(self).bytes(), old(self).pos()))
                &&& final(self).advanced(old(self), 8)
            },
            !old(self).can_read(8) ==> r == Err::<i64, Error>(eof()) && *final(self) == *old(self),
    {
        let u = self.read_u64()?;
        let v: i64 = if u >= 9223372036854775808 {
            (u as i128 - 18446744073709551616) as i64
        } else {
            u as i64
        };
        Ok(v)
    }
}


/// Each bit is 0 or 1.
pub proof fn lemma_bit_at_is_bit(s: Seq<u8>, i: int)
    ensures
        bit_at(s, i) <= 1,
{
    let b = s[i / 8];
    let k = (7 - i % 8) as u8;
    assert((b >> k) & 1u8 <= 1u8) by (bit_vector);
}

/// The number formed by `k` bits is below `2^k`.
pub proof fn lemma_bits_value_bound(s: Seq<u8>, c: int, k: nat)
    ensures
        0 <= bits_value(s, c, k) < pow2(k),
    decreases k,
{
    if k > 0 {
        lemma_bits_value_bound(s, c, (k - 1) as nat);
        lemma_bit_at_is_bit(s, c + k - 1);
        lemma_pow2_unfold(k);
    } else {
        lemma2_to64();
    }
}

/// A bit cursor splits into the byte it lies in and its place in that byte.
proof fn lemma_cursor_split(c: int, byte: int, bit: int)
    requires
        c == byte * 8 + bit,
        0 <= bit < 8,
    ensures
        c / 8 == byte,
        c % 8 == bit,
        (c + 7) / 8 == if bit == 0 { byte } else { byte + 1 },
{
    vstd::arithmetic::div_mod::lemma_fundamental_div_mod_converse(c, 8, byte, bit);
    if bit == 0 {
        vstd::arithmetic::div_mod::lemma_fundamental_div_mod_converse(c + 7, 8, byte, 7);
    } else {
        vstd::arithmetic::div_mod::lemma_fundamental_div_mod_converse(c + 7, 8, byte + 1, bit - 1);
    }
}

impl<'a> ReadStream<'a> {
    /// Read a null-terminated string: the bytes up to the next zero byte or the
    /// end, each taken as the character of the same code; the zero byte is consumed.
    pub fn read_string(&mut self) -> (r: Result<String>)
        requires
            old(self).inv(),
        ensures
            final(self).inv(),
            ({
                let s = old(self).bytes();
                let k = nul_index(s, old(self).pos());
                &&& r matches Ok(t) && t@ == latin1(s.subrange(old(self).pos(), k))
                &&& old(self).pos() == s.len() ==> *final(self) == *old(self)
                &&& old(self).pos() < s.len() ==> final(self).advanced(
                    old(self),
                    (if k < s.len() { k + 1 } else { k }) - old(self).pos(),
                )
            }),
    {
        let start = self.position;
        let mut i = start;
        while i < self.data.len() && self.data[i] != 0
            invariant
                *self == *old(self),
                self.inv(),
                start == self.position,
                start <= i <= self.data.len(),
                nul_index(self.data@, start as int) == nul_index(self.data@, i as int),
            decreases self.data.len() - i,
        {
            i = i + 1;
        }
        let text = latin1_string(slice_subrange(self.data, start, i));
        if start < self.data.len() {
            self.position = if i < self.data.len() {
                i + 1
            } else {
                i
            };
            self.bit_offset = 0;
        }
        Ok(text)
    }

    /// Read a fixed-length string: `len` bytes, without their trailing zero
    /// bytes, decoded as UTF-8 (invalid sequences replaced).
    pub fn read_fixed_string(&mut self, len: usize) -> (r: Result<String>)
        requires
            old(self).inv(),
        ensures
            final(self).inv(),
            old(self).can_read(len as int) ==> {
                let text = trim_trailing_zeros(
                    old(self).bytes().subrange(old(self).pos(), old(self).pos() + len),
                );
                &&& r matches Ok(t) && t@ == lossy_utf8(text) && (valid_utf8(text) ==> t@ == decode_utf8(text))
                &&& final(self).advanced(old(self), len as int)
            },
            !old(self).can_read(len as int) ==> r == Err::<String, Error>(eof()) && *final(self)
                == *old(self),
    {
        let mut bytes = self.read_exact_buffer(len)?;
        let ghost full = bytes@;
        while bytes.len() > 0 && bytes[bytes.len() - 1] == 0
            invariant
                trim_trailing_zeros(bytes@) == trim_trailing_zeros(full),
            decreases bytes.len(),
        {
            let _ = bytes.pop();
        }
        Ok(utf8_lossy_string(bytes.as_slice()))
    }

    /// Read version and flags from a full box: one version byte and a 24-bit
    /// flags field.
    pub fn read_version_and_flags(&mut self) -> (r: Result<(u8, u32)>)
        requires
            old(self).inv(),
        ensures
            final(self).inv(),
            old(self).can_read(4) ==> {
                &&& r matches Ok((v, f)) && v == old(self).bytes()[old(self).pos()] && f == be24(
                    old(self).bytes(),
                    old(self).pos() + 1,
                )
                &&& final(self).advanced(old(self), 4)
            },
            !old(self).can_read(4) ==> {
                &&& r == Err::<(u8, u32), Error>(eof())
                &&& old(self).pos() == old(self).bytes().len() ==> *final(self) == *old(self)
                &&& old(self).pos() < old(self).bytes().len() ==> final(self).advanced(
                    old(self),
                    old(self).bytes().len() - old(self).pos(),
                )
            },
    {
        let version = self.read_u8()?;
        let flags_high = self.read_u8()? as u32;
        let flags_mid = self.read_u8()? as u32;
        let flags_low = self.read_u8()? as u32;
        let flags = flags_high * 65536 + flags_mid * 256 + flags_low;
        Ok((version, flags))
    }

    /// Skip the given number of bytes.
    pub fn skip(&mut self, count: usize) -> (r: Result<()>)
        requires
            old(self).inv(),
        ensures
            final(self).inv(),
            old(self).can_read(count as int) ==> r is Ok && final(self).advanced(
                old(self),
                count as int,
            ),
            !old(self).can_read(count as int) ==> r == Err::<(), Error>(eof()) && *final(self)
                == *old(self),
    {
        if count > self.data.len() - self.position {
            return Err(Error::Io(IoErrorKind::UnexpectedEof));
        }
        self.position = self.position + count;
        self.bit_offset = 0;
        Ok(())
    }

    /// Get the current position.
    pub fn position(&self) -> (r: usize)
        requires
            self.inv(),
        ensures
            r == self.pos(),
    {
        self.position
    }

    /// Set the current position.
    pub fn set_position(&mut self, position: usize) -> (r: Result<()>)
        requires
            old(self).inv(),
        ensures
            final(self).inv(),
            position <= old(self).bytes().len() ==> r is Ok && final(self).advanced(
                old(self),
                position - old(self).pos(),
            ),
            position > old(self).bytes().len() ==> r == Err::<(), Error>(
                Error::Io(IoErrorKind::InvalidInput),
            ) && *final(self) == *old(self),
    {
        if position > self.data.len() {
            return Err(Error::Io(IoErrorKind::InvalidInput));
        }
        self.position = position;
        self.bit_offset = 0;
        Ok(())
    }

    /// Get the remaining bytes.
    pub fn remaining(&self) -> (r: &'a [u8])
        requires
            self.inv(),
        ensures
            r@ == self.bytes().subrange(self.pos(), self.bytes().len() as int),
    {
        slice_subrange(self.data, self.position, self.data.len())
    }

    /// Get the number of remaining bytes.
    pub fn remaining_bytes(&self) -> (r: usize)
        requires
            self.inv(),
        ensures
            r == self.bytes().len() - self.pos(),
    {
        self.data.len() - self.position
    }

    /// Check if there are more bytes to read.
    pub fn has_more(&self) -> (r: bool)
        requires
            self.inv(),
        ensures
            r == (self.pos() < self.bytes().len()),
    {
        self.position < self.data.len()
    }

    /// Get the underlying data.
    pub fn data(&self) -> (r: &'a [u8])
        ensures
            r@ == self.bytes(),
    {
        self.data
    }

    /// Move to a position given from the start, the end or the current position.
    /// Fails, leaving the stream as it was, when the target lies before the start
    /// or beyond the end.
    pub fn seek(&mut self, pos: SeekFrom) -> (r: Result<u64>)
        requires
            old(self).inv(),
        ensures
            final(self).inv(),
            ({
                let t = seek_target(pos, old(self).bytes().len() as int, old(self).pos());
                &&& 0 <= t <= old(self).bytes().len() ==> (r matches Ok(v) && v == t
                    && final(self).advanced(old(self), t - old(self).pos()))
                &&& !(0 <= t <= old(self).bytes().len()) ==> r == Err::<u64, Error>(
                    Error::Io(IoErrorKind::InvalidInput),
                ) && *final(self) == *old(self)
            }),
    {
        match seek_target_exec(pos, self.data.len(), self.position) {
            Some(t) => {
                if t > self.data.len() {
                    return Err(Error::Io(IoErrorKind::InvalidInput));
                }
                self.position = t;
                self.bit_offset = 0;
                Ok(t as u64)
            },
            None => Err(Error::Io(IoErrorKind::InvalidInput)),
        }
    }

    /// Read the bit under the cursor.
    fn read_one_bit(&mut self) -> (r: u8)
        requires
            old(self).inv(),
            old(self).cursor() < old(self).bytes().len() * 8,
        ensures
            final(self).inv(),
            final(self).bytes() == old(self).bytes(),
            final(self).cursor() == old(self).cursor() + 1,
            r == bit_at(old(self).bytes(), old(self).cursor()),
    {
        if self.bit_offset == 0 {
            proof {
                lemma_cursor_split(self.cursor(), self.position as int, 0);
            }
            assert(self.position < self.data.len());
            self.position = self.position + 1;
        }
        let ghost i = old(self).cursor();
        proof {
            lemma_cursor_split(i, self.position - 1, self.bit_offset as int);
        }
        let byte = self.data[self.position - 1];
        let bit = (byte >> (7 - self.bit_offset)) & 1;
        self.bit_offset = if self.bit_offset == 7 {
            0
        } else {
            self.bit_offset + 1
        };
        bit
    }

    /// Read `num_bits` bits (at most 32), most significant first.
    pub fn read_bits_u32(&mut self, num_bits: usize) -> (r: Result<u32>)
        requires
            old(self).inv(),
        ensures
            final(self).inv(),
            num_bits > 32 ==> r == Err::<u32, Error>(
                Error::InvalidParameter(ParameterError::TooManyBits),
            ) && *final(self) == *old(self),
            num_bits <= 32 && old(self).cursor() + num_bits > old(self).bytes().len() * 8 ==> r
                == Err::<u32, Error>(eof()) && *final(self) == *old(self),
            num_bits <= 32 && old(self).cursor() + num_bits <= old(self).bytes().len() * 8 ==> {
                let c = old(self).cursor() + num_bits;
                &&& r matches Ok(v) && v == bits_value(
                    old(self).bytes(),
                    old(self).cursor(),
                    num_bits as nat,
                )
                &&& final(self).bytes() == old(self).bytes()
                &&& final(self).cursor() == c
                &&& final(self).pos() == (c + 7) / 8
                &&& final(self).bits_used() == c % 8
            },
    {
        if num_bits > 32 {
            return Err(Error::InvalidParameter(ParameterError::TooManyBits));
        }
        let ghost c0 = self.cursor();
        proof {
            if self.bit_offset == 0 {
                lemma_cursor_split(c0, self.position as int, 0);
            } else {
                lemma_cursor_split(c0, self.position - 1, self.bit_offset as int);
            }
        }
        let avail_bits: u128 = if self.bit_offset == 0 {
            ((self.data.len() - self.position) as u128) * 8
        } else {
            ((self.data.len() - self.position) as u128) * 8 + (8 - self.bit_offset) as u128
        };
        if (num_bits as u128) > avail_bits {
            return Err(Error::Io(IoErrorKind::UnexpectedEof));
        }
        let mut value: u64 = 0;
        let mut k: usize = 0;
        proof {
            lemma2_to64();
        }
        while k < num_bits
            invariant
                self.inv(),
                self.bytes() == old(self).bytes(),
                k <= num_bits <= 32,
                c0 + num_bits <= self.bytes().len() * 8,
                self.cursor() == c0 + k,
                value == bits_value(self.bytes(), c0, k as nat),
                value < pow2(k as nat),
                pow2(32) == 0x100000000,
            decreases num_bits - k,
        {
            proof {
                lemma_bit_at_is_bit(self.bytes(), c0 + k);
                lemma_pow2_unfold((k + 1) as nat);
                if k + 1 < 32 {
                    vstd::arithmetic::power2::lemma_pow2_strictly_increases((k + 1) as nat, 32);
                }
            }
            let bit = self.read_one_bit();
            value = value * 2 + bit as u64;
            k = k + 1;
        }
        proof {
            let c = c0 + num_bits;
            if self.bit_offset == 0 {
                lemma_cursor_split(c, self.position as int, 0);
            } else {
                lemma_cursor_split(c, self.position - 1, self.bit_offset as int);
            }
        }
        Ok(value as u32)
    }

    /// Read `num_bits` bits (at most 16), most significant first.
    pub fn read_bits_u16(&mut self, num_bits: usize) -> (r: Result<u16>)
        requires
            old(self).inv(),
        ensures
            final(self).inv(),
            num_bits > 16 ==> r == Err::<u16, Error>(
                Error::InvalidParameter(ParameterError::TooManyBits),
            ) && *final(self) == *old(self),
            num_bits <= 16 && old(self).cursor() + num_bits > old(self).bytes().len() * 8 ==> r
                == Err::<u16, Error>(eof()) && *final(self) == *old(self),
            num_bits <= 16 && old(self).cursor() + num_bits <= old(self).bytes().len() * 8 ==> {
                let c = old(self).cursor() + num_bits;
                &&& r matches Ok(v) && v == bits_value(
                    old(self).bytes(),
                    old(self).cursor(),
                    num_bits as nat,
                )
                &&& final(self).bytes() == old(self).bytes()
                &&& final(self).cursor() == c
                &&& final(self).pos() == (c + 7) / 8
                &&& final(self).bits_used() == c % 8
            },
    {
        if num_bits > 16 {
            return Err(Error::InvalidParameter(ParameterError::TooManyBits));
        }
        let v = self.read_bits_u32(num_bits)?;
        proof {
            lemma_bits_value_bound(old(self).bytes(), old(self).cursor(), num_bits as nat);
            lemma2_to64();
            if num_bits < 16 {
                vstd::arithmetic::power2::lemma_pow2_strictly_increases(num_bits as nat, 16);
            }
        }
        Ok(v as u16)
    }

    /// Read `num_bits` bits (at most 8), most significant first.
    pub fn read_bits_u8(&mut self, num_bits: usize) -> (r: Result<u8>)
        requires
            old(self).inv(),
        ensures
            final(self).inv(),
            num_bits > 8 ==> r == Err::<u8, Error>(
                Error::InvalidParameter(ParameterError::TooManyBits),
            ) && *final(self) == *old(self),
            num_bits <= 8 && old(self).cursor() + num_bits > old(self).bytes().len() * 8 ==> r
                == Err::<u8, Error>(eof()) && *final(self) == *old(self),
            num_bits <= 8 && old(self).cursor() + num_bits <= old(self).bytes().len() * 8 ==> {
                let c = old(self).cursor() + num_bits;
                &&& r matches Ok(v) && v == bits_value(
                    old(self).bytes(),
                    old(self).cursor(),
                    num_bits as nat,
                )
                &&& final(self).bytes() == old(self).bytes()
                &&& final(self).cursor() == c
                &&& final(self).pos() == (c + 7) / 8
                &&& final(self).bits_used() == c % 8
            },
    {
        if num_bits > 8 {
            return Err(Error::InvalidParameter(ParameterError::TooManyBits));
        }
        let v = self.read_bits_u32(num_bits)?;
        proof {
            lemma_bits_value_bound(old(self).bytes(), old(self).cursor(), num_bits as nat);
            lemma2_to64();
            if num_bits < 8 {
                vstd::arithmetic::power2::lemma_pow2_strictly_increases(num_bits as nat, 8);
            }
        }
        Ok(v as u8)
    }

    /// Drop the unread bits of a partly read byte, so that reading goes on at
    /// the next whole byte.
    pub fn byte_align(&mut self) -> (r: Result<()>)
        requires
            old(self).inv(),
        ensures
            final(self).inv(),
            r is Ok,
            final(self).bytes() == old(self).bytes(),
            final(self).pos() == old(self).pos(),
            final(self).bits_used() == 0,
    {
        self.bit_offset = 0;
        Ok(())
    }
}


// ---------------------------------------------------------------------------
// Writing.

/// A safe equivalent to avifRWStream.
#[derive(Debug)]
pub struct WriteStream {
    data: Vec<u8>,
    position: usize,
    /// Bits already written into the byte before `position` (0 when none).
    bit_offset: u8,
}

impl WriteStream {
    /// Everything the stream holds, also beyond the position.
    pub closed spec fn bytes(&self) -> Seq<u8> {
        self.data@
    }

    /// The index where the next whole byte goes.
    pub closed spec fn pos(&self) -> int {
        self.position as int
    }

    /// Bits written into the byte before `pos()` (0 when none).
    pub closed spec fn bits_used(&self) -> int {
        self.bit_offset as int
    }

    /// The stream's invariant: the position lies within the data, and the bits
    /// of a partly written byte after the cursor are still zero.
    pub open spec fn inv(&self) -> bool {
        &&& 0 <= self.pos() <= self.bytes().len()
        &&& 0 <= self.bits_used() < 8
        &&& self.bits_used() > 0 ==> self.pos() > 0
        &&& self.bits_used() > 0 ==> writable_at(self.bytes(), self.cursor())
    }

    /// Index of the next bit to write.
    pub open spec fn cursor(&self) -> int {
        if self.bits_used() == 0 {
            self.pos() * 8
        } else {
            (self.pos() - 1) * 8 + self.bits_used()
        }
    }

    /// The state after `b` is written from `old`'s position.
    pub open spec fn wrote(&self, old: &Self, b: Seq<u8>) -> bool {
        &&& self.bytes() == overwrite(old.bytes(), old.pos(), b)
        &&& self.pos() == old.pos() + b.len()
        &&& self.bits_used() == 0
    }

    /// Whether `n` more bytes fit below `usize::MAX`.
    pub open spec fn room(&self, n: int) -> bool {
        self.pos() + n <= usize::MAX
    }

    /// Create a new WriteStream.
    pub fn new() -> (r: Self)
        ensures
            r.inv(),
            r.bytes() == Seq::<u8>::empty(),
            r.pos() == 0,
            r.bits_used() == 0,
    {
        Self { data: Vec::new(), position: 0, bit_offset: 0 }
    }

    /// Create a new WriteStream with the given capacity.
    pub fn with_capacity(capacity: usize) -> (r: Self)
        ensures
            r.inv(),
            r.bytes() == Seq::<u8>::empty(),
            r.pos() == 0,
            r.bits_used() == 0,
    {
        Self { data: Vec::with_capacity(capacity), position: 0, bit_offset: 0 }
    }

    /// Write bytes from the given buffer at the position, growing the data where
    /// they run past its end.
    pub fn write(&mut self, buf: &[u8]) -> (r: Result<usize>)
        requires
            old(self).inv(),
        ensures
            final(self).inv(),
            buf@.len() == 0 ==> r == Ok::<usize, Error>(0) && *final(self) == *old(self),
            buf@.len() > 0 && !old(self).room(buf@.len() as int) ==> r == Err::<usize, Error>(
                Error::OutOfMemory,
            ) && *final(self) == *old(self),
            buf@.len() > 0 && old(self).room(buf@.len() as int) ==> r == Ok::<usize, Error>(
                buf@.len() as usize,
            ) && final(self).wrote(old(self), buf@),
    {
        if buf.len() == 0 {
            return Ok(0);
        }
        if buf.len() > usize::MAX - self.position {
            return Err(Error::OutOfMemory);
        }
        let required = self.position + buf.len();
        while self.data.len() < required
            invariant
                old(self).inv(),
                self.position == old(self).position,
                self.bit_offset == old(self).bit_offset,
                required == self.position + buf@.len(),
                self.data@.len() >= old(self).data@.len(),
                self.data@.len() == old(self).data@.len() || self.data@.len() <= required,
                self.data@ == old(self).data@ + zeros((self.data@.len() - old(self).data@.len()) as nat),
            decreases required - self.data.len(),
        {
            self.data.push(0);
            assert(self.data@ =~= old(self).data@ + zeros((self.data@.len() - old(self).data@.len()) as nat));
        }
        let ghost grown = self.data@;
        assert(forall|j: int| 0 <= j < grown.len() ==> grown[j] == (if j < old(self).data@.len() { old(self).data@[j] } else { 0u8 }));
        assert(grown.len() == if required <= old(self).data@.len() { old(self).data@.len() as int } else { required as int });
        let mut i: usize = 0;
        while i < buf.len()
            invariant
                old(self).inv(),
                self.position == old(self).position,
                self.bit_offset == old(self).bit_offset,
                required == self.position + buf@.len(),
                required <= self.data@.len(),
                self.data@.len() == grown.len(),
                grown.len() == if required <= old(self).data@.len() { old(self).data@.len() as int } else { required as int },
                forall|j: int| 0 <= j < grown.len() ==> grown[j] == (if j < old(self).data@.len() { old(self).data@[j] } else { 0u8 }),
                i <= buf@.len(),
                forall|j: int| 0 <= j < i ==> self.data@[self.position + j] == buf@[j],
                forall|j: int| 0 <= j < grown.len() && !(self.position <= j < self.position + i)
                    ==> self.data@[j] == grown[j],
            decreases buf@.len() - i,
        {
            self.data.set(self.position + i, buf[i]);
            i = i + 1;
        }
        proof {
            let o = old(self).data@;
            let p = old(self).position as int;
            let n = buf@.len() as int;
            let ov = overwrite(o, p, buf@);
            assert(ov.len() == self.data@.len());
            assert forall|j: int| 0 <= j < ov.len() implies ov[j] == self.data@[j] by {
                if j < p {
                    assert(ov[j] == o[j]);
                    assert(self.data@[j] == grown[j]);
                } else if j < p + n {
                    assert(ov[j] == buf@[j - p]);
                    assert(self.data@[p + (j - p)] == buf@[j - p]);
                } else {
                    assert(p + n <= o.len());
                    assert(ov[j] == o[j]);
                    assert(self.data@[j] == grown[j]);
                }
            }
            assert(self.data@ =~= ov);
        }
        self.position = required;
        self.bit_offset = 0;
        Ok(buf.len())
    }

    /// Write a single byte.
    pub fn write_u8(&mut self, value: u8) -> (r: Result<()>)
        requires
            old(self).inv(),
        ensures
            final(self).inv(),
            old(self).room(1) ==> r is Ok && final(self).wrote(old(self), seq![value]),
            !old(self).room(1) ==> r == Err::<(), Error>(Error::OutOfMemory) && *final(self)
                == *old(self),
    {
        let b: [u8; 1] = [value];
        assert(b@ =~= seq![value]);
        self.write(b.as_slice())?;
        Ok(())
    }

    /// Write a 16-bit unsigned integer in big-endian format.
    pub fn write_u16(&mut self, value: u16) -> (r: Result<()>)
        requires
            old(self).inv(),
        ensures
            final(self).inv(),
            old(self).room(2) ==> r is Ok && final(self).wrote(old(self), u16_bytes(value as int)),
            !old(self).room(2) ==> r == Err::<(), Error>(Error::OutOfMemory) && *final(self)
                == *old(self),
    {
        let b: [u8; 2] = [(value / 256) as u8, (value % 256) as u8];
        assert(b@ =~= u16_bytes(value as int));
        self.write(b.as_slice())?;
        Ok(())
    }

    /// Write a 32-bit unsigned integer in big-endian format.
    pub fn write_u32(&mut self, value: u32) -> (r: Result<()>)
        requires
            old(self).inv(),
        ensures
            final(self).inv(),
            old(self).room(4) ==> r is Ok && final(self).wrote(old(self), u32_bytes(value as int)),
            !old(self).room(4) ==> r == Err::<(), Error>(Error::OutOfMemory) && *final(self)
                == *old(self),
    {
        let b: [u8; 4] = [
            (value / 16777216) as u8,
            ((value / 65536) % 256) as u8,
            ((value / 256) % 256) as u8,
            (value % 256) as u8,
        ];
        assert(b@ =~= u32_bytes(value as int));
        self.write(b.as_slice())?;
        Ok(())
    }

    /// Write a 64-bit unsigned integer in big-endian format.
    pub fn write_u64(&mut self, value: u64) -> (r: Result<()>)
        requires
            old(self).inv(),
        ensures
            final(self).inv(),
            old(self).room(8) ==> r is Ok && final(self).wrote(old(self), u64_bytes(value as int)),
            !old(self).room(8) ==> r == Err::<(), Error>(Error::OutOfMemory) && *final(self)
                == *old(self),
    {
        let hi = (value / 4294967296) as u32;
        let lo = (value % 4294967296) as u32;
        let b: [u8; 8] = [
            (hi / 16777216) as u8,
            ((hi / 65536) % 256) as u8,
            ((hi / 256) % 256) as u8,
            (hi % 256) as u8,
            (lo / 16777216) as u8,
            ((lo / 65536) % 256) as u8,
            ((lo / 256) % 256) as u8,
            (lo % 256) as u8,
        ];
        assert(b@ =~= u64_bytes(value as int));
        self.write(b.as_slice())?;
        Ok(())
    }

    /// Get the current position.
    pub fn position(&self) -> (r: usize)
        requires
            self.inv(),
        ensures
            r == self.pos(),
    {
        self.position
    }

    /// Move to `position` and extend the data with zero bytes up to there.
    fn move_to(&mut self, position: usize)
        requires
            old(self).inv(),
        ensures
            final(self).inv(),
            final(self).pos() == position,
            final(self).bits_used() == 0,
            position <= old(self).bytes().len() ==> final(self).bytes() == old(self).bytes(),
            position > old(self).bytes().len() ==> final(self).bytes() == old(self).bytes()
                + zeros((position - old(self).bytes().len()) as nat),
    {
        while self.data.len() < position
            invariant
                self.data@.len() >= old(self).data@.len(),
                self.data@.len() == old(self).data@.len() || self.data@.len() <= position,
                self.data@ == old(self).data@ + zeros((self.data@.len() - old(self).data@.len()) as nat),
            decreases position - self.data.len(),
        {
            self.data.push(0);
            assert(self.data@ =~= old(self).data@ + zeros((self.data@.len() - old(self).data@.len()) as nat));
        }
        proof {
            if position <= old(self).data@.len() {
                assert(self.data@ =~= old(self).data@);
            }
        }
        self.position = position;
        self.bit_offset = 0;
    }

    /// Set the current position; data is extended with zero bytes up to it.
    pub fn set_position(&mut self, position: usize) -> (r: Result<()>)
        requires
            old(self).inv(),
        ensures
            final(self).inv(),
            r is Ok,
            final(self).pos() == position,
            final(self).bits_used() == 0,
            position <= old(self).bytes().len() ==> final(self).bytes() == old(self).bytes(),
            position > old(self).bytes().len() ==> final(self).bytes() == old(self).bytes()
                + zeros((position - old(self).bytes().len()) as nat),
    {
        self.move_to(position);
        Ok(())
    }

    /// Get the data written so far: everything before the position.
    pub fn data(&self) -> (r: &[u8])
        requires
            self.inv(),
        ensures
            r@ == self.bytes().subrange(0, self.pos()),
    {
        slice_subrange(self.data.as_slice(), 0, self.position)
    }

    /// Take ownership of the data written so far: everything before the position.
    pub fn into_data(self) -> (r: Vec<u8>)
        requires
            self.inv(),
        ensures
            r@ == self.bytes().subrange(0, self.pos()),
    {
        let mut d = self.data;
        d.truncate(self.position);
        d
    }

    /// Write a box header with a zero size and return a marker for the later
    /// size update.
    pub fn write_box(&mut self, box_type: &[u8; 4]) -> (r: Result<BoxMarker>)
        requires
            old(self).inv(),
        ensures
            final(self).inv(),
            old(self).room(8) ==> (r matches Ok(m) && m == old(self).pos()) && final(self).wrote(
                old(self),
                u32_bytes(0) + box_type@,
            ),
            !old(self).room(8) ==> r == Err::<BoxMarker, Error>(Error::OutOfMemory) && *final(self)
                == *old(self),
    {
        if self.position > usize::MAX - 8 {
            return Err(Error::OutOfMemory);
        }
        let marker = self.position;
        let ghost s0 = *self;
        self.write_u32(0)?;
        let ghost s1 = *self;
        self.write(box_type.as_slice())?;
        proof {
            lemma_overwrite_concat(s0.bytes(), s0.pos(), u32_bytes(0), box_type@);
        }
        Ok(marker)
    }

    /// Write version and flags for a full box.
    pub fn write_version_and_flags(&mut self, version: u8, flags: u32) -> (r: Result<()>)
        requires
            old(self).inv(),
        ensures
            final(self).inv(),
            old(self).room(4) ==> r is Ok && final(self).wrote(
                old(self),
                version_flags_bytes(version, flags),
            ),
            !old(self).room(4) ==> r == Err::<(), Error>(Error::OutOfMemory) && *final(self)
                == *old(self),
    {
        if self.position > usize::MAX - 4 {
            return Err(Error::OutOfMemory);
        }
        let b: [u8; 4] = [
            version,
            ((flags / 65536) % 256) as u8,
            ((flags / 256) % 256) as u8,
            (flags % 256) as u8,
        ];
        assert(b@ =~= version_flags_bytes(version, flags));
        self.write(b.as_slice())?;
        Ok(())
    }

    /// Write a full box header (size placeholder, type, version, flags) and
    /// return a marker for the later size update.
    pub fn write_full_box(&mut self, box_type: &[u8; 4], version: u8, flags: u32) -> (r: Result<
        BoxMarker,
    >)
        requires
            old(self).inv(),
        ensures
            final(self).inv(),
            old(self).room(12) ==> (r matches Ok(m) && m == old(self).pos()) && final(self).wrote(
                old(self),
                u32_bytes(0) + box_type@ + version_flags_bytes(version, flags),
            ),
            !old(self).room(12) ==> r == Err::<BoxMarker, Error>(Error::OutOfMemory)
                && *final(self) == *old(self),
    {
        if self.position > usize::MAX - 12 {
            return Err(Error::OutOfMemory);
        }
        let ghost s0 = *self;
        let marker = self.write_box(box_type)?;
        self.write_version_and_flags(version, flags)?;
        proof {
            lemma_overwrite_concat(
                s0.bytes(),
                s0.pos(),
                u32_bytes(0) + box_type@,
                version_flags_bytes(version, flags),
            );
        }
        Ok(marker)
    }

    /// Finish a box by writing its size, the distance from its marker to the
    /// position, at the marker; the position stays where it was.
    pub fn finish_box(&mut self, marker: BoxMarker) -> (r: Result<()>)
        requires
            old(self).inv(),
            marker <= old(self).pos(),
        ensures
            final(self).inv(),
            marker + 4 <= usize::MAX ==> {
                &&& r is Ok
                &&& final(self).bytes() == overwrite(
                    old(self).bytes(),
                    marker as int,
                    u32_bytes((old(self).pos() - marker) % 0x1_0000_0000),
                )
                &&& final(self).pos() == old(self).pos()
                &&& final(self).bits_used() == 0
            },
            marker + 4 > usize::MAX ==> r == Err::<(), Error>(Error::OutOfMemory) && *final(self)
                == *old(self),
    {
        if marker > usize::MAX - 4 {
            return Err(Error::OutOfMemory);
        }
        let box_size = self.position - marker;
        let current_position = self.position;
        self.move_to(marker);
        let size_field = ((box_size as u64) % 0x1_0000_0000) as u32;
        self.write_u32(size_field)?;
        let ghost written = self.data@;
        self.move_to(current_position);
        Ok(())
    }

    /// Write a string (without null termination): its UTF-8 bytes.
    pub fn write_string(&mut self, s: &str) -> (r: Result<()>)
        requires
            old(self).inv(),
        ensures
            final(self).inv(),
            s.spec_bytes().len() == 0 ==> r is Ok && *final(self) == *old(self),
            s.spec_bytes().len() > 0 && old(self).room(s.spec_bytes().len() as int) ==> r is Ok
                && final(self).wrote(old(self), s.spec_bytes()),
            s.spec_bytes().len() > 0 && !old(self).room(s.spec_bytes().len() as int) ==> r
                == Err::<(), Error>(Error::OutOfMemory) && *final(self) == *old(self),
    {
        self.write(s.as_bytes())?;
        Ok(())
    }

    /// Write a fixed-length string: its first `len` UTF-8 bytes, padded with zero
    /// bytes to `len`.
    pub fn write_fixed_string(&mut self, s: &str, len: usize) -> (r: Result<()>)
        requires
            old(self).inv(),
        ensures
            final(self).inv(),
            ({
                let k = if s.spec_bytes().len() < len { s.spec_bytes().len() as int } else { len as int };
                &&& len == 0 ==> r is Ok && *final(self) == *old(self)
                &&& len > 0 && old(self).room(len as int) ==> r is Ok && final(self).wrote(
                    old(self),
                    s.spec_bytes().subrange(0, k) + zeros((len - k) as nat),
                )
                &&& len > 0 && !old(self).room(len as int) ==> r == Err::<(), Error>(
                    Error::OutOfMemory,
                ) && *final(self) == *old(self)
            }),
    {
        if len == 0 {
            return Ok(());
        }
        if self.position > usize::MAX - len {
            return Err(Error::OutOfMemory);
        }
        let bytes = s.as_bytes();
        let to_write = if bytes.len() < len {
            bytes.len()
        } else {
            len
        };
        let ghost s0 = *self;
        let head = slice_subrange(bytes, 0, to_write);
        self.write(head)?;
        let ghost s1 = *self;
        proof {
            if to_write == 0 {
                assert(s1.bytes() == overwrite(s0.bytes(), s0.pos(), head@)) by {
                    assert(overwrite(s0.bytes(), s0.pos(), head@) =~= s0.bytes());
                }
            }
        }
        let mut i: usize = to_write;
        while i < len
            invariant
                self.inv(),
                to_write <= i <= len,
                head@.len() == to_write,
                s0.pos() + len <= usize::MAX,
                0 <= s0.pos() <= s0.bytes().len(),
                self.pos() == s0.pos() + i,
                self.bytes() == overwrite(s0.bytes(), s0.pos(), head@ + zeros((i - to_write) as nat)),
                i > 0 ==> self.bits_used() == 0,
            decreases len - i,
        {
            let ghost before = *self;
            self.write_u8(0)?;
            proof {
                lemma_overwrite_concat(
                    s0.bytes(),
                    s0.pos(),
                    head@ + zeros((i - to_write) as nat),
                    seq![0u8],
                );
                assert(head@ + zeros((i - to_write) as nat) + seq![0u8] =~= head@ + zeros(
                    (i + 1 - to_write) as nat,
                ));
            }
            i = i + 1;
        }
        Ok(())
    }

    /// Move to a position given from the start, the end or the current
    /// position; data is extended with zero bytes up to a target beyond its end.
    /// A target before the start, or beyond `usize::MAX`, is refused.
    pub fn seek(&mut self, pos: SeekFrom) -> (r: Result<u64>)
        requires
            old(self).inv(),
        ensures
            final(self).inv(),
            ({
                let t = seek_target(pos, old(self).bytes().len() as int, old(self).pos());
                &&& 0 <= t <= usize::MAX ==> {
                    &&& r matches Ok(v) && v == t
                    &&& final(self).pos() == t
                    &&& final(self).bits_used() == 0
                    &&& t <= old(self).bytes().len() ==> final(self).bytes() == old(self).bytes()
                    &&& t > old(self).bytes().len() ==> final(self).bytes() == old(self).bytes()
                        + zeros((t - old(self).bytes().len()) as nat)
                }
                &&& !(0 <= t <= usize::MAX) ==> r == Err::<u64, Error>(
                    Error::Io(IoErrorKind::InvalidInput),
                ) && *final(self) == *old(self)
            }),
    {
        match seek_target_exec(pos, self.data.len(), self.position) {
            Some(t) => {
                self.move_to(t);
                Ok(t as u64)
            },
            None => Err(Error::Io(IoErrorKind::InvalidInput)),
        }
    }

    /// Write the bit `bit` under the cursor.
    fn write_one_bit(&mut self, bit: u8)
        requires
            old(self).inv(),
            bit <= 1,
            old(self).bits_used() == 0 ==> old(self).pos() < usize::MAX,
        ensures
            final(self).inv(),
            final(self).bytes() == set_bit(old(self).bytes(), old(self).cursor(), bit),
            final(self).cursor() == old(self).cursor() + 1,
    {
        let ghost i = old(self).cursor();
        if self.bit_offset == 0 {
            proof {
                lemma_cursor_split(i, self.position as int, 0);
                lemma_set_bit(old(self).bytes(), i, bit);
            }
            let b: [u8; 1] = [bit * 128];
            assert(b@ =~= seq![(bit * 128) as u8]);
            let _ = self.write(b.as_slice());
            self.bit_offset = 1;
        } else {
            proof {
                lemma_cursor_split(i, self.position - 1, self.bit_offset as int);
                lemma_set_bit(old(self).bytes(), i, bit);
            }
            let p = self.position - 1;
            let byte = self.data[p] | (bit << (7 - self.bit_offset));
            self.data.set(p, byte);
            self.bit_offset = if self.bit_offset == 7 {
                0
            } else {
                self.bit_offset + 1
            };
        }
    }

    /// Write the `num_bits` (at most 32) low bits of `value`, most significant first.
    pub fn write_bits_u32(&mut self, num_bits: usize, value: u32) -> (r: Result<()>)
        requires
            old(self).inv(),
        ensures
            final(self).inv(),
            num_bits > 32 ==> r == Err::<(), Error>(
                Error::InvalidParameter(ParameterError::TooManyBits),
            ) && *final(self) == *old(self),
            num_bits <= 32 && !old(self).room(4) ==> r == Err::<(), Error>(Error::OutOfMemory)
                && *final(self) == *old(self),
            num_bits <= 32 && old(self).room(4) ==> {
                let c = old(self).cursor() + num_bits;
                &&& r is Ok
                &&& final(self).bytes() == write_bits_spec(
                    old(self).bytes(),
                    old(self).cursor(),
                    value,
                    num_bits as nat,
                    num_bits as nat,
                )
                &&& final(self).cursor() == c
                &&& final(self).pos() == (c + 7) / 8
                &&& final(self).bits_used() == c % 8
            },
    {
        if num_bits > 32 {
            return Err(Error::InvalidParameter(ParameterError::TooManyBits));
        }
        if self.position > usize::MAX - 4 {
            return Err(Error::OutOfMemory);
        }
        let ghost c0 = self.cursor();
        let ghost d0 = self.bytes();
        proof {
            if self.bit_offset == 0 {
                lemma_cursor_split(c0, self.position as int, 0);
            } else {
                lemma_cursor_split(c0, self.position - 1, self.bit_offset as int);
            }
        }
        let mut k: usize = 0;
        while k < num_bits
            invariant
                self.inv(),
                k <= num_bits <= 32,
                c0 <= old(self).pos() * 8,
                old(self).pos() + 4 <= usize::MAX,
                self.cursor() == c0 + k,
                self.bytes() == write_bits_spec(d0, c0, value, num_bits as nat, k as nat),
            decreases num_bits - k,
        {
            proof {
                if self.bit_offset == 0 {
                    lemma_cursor_split(self.cursor(), self.position as int, 0);
                }
            }
            let bit = ((value >> ((num_bits - 1 - k) as u32)) & 1) as u8;
            assert(((value >> ((num_bits - 1 - k) as u32)) & 1u32) <= 1u32) by (bit_vector);
            self.write_one_bit(bit);
            k = k + 1;
        }
        proof {
            let c = c0 + num_bits;
            if self.bit_offset == 0 {
                lemma_cursor_split(c, self.position as int, 0);
            } else {
                lemma_cursor_split(c, self.position - 1, self.bit_offset as int);
            }
        }
        Ok(())
    }

    /// Write the `num_bits` (at most 16) low bits of `value`, most significant first.
    pub fn write_bits_u16(&mut self, num_bits: usize, value: u16) -> (r: Result<()>)
        requires
            old(self).inv(),
        ensures
            final(self).inv(),
            num_bits > 16 ==> r == Err::<(), Error>(
                Error::InvalidParameter(ParameterError::TooManyBits),
            ) && *final(self) == *old(self),
            num_bits <= 16 && !old(self).room(4) ==> r == Err::<(), Error>(Error::OutOfMemory)
                && *final(self) == *old(self),
            num_bits <= 16 && old(self).room(4) ==> {
                let c = old(self).cursor() + num_bits;
                &&& r is Ok
                &&& final(self).bytes() == write_bits_spec(
                    old(self).bytes(),
                    old(self).cursor(),
                    value as u32,
                    num_bits as nat,
                    num_bits as nat,
                )
                &&& final(self).cursor() == c
                &&& final(self).pos() == (c + 7) / 8
                &&& final(self).bits_used() == c % 8
            },
    {
        if num_bits > 16 {
            return Err(Error::InvalidParameter(ParameterError::TooManyBits));
        }
        self.write_bits_u32(num_bits, value as u32)
    }

    /// Write the `num_bits` (at most 8) low bits of `value`, most significant first.
    pub fn write_bits_u8(&mut self, num_bits: usize, value: u8) -> (r: Result<()>)
        requires
            old(self).inv(),
        ensures
            final(self).inv(),
            num_bits > 8 ==> r == Err::<(), Error>(
                Error::InvalidParameter(ParameterError::TooManyBits),
            ) && *final(self) == *old(self),
            num_bits <= 8 && !old(self).room(4) ==> r == Err::<(), Error>(Error::OutOfMemory)
                && *final(self) == *old(self),
            num_bits <= 8 && old(self).room(4) ==> {
                let c = old(self).cursor() + num_bits;
                &&& r is Ok
                &&& final(self).bytes() == write_bits_spec(
                    old(self).bytes(),
                    old(self).cursor(),
                    value as u32,
                    num_bits as nat,
                    num_bits as nat,
                )
                &&& final(self).cursor() == c
                &&& final(self).pos() == (c + 7) / 8
                &&& final(self).bits_used() == c % 8
            },
    {
        if num_bits > 8 {
            return Err(Error::InvalidParameter(ParameterError::TooManyBits));
        }
        self.write_bits_u32(num_bits, value as u32)
    }

    /// End the partly written byte: its unwritten bits stay zero and writing goes
    /// on at the next whole byte.
    pub fn flush_bits(&mut self) -> (r: Result<()>)
        requires
            old(self).inv(),
        ensures
            final(self).inv(),
            r is Ok,
            final(self).bytes() == old(self).bytes(),
            final(self).pos() == old(self).pos(),
            final(self).bits_used() == 0,
    {
        self.bit_offset = 0;
        Ok(())
    }

    /// Flush the stream: the data is in memory, so nothing changes.
    pub fn flush(&mut self) -> (r: Result<()>)
        ensures
            r is Ok,
            *final(self) == *old(self),
    {
        Ok(())
    }

    /// Align to the next whole byte; the same as `flush_bits`.
    pub fn byte_align(&mut self) -> (r: Result<()>)
        requires
            old(self).inv(),
        ensures
            final(self).inv(),
            r is Ok,
            final(self).bytes() == old(self).bytes(),
            final(self).pos() == old(self).pos(),
            final(self).bits_used() == 0,
    {
        self.flush_bits()
    }
}


// ---------------------------------------------------------------------------
// What a read gives back of a write.

/// The two bytes written for a 16-bit number read back as that number.
pub proof fn lemma_u16_roundtrip(v: u16)
    ensures
        be16(u16_bytes(v as int), 0) == v,
{
    let b = u16_bytes(v as int);
    assert(b[0] == v / 256);
    assert(b[1] == v % 256);
}

/// The four bytes written for a 32-bit number read back as that number.
pub proof fn lemma_u32_roundtrip(v: u32)
    ensures
        be32(u32_bytes(v as int), 0) == v,
{
    let x = v as int;
    let b = u32_bytes(x);
    assert(b[0] == x / 16777216);
    assert(b[1] == (x / 65536) % 256);
    assert(b[2] == (x / 256) % 256);
    assert(b[3] == x % 256);
    assert(x / 16777216 * 16777216 + ((x / 65536) % 256) * 65536 + ((x / 256) % 256) * 256 + x % 256 == x) by (nonlinear_arith)
        requires 0 <= x < 0x1_0000_0000;
}

/// The eight bytes written for a 64-bit number read back as that number.
pub proof fn lemma_u64_roundtrip(v: u64)
    ensures
        be64(u64_bytes(v as int), 0) == v,
{
    let x = v as int;
    let hi = x / 4294967296;
    let lo = x % 4294967296;
    assert(0 <= hi < 0x1_0000_0000) by (nonlinear_arith) requires 0 <= x < 0x1_0000_0000_0000_0000, hi == x / 4294967296;
    assert(0 <= lo < 0x1_0000_0000) by (nonlinear_arith) requires lo == x % 4294967296;
    lemma_u32_roundtrip(hi as u32);
    lemma_u32_roundtrip(lo as u32);
    let b = u64_bytes(x);
    assert(b.subrange(0, 4) =~= u32_bytes(hi));
    assert(b.subrange(4, 8) =~= u32_bytes(lo));
    assert(be32(b, 0) == be32(u32_bytes(hi), 0));
    assert(be32(b, 4) == be32(u32_bytes(lo), 0));
    assert(hi * 4294967296 + lo == x) by (nonlinear_arith) requires hi == x / 4294967296, lo == x % 4294967296;
}

/// A big-endian number read at `p` depends only on the bytes from `p` on.
proof fn lemma_be32_shift(d: Seq<u8>, p: int, b: Seq<u8>)
    requires
        0 <= p,
        p + 4 <= d.len(),
        4 <= b.len(),
        d.subrange(p, p + 4) == b.subrange(0, 4),
    ensures
        be32(d, p) == be32(b, 0),
{
    assert(d[p] == d.subrange(p, p + 4)[0]);
    assert(d[p + 1] == d.subrange(p, p + 4)[1]);
    assert(d[p + 2] == d.subrange(p, p + 4)[2]);
    assert(d[p + 3] == d.subrange(p, p + 4)[3]);
}

/// A 32-bit number written into any data at `p` reads back from `p` as itself.
pub proof fn lemma_read_back_u32(d: Seq<u8>, p: int, v: u32)
    requires
        0 <= p <= d.len(),
    ensures
        be32(overwrite(d, p, u32_bytes(v as int)), p) == v,
        overwrite(d, p, u32_bytes(v as int)).len() >= p + 4,
{
    let w = overwrite(d, p, u32_bytes(v as int));
    assert(w.subrange(p, p + 4) =~= u32_bytes(v as int));
    assert(u32_bytes(v as int).subrange(0, 4) =~= u32_bytes(v as int));
    lemma_be32_shift(w, p, u32_bytes(v as int));
    lemma_u32_roundtrip(v);
}

/// A 16-bit number written into any data at `p` reads back from `p` as itself.
pub proof fn lemma_read_back_u16(d: Seq<u8>, p: int, v: u16)
    requires
        0 <= p <= d.len(),
    ensures
        be16(overwrite(d, p, u16_bytes(v as int)), p) == v,
        overwrite(d, p, u16_bytes(v as int)).len() >= p + 2,
{
    let w = overwrite(d, p, u16_bytes(v as int));
    assert(w[p] == u16_bytes(v as int)[0]);
    assert(w[p + 1] == u16_bytes(v as int)[1]);
    lemma_u16_roundtrip(v);
}

/// A 64-bit number written into any data at `p` reads back from `p` as itself.
pub proof fn lemma_read_back_u64(d: Seq<u8>, p: int, v: u64)
    requires
        0 <= p <= d.len(),
    ensures
        be64(overwrite(d, p, u64_bytes(v as int)), p) == v,
        overwrite(d, p, u64_bytes(v as int)).len() >= p + 8,
{
    let b = u64_bytes(v as int);
    let w = overwrite(d, p, b);
    assert(w.subrange(p, p + 4) =~= b.subrange(0, 4));
    assert(w.subrange(p + 4, p + 8) =~= b.subrange(4, 8));
    lemma_be32_shift(w, p, b);
    assert(b.subrange(4, 8) =~= b.subrange(4, b.len() as int).subrange(0, 4));
    lemma_be32_shift(w, p + 4, b.subrange(4, b.len() as int));
    assert(be32(b.subrange(4, b.len() as int), 0) == be32(b, 4));
    lemma_u64_roundtrip(v);
}

/// Where the four bytes of a 32-bit number stand in `d` at `p`, the number read
/// at `p` is that number.
pub proof fn lemma_u32_at(d: Seq<u8>, p: int, v: u32)
    requires
        0 <= p,
        p + 4 <= d.len(),
        d.subrange(p, p + 4) == u32_bytes(v as int),
    ensures
        be32(d, p) == v,
{
    assert(u32_bytes(v as int).subrange(0, 4) =~= u32_bytes(v as int));
    lemma_be32_shift(d, p, u32_bytes(v as int));
    lemma_u32_roundtrip(v);
}

/// Where the eight bytes of a 64-bit number stand in `d` at `p`, the number
/// read at `p` is that number.
pub proof fn lemma_u64_at(d: Seq<u8>, p: int, v: u64)
    requires
        0 <= p,
        p + 8 <= d.len(),
        d.subrange(p, p + 8) == u64_bytes(v as int),
    ensures
        be64(d, p) == v,
{
    let b = u64_bytes(v as int);
    assert(d.subrange(p, p + 4) =~= b.subrange(0, 4));
    lemma_be32_shift(d, p, b);
    assert(d.subrange(p + 4, p + 8) =~= b.subrange(4, 8).subrange(0, 4));
    assert(b.subrange(4, 8).subrange(0, 4) =~= b.subrange(4, 8));
    lemma_be32_shift(d, p + 4, b.subrange(4, 8));
    assert(be32(b.subrange(4, 8), 0) == be32(b, 4));
    lemma_u64_roundtrip(v);
}

/// Where the two bytes of a 16-bit number stand in `d` at `p`, the number read
/// at `p` is that number.
pub proof fn lemma_u16_at(d: Seq<u8>, p: int, v: u16)
    requires
        0 <= p,
        p + 2 <= d.len(),
        d.subrange(p, p + 2) == u16_bytes(v as int),
    ensures
        be16(d, p) == v,
{
    assert(d[p] == d.subrange(p, p + 2)[0]);
    assert(d[p + 1] == d.subrange(p, p + 2)[1]);
    lemma_u16_roundtrip(v);
}

/// The big-endian bytes of 32-bit numbers, one number after the other.
#[verifier::opaque]
pub open spec fn u32s_bytes(vs: Seq<u32>) -> Seq<u8> {
    Seq::new((4 * vs.len()) as nat, |k: int| u32_bytes(vs[k / 4] as int)[k % 4])
}

/// The big-endian bytes of 64-bit numbers, one number after the other.
#[verifier::opaque]
pub open spec fn u64s_bytes(vs: Seq<u64>) -> Seq<u8> {
    Seq::new((8 * vs.len()) as nat, |k: int| u64_bytes(vs[k / 8] as int)[k % 8])
}

/// The bytes of `n` 32-bit numbers are `4 * n` bytes.
pub proof fn lemma_u32s_bytes_len(vs: Seq<u32>)
    ensures
        u32s_bytes(vs).len() == 4 * vs.len(),
{
    reveal(u32s_bytes);
}

/// The bytes of `n` 64-bit numbers are `8 * n` bytes.
pub proof fn lemma_u64s_bytes_len(vs: Seq<u64>)
    ensures
        u64s_bytes(vs).len() == 8 * vs.len(),
{
    reveal(u64s_bytes);
}

/// Where the bytes of 32-bit numbers stand in `d` from `p` on, the number read
/// at `p + 4 * i` is the `i`-th of them.
pub proof fn lemma_u32s_read_back(d: Seq<u8>, p: int, vs: Seq<u32>, i: int)
    requires
        0 <= p,
        p + 4 * vs.len() <= d.len(),
        d.subrange(p, p + 4 * vs.len()) == u32s_bytes(vs),
        0 <= i < vs.len(),
    ensures
        be32(d, p + 4 * i) == vs[i],
{
    reveal(u32s_bytes);
    let b = u32_bytes(vs[i] as int);
    assert forall|j: int| 0 <= j < 4 implies d[p + 4 * i + j] == #[trigger] b[j] by {
        let k = 4 * i + j;
        assert(k / 4 == i && k % 4 == j) by (nonlinear_arith)
            requires k == 4 * i + j, 0 <= j < 4;
        assert(0 <= k < 4 * vs.len()) by (nonlinear_arith)
            requires k == 4 * i + j, 0 <= j < 4, 0 <= i < vs.len();
        assert(d[p + k] == d.subrange(p, p + 4 * vs.len())[k]);
    }
    assert(d[p + 4 * i] == b[0]);
    assert(d[p + 4 * i + 1] == b[1]);
    assert(d[p + 4 * i + 2] == b[2]);
    assert(d[p + 4 * i + 3] == b[3]);
    lemma_u32_roundtrip(vs[i]);
}

/// Where the bytes of 64-bit numbers stand in `d` from `p` on, the number read
/// at `p + 8 * i` is the `i`-th of them.
pub proof fn lemma_u64s_read_back(d: Seq<u8>, p: int, vs: Seq<u64>, i: int)
    requires
        0 <= p,
        p + 8 * vs.len() <= d.len(),
        d.subrange(p, p + 8 * vs.len()) == u64s_bytes(vs),
        0 <= i < vs.len(),
    ensures
        be64(d, p + 8 * i) == vs[i],
{
    reveal(u64s_bytes);
    let b = u64_bytes(vs[i] as int);
    assert forall|j: int| 0 <= j < 8 implies d[p + 8 * i + j] == #[trigger] b[j] by {
        let k = 8 * i + j;
        assert(k / 8 == i && k % 8 == j) by (nonlinear_arith)
            requires k == 8 * i + j, 0 <= j < 8;
        assert(0 <= k < 8 * vs.len()) by (nonlinear_arith)
            requires k == 8 * i + j, 0 <= j < 8, 0 <= i < vs.len();
        assert(d[p + k] == d.subrange(p, p + 8 * vs.len())[k]);
    }
    let q = p + 8 * i;
    assert(d[q] == b[0] && d[q + 1] == b[1] && d[q + 2] == b[2] && d[q + 3] == b[3]);
    assert(d[q + 4] == b[4] && d[q + 5] == b[5] && d[q + 6] == b[6] && d[q + 7] == b[7]);
    assert(be32(d, q) == be32(b, 0));
    assert(be32(d, q + 4) == be32(b, 4));
    lemma_u64_roundtrip(vs[i]);
}

// ---------------------------------------------------------------------------
// What a bit read gives back of a bit write.

/// Bits can be written from bit `c` on: its byte exists or is the next one, and
/// the bits of its byte from `c` on are still zero.
pub open spec fn writable_at(d: Seq<u8>, c: int) -> bool {
    &&& 0 <= c
    &&& c / 8 <= d.len()
    &&& c % 8 != 0 ==> {
        &&& c / 8 < d.len()
        &&& forall|j: int| c <= j < (c / 8) * 8 + 8 ==> #[trigger] bit_at(d, j) == 0
    }
}

/// The bit of a byte at shift `t`, after the bit at shift `s` is or-ed in, and
/// in a fresh byte that holds `b` as its top bit.
proof fn lemma_byte_bits(x: u8, b: u8, s: u8, t: u8)
    requires
        b <= 1,
        s < 8,
        t < 8,
    ensures
        ((x | (b << s)) >> t) & 1u8 == if t == s { ((x >> t) & 1u8) | b } else { (x >> t) & 1u8 },
        ((((b * 128) as u8) >> t) & 1u8) == if t == 7 { b } else { 0u8 },
{
    assert(((x | (b << s)) >> t) & 1u8 == if t == s { ((x >> t) & 1u8) | b } else { (x >> t) & 1u8 }) by (bit_vector)
        requires b <= 1, s < 8, t < 8;
    assert(((((b * 128) as u8) >> t) & 1u8) == if t == 7 { b } else { 0u8 }) by (bit_vector)
        requires b <= 1, t < 8;
}

/// Setting bit `i` where bits can be written: that bit reads as `b`, the bits
/// before it are kept, and bits can be written from the next one on.
proof fn lemma_set_bit(d: Seq<u8>, i: int, b: u8)
    requires
        writable_at(d, i),
        b <= 1,
    ensures
        bit_at(set_bit(d, i, b), i) == b,
        forall|j: int| 0 <= j < i ==> #[trigger] bit_at(set_bit(d, i, b), j) == bit_at(d, j),
        writable_at(set_bit(d, i, b), i + 1),
{
    let e = set_bit(d, i, b);
    let q = i / 8;
    if i % 8 == 0 {
        let nb = (b * 128) as u8;
        assert(e[q] == nb);
        assert(e.len() >= q + 1);
        lemma_byte_bits(0, b, 0, 7);
        assert forall|j: int| 0 <= j < i implies #[trigger] bit_at(e, j) == bit_at(d, j) by {
            assert(j / 8 < q);
            assert(e[j / 8] == d[j / 8]);
        }
        assert forall|j: int| i + 1 <= j < ((i + 1) / 8) * 8 + 8 implies #[trigger] bit_at(e, j) == 0 by {
            assert(j / 8 == q);
            assert(1 <= j % 8 < 8);
            lemma_byte_bits(0, b, 0, (7 - j % 8) as u8);
        }
    } else {
        let s = (7 - i % 8) as u8;
        let x = d[q];
        assert(e[q] == x | (b << s));
        lemma_byte_bits(x, b, s, s);
        assert(bit_at(d, i) == 0);
        assert((0u8 | b) == b) by (bit_vector);
        assert forall|j: int| 0 <= j < i implies #[trigger] bit_at(e, j) == bit_at(d, j) by {
            if j / 8 == q {
                assert(j % 8 < i % 8);
                lemma_byte_bits(x, b, s, (7 - j % 8) as u8);
            } else {
                assert(e[j / 8] == d[j / 8]);
            }
        }
        if (i + 1) % 8 != 0 {
            assert forall|j: int| i + 1 <= j < ((i + 1) / 8) * 8 + 8 implies #[trigger] bit_at(e, j) == 0 by {
                assert(j / 8 == q);
                assert(j % 8 > i % 8);
                lemma_byte_bits(x, b, s, (7 - j % 8) as u8);
                assert(bit_at(d, j) == 0);
            }
        }
    }
}

/// Writing the first `k` of `n` bits of `v` from `c`: bit `j` reads as bit
/// `n - 1 - j` of `v`, and bits can be written after them.
proof fn lemma_write_bits(d: Seq<u8>, c: int, v: u32, n: nat, k: nat)
    requires
        writable_at(d, c),
        k <= n <= 32,
    ensures
        writable_at(write_bits_spec(d, c, v, n, k), c + k),
        forall|j: int| 0 <= j < k ==> #[trigger] bit_at(write_bits_spec(d, c, v, n, k), c + j) == ((v >> ((n - 1 - j) as u32)) & 1u32) as u8,
    decreases k,
{
    if k > 0 {
        lemma_write_bits(d, c, v, n, (k - 1) as nat);
        let w = write_bits_spec(d, c, v, n, (k - 1) as nat);
        let sh = (n - k) as u32;
        let b = ((v >> sh) & 1u32) as u8;
        assert(((v >> sh) & 1u32) <= 1u32) by (bit_vector);
        lemma_set_bit(w, c + k - 1, b);
        assert forall|j: int| 0 <= j < k implies #[trigger] bit_at(write_bits_spec(d, c, v, n, k), c + j) == ((v >> ((n - 1 - j) as u32)) & 1u32) as u8 by {
            if j < k - 1 {
                assert(bit_at(w, c + j) == ((v >> ((n - 1 - j) as u32)) & 1u32) as u8);
            }
        }
    }
}

/// `k` bits that are the top bits of an `n`-bit number `v` form `v` shifted
/// right by `n - k`, below `2^k`.
proof fn lemma_bits_value_of(s: Seq<u8>, c: int, v: u32, n: nat, k: nat)
    requires
        k <= n <= 32,
        forall|j: int| 0 <= j < k ==> #[trigger] bit_at(s, c + j) == ((v >> ((n - 1 - j) as u32)) & 1u32) as u8,
    ensures
        bits_value(s, c, k) == ((v >> ((n - k) as u32)) as int) % (pow2(k) as int),
    decreases k,
{
    if k == 0 {
        lemma2_to64();
    } else {
        lemma_bits_value_of(s, c, v, n, (k - 1) as nat);
        let a = (n - k) as u32;
        let x = v >> a;
        assert(v >> ((a + 1) as u32) == x / 2) by (bit_vector)
            requires a < 32, x == v >> a;
        assert((x & 1u32) as int == x % 2) by (bit_vector);
        assert(bit_at(s, c + (k - 1)) == ((v >> ((n - 1 - (k - 1)) as u32)) & 1u32) as u8);
        lemma_pow2_unfold(k);
        vstd::arithmetic::power2::lemma_pow2_pos((k - 1) as nat);
        vstd::arithmetic::div_mod::lemma_mod_breakdown(x as int, 2, pow2((k - 1) as nat) as int);
    }
}

/// What is written as `n` bits of `v` from a place where bits can be written is
/// read back from there as the `n` low bits of `v`.
pub proof fn lemma_bits_read_back(d: Seq<u8>, c: int, v: u32, n: nat)
    requires
        writable_at(d, c),
        n <= 32,
    ensures
        bits_value(write_bits_spec(d, c, v, n, n), c, n) == v as int % (pow2(n) as int),
        writable_at(write_bits_spec(d, c, v, n, n), c + n),
{
    lemma_write_bits(d, c, v, n, n);
    lemma_bits_value_of(write_bits_spec(d, c, v, n, n), c, v, n, n);
    assert(v >> 0u32 == v) by (bit_vector);
}

/// A writer can always write bits at its cursor: so every bit write of a
/// writer is read back from where it started.
pub proof fn lemma_writer_writable(w: &WriteStream)
    requires
        w.inv(),
    ensures
        writable_at(w.bytes(), w.cursor()),
{
    if w.bits_used() == 0 {
        lemma_cursor_split(w.cursor(), w.pos(), 0);
    }
}

} // verus!
