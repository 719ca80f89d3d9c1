//! A forward-only reader over a byte buffer, and the matching big-endian
//! write helpers for building packets. Every multi-byte integer on the DNS
//! wire is big-endian.

use vstd::prelude::*;

use crate::wire::WireError;

verus! {

/// The 16-bit value that two bytes spell in big-endian order.
pub open spec fn be16(hi: u8, lo: u8) -> u16 {
    ((hi as int) * 256 + (lo as int)) as u16
}

/// The 32-bit value that four bytes spell in big-endian order.
pub open spec fn be32(b0: u8, b1: u8, b2: u8, b3: u8) -> u32 {
    ((b0 as int) * 0x1000000 + (b1 as int) * 0x10000 + (b2 as int) * 256 + (b3 as int)) as u32
}

/// The two bytes that spell a 16-bit value in big-endian order.
pub open spec fn be16_bytes(v: u16) -> Seq<u8> {
    seq![(v / 256) as u8, (v % 256) as u8]
}

/// Writing a 16-bit value and reading it back is the identity.
pub proof fn lemma_be16_roundtrip(v: u16)
    ensures
        be16(be16_bytes(v)[0], be16_bytes(v)[1]) == v,
{
}

/// A reader that walks forward over a borrowed byte buffer. The position is
/// public: name decompression reports and follows absolute offsets.
pub struct Cursor<'a> {
    /// The whole message being decoded.
    pub buf: &'a [u8],
    /// The offset of the next byte to be read.
    pub pos: usize,
}

impl<'a> Cursor<'a> {
    /// A cursor at the start of the given buffer.
    pub fn new(buf: &'a [u8]) -> (c: Cursor<'a>)
        ensures
            c.buf@ == buf@,
            c.pos == 0,
    {
        Cursor { buf, pos: 0 }
    }

    /// Reads one byte and advances past it; the buffer running out is the
    /// only failure.
    pub fn read_u8(&mut self) -> (r: Result<u8, WireError>)
        ensures
            final(self).buf@ == old(self).buf@,
            old(self).pos < old(self).buf@.len() ==> r == Ok::<u8, WireError>(
                old(self).buf@[old(self).pos as int],
            ) && final(self).pos == old(self).pos + 1,
            old(self).pos >= old(self).buf@.len() ==> r == Err::<u8, WireError>(WireError::IO)
                && final(self).pos == old(self).pos,
    {
        if self.pos < self.buf.len() {
            let b = self.buf[self.pos];
            self.pos = self.pos + 1;
            Ok(b)
        } else {
            Err(WireError::IO)
        }
    }

    /// Reads a big-endian 16-bit value, advancing two bytes.
    pub fn read_u16(&mut self) -> (r: Result<u16, WireError>)
        ensures
            final(self).buf@ == old(self).buf@,
            old(self).pos + 2 <= old(self).buf@.len() ==> r == Ok::<u16, WireError>(
                be16(old(self).buf@[old(self).pos as int], old(self).buf@[old(self).pos + 1]),
            ) && final(self).pos == old(self).pos + 2,
            old(self).pos + 2 > old(self).buf@.len() ==> r == Err::<u16, WireError>(WireError::IO)
                && final(self).pos == if old(self).pos < old(self).buf@.len() {
                old(self).buf@.len() as usize
            } else {
                old(self).pos
            },
    {
        let hi = self.read_u8()?;
        let lo = self.read_u8()?;
        Ok(be16_exec(hi, lo))
    }

    /// Reads exactly `n` raw bytes, advancing past them; if fewer are left,
    /// nothing is consumed and the read fails.
    pub fn read_bytes(&mut self, n: u16) -> (r: Result<Vec<u8>, WireError>)
        ensures
            final(self).buf@ == old(self).buf@,
            old(self).pos + n <= old(self).buf@.len() ==> (r matches Ok(v) && v@ == old(
                self,
            ).buf@.subrange(old(self).pos as int, old(self).pos + n) && final(self).pos == old(
                self,
            ).pos + n),
            old(self).pos + n > old(self).buf@.len() ==> r == Err::<Vec<u8>, WireError>(
                WireError::IO,
            ) && final(self).pos == old(self).pos,
    {
        let count = n as usize;
        if count > self.buf.len() || self.pos > self.buf.len() - count {
            return Err(WireError::IO);
        }
        let buf_len = self.buf.len();
        let mut v: Vec<u8> = Vec::new();
        let mut i: usize = 0;
        while i < count
            invariant
                self.buf@ == old(self).buf@,
                self.pos == old(self).pos,
                i <= count,
                buf_len == self.buf@.len(),
                self.pos + count <= buf_len,
                v@ == self.buf@.subrange(self.pos as int, self.pos + i),
            decreases count - i,
        {
            let byte = self.buf[self.pos + i];
            v.push(byte);
            proof {
                assert(self.buf@.subrange(self.pos as int, self.pos + i + 1) =~= self.buf@.subrange(
                    self.pos as int,
                    self.pos + i,
                ).push(byte));
            }
            i = i + 1;
        }
        self.pos = self.pos + count;
        Ok(v)
    }

    /// Reads a big-endian 32-bit value, advancing four bytes.
    pub fn read_u32(&mut self) -> (r: Result<u32, WireError>)
        ensures
            final(self).buf@ == old(self).buf@,
            old(self).pos + 4 <= old(self).buf@.len() ==> r == Ok::<u32, WireError>(
                be32(
                    old(self).buf@[old(self).pos as int],
                    old(self).buf@[old(self).pos + 1],
                    old(self).buf@[old(self).pos + 2],
                    old(self).buf@[old(self).pos + 3],
                ),
            ) && final(self).pos == old(self).pos + 4,
            old(self).pos + 4 > old(self).buf@.len() ==> r == Err::<u32, WireError>(WireError::IO)
                && final(self).pos == if old(self).pos < old(self).buf@.len() {
                old(self).buf@.len() as usize
            } else {
                old(self).pos
            },
    {
        let b0 = self.read_u8()?;
        let b1 = self.read_u8()?;
        let b2 = self.read_u8()?;
        let b3 = self.read_u8()?;
        let hi: u32 = (be16_exec(b0, b1) as u32) * 0x10000;
        let lo: u32 = be16_exec(b2, b3) as u32;
        assert(hi + lo == be32(b0, b1, b2, b3));
        Ok(hi + lo)
    }
}

/// The 16-bit value of two big-endian bytes, as executable code.
pub fn be16_exec(hi: u8, lo: u8) -> (v: u16)
    ensures
        v == be16(hi, lo),
{
    (hi as u16) * 256 + (lo as u16)
}

/// Appends every byte of `v`, in order.
pub fn write_all(out: &mut Vec<u8>, v: &Vec<u8>)
    ensures
        final(out)@ == old(out)@ + v@,
{
    let ghost before = out@;
    let mut i: usize = 0;
    while i < v.len()
        invariant
            i <= v@.len(),
            out@ == before + v@.take(i as int),
        decreases v@.len() - i,
    {
        let byte = v[i];
        out.push(byte);
        proof {
            assert(v@.take(i + 1) =~= v@.take(i as int).push(byte));
        }
        i = i + 1;
    }
    proof {
        assert(before + v@.take(v@.len() as int) =~= before + v@);
    }
}

/// Appends a 16-bit value in big-endian order.
pub fn write_u16(out: &mut Vec<u8>, v: u16)
    ensures
        final(out)@ == old(out)@ + be16_bytes(v),
{
    out.push((v / 256) as u8);
    out.push((v % 256) as u8);
    assert(out@ =~= old(out)@ + be16_bytes(v));
}

} // verus!
