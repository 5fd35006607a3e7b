use vstd::prelude::*;

use crate::errors::FileSystemError;

verus! {

/// The byte at position `i`, or zero past the end.  File reads in the cache
/// leave unread bytes of a pre-zeroed buffer at zero, so out-of-range
/// positions read as zero.
pub open spec fn byte_at(data: Seq<u8>, i: int) -> u8 {
    if 0 <= i < data.len() {
        data[i]
    } else {
        0
    }
}

/// Big-endian 16-bit unsigned integer at position `i`, zero-padded past the end.
pub open spec fn be_u16_at(data: Seq<u8>, i: int) -> int {
    byte_at(data, i) * 0x100 + byte_at(data, i + 1)
}

/// Big-endian 24-bit unsigned integer at position `i`, zero-padded past the end.
pub open spec fn be_u24_at(data: Seq<u8>, i: int) -> int {
    byte_at(data, i) * 0x10000 + byte_at(data, i + 1) * 0x100 + byte_at(data, i + 2)
}

/// Big-endian 32-bit unsigned integer at position `i`, zero-padded past the end.
pub open spec fn be_u32_at(data: Seq<u8>, i: int) -> int {
    byte_at(data, i) * 0x1000000 + byte_at(data, i + 1) * 0x10000 + byte_at(data, i + 2) * 0x100
        + byte_at(data, i + 3)
}

/// Reinterprets a 32-bit unsigned value as a two's-complement signed value.
pub open spec fn as_signed_32(v: int) -> int {
    if v >= 0x8000_0000 {
        v - 0x1_0000_0000
    } else {
        v
    }
}

/// Reads one byte, yielding zero past the end of the data.
pub fn padded_byte(data: &Vec<u8>, i: u64) -> (r: u8)
    ensures
        r == byte_at(data@, i as int),
{
    if i < data.len() as u64 {
        data[i as usize]
    } else {
        0
    }
}

/// Reads a big-endian 16-bit unsigned integer, zero-padded past the end.
pub fn read_be_u16_padded(data: &Vec<u8>, i: u64) -> (r: u32)
    requires
        i + 1 <= u64::MAX,
    ensures
        r == be_u16_at(data@, i as int),
{
    let b0 = padded_byte(data, i);
    let b1 = padded_byte(data, i + 1);
    (b0 as u32) * 0x100 + (b1 as u32)
}

/// Reads a big-endian 24-bit unsigned integer, zero-padded past the end.
pub fn read_be_u24_padded(data: &Vec<u8>, i: u64) -> (r: u32)
    requires
        i + 2 <= u64::MAX,
    ensures
        r == be_u24_at(data@, i as int),
{
    let b0 = padded_byte(data, i);
    let b1 = padded_byte(data, i + 1);
    let b2 = padded_byte(data, i + 2);
    (b0 as u32) * 0x10000 + (b1 as u32) * 0x100 + (b2 as u32)
}

/// Reads a big-endian 32-bit unsigned integer, zero-padded past the end.
pub fn read_be_u32_padded(data: &Vec<u8>, i: u64) -> (r: u32)
    requires
        i + 3 <= u64::MAX,
    ensures
        r == be_u32_at(data@, i as int),
{
    let b0 = padded_byte(data, i);
    let b1 = padded_byte(data, i + 1);
    let b2 = padded_byte(data, i + 2);
    let b3 = padded_byte(data, i + 3);
    (b0 as u32) * 0x1000000 + (b1 as u32) * 0x10000 + (b2 as u32) * 0x100 + (b3 as u32)
}

/// An in-memory cursor over a byte buffer, reading multi-byte big-endian
/// values front to back.
pub struct ByteBuffer {
    data: Vec<u8>,
    pos: usize,
}

/// Extension trait offering the cache's unusual 24-bit ("tri-byte") read.
pub trait ByteBufferExt {
    spec fn spec_data(&self) -> Seq<u8>;

    spec fn spec_pos(&self) -> int;

    /// Reads a big-endian 24-bit unsigned integer and advances the cursor.
    fn read_tri_byte(&mut self) -> (r: Result<u32, FileSystemError>)
        ensures
            old(self).spec_pos() + 3 <= old(self).spec_data().len() ==> {
                &&& r == Ok::<u32, FileSystemError>(
                    be_u24_at(old(self).spec_data(), old(self).spec_pos()) as u32,
                )
                &&& final(self).spec_data() == old(self).spec_data()
                &&& final(self).spec_pos() == old(self).spec_pos() + 3
            },
            old(self).spec_pos() + 3 > old(self).spec_data().len() ==> {
                &&& r == Err::<u32, FileSystemError>(FileSystemError::Io)
                &&& final(self).spec_data() == old(self).spec_data()
                &&& final(self).spec_pos() == old(self).spec_pos()
            },
    ;
}

impl ByteBufferExt for ByteBuffer {
    closed spec fn spec_data(&self) -> Seq<u8> {
        self.data@
    }

    closed spec fn spec_pos(&self) -> int {
        self.pos as int
    }

    fn read_tri_byte(&mut self) -> (r: Result<u32, FileSystemError>) {
        if self.data.len() < 3 || self.pos > self.data.len() - 3 {
            return Err(FileSystemError::Io);
        }
        let b0 = self.data[self.pos];
        let b1 = self.data[self.pos + 1];
        let b2 = self.data[self.pos + 2];
        self.pos = self.pos + 3;
        Ok((b0 as u32) * 0x10000 + (b1 as u32) * 0x100 + (b2 as u32))
    }
}

impl ByteBuffer {
    /// Wraps a byte buffer with the cursor at its start.
    pub fn new(data: Vec<u8>) -> (r: ByteBuffer)
        ensures
            r.spec_data() == data@,
            r.spec_pos() == 0,
    {
        ByteBuffer { data, pos: 0 }
    }

    /// The number of bytes left in front of the cursor.
    pub fn remaining(&self) -> (r: usize)
        ensures
            r == if self.spec_pos() <= self.spec_data().len() {
                self.spec_data().len() - self.spec_pos()
            } else {
                0
            },
    {
        if self.pos <= self.data.len() {
            self.data.len() - self.pos
        } else {
            0
        }
    }

    /// Reads one byte and advances the cursor.
    pub fn read_u8(&mut self) -> (r: Result<u8, FileSystemError>)
        ensures
            old(self).spec_pos() + 1 <= old(self).spec_data().len() ==> {
                &&& r == Ok::<u8, FileSystemError>(byte_at(old(self).spec_data(), old(self).spec_pos()))
                &&& final(self).spec_data() == old(self).spec_data()
                &&& final(self).spec_pos() == old(self).spec_pos() + 1
            },
            old(self).spec_pos() + 1 > old(self).spec_data().len() ==> {
                &&& r == Err::<u8, FileSystemError>(FileSystemError::Io)
                &&& *final(self) == *old(self)
            },
    {
        if self.data.len() < 1 || self.pos > self.data.len() - 1 {
            return Err(FileSystemError::Io);
        }
        let b = self.data[self.pos];
        self.pos = self.pos + 1;
        Ok(b)
    }

    /// Reads a big-endian 16-bit unsigned integer and advances the cursor.
    pub fn read_u16(&mut self) -> (r: Result<u16, FileSystemError>)
        ensures
            old(self).spec_pos() + 2 <= old(self).spec_data().len() ==> {
                &&& r == Ok::<u16, FileSystemError>(
                    be_u16_at(old(self).spec_data(), old(self).spec_pos()) as u16,
                )
                &&& final(self).spec_data() == old(self).spec_data()
                &&& final(self).spec_pos() == old(self).spec_pos() + 2
            },
            old(self).spec_pos() + 2 > old(self).spec_data().len() ==> {
                &&& r == Err::<u16, FileSystemError>(FileSystemError::Io)
                &&& *final(self) == *old(self)
            },
    {
        if self.data.len() < 2 || self.pos > self.data.len() - 2 {
            return Err(FileSystemError::Io);
        }
        let b0 = self.data[self.pos];
        let b1 = self.data[self.pos + 1];
        self.pos = self.pos + 2;
        Ok((b0 as u16) * 0x100 + (b1 as u16))
    }

    /// Reads a big-endian 32-bit signed integer and advances the cursor.
    pub fn read_i32(&mut self) -> (r: Result<i32, FileSystemError>)
        ensures
            old(self).spec_pos() + 4 <= old(self).spec_data().len() ==> {
                &&& r == Ok::<i32, FileSystemError>(
                    as_signed_32(be_u32_at(old(self).spec_data(), old(self).spec_pos())) as i32,
                )
                &&& final(self).spec_data() == old(self).spec_data()
                &&& final(self).spec_pos() == old(self).spec_pos() + 4
            },
            old(self).spec_pos() + 4 > old(self).spec_data().len() ==> {
                &&& r == Err::<i32, FileSystemError>(FileSystemError::Io)
                &&& *final(self) == *old(self)
            },
    {
        if self.data.len() < 4 || self.pos > self.data.len() - 4 {
            return Err(FileSystemError::Io);
        }
        let b0 = self.data[self.pos];
        let b1 = self.data[self.pos + 1];
        let b2 = self.data[self.pos + 2];
        let b3 = self.data[self.pos + 3];
        self.pos = self.pos + 4;
        let v: u32 = (b0 as u32) * 0x1000000 + (b1 as u32) * 0x10000 + (b2 as u32) * 0x100
            + (b3 as u32);
        if v >= 0x8000_0000 {
            let flipped: u32 = 0xffff_ffffu32 - v;
            Ok(-(flipped as i32) - 1)
        } else {
            Ok(v as i32)
        }
    }

    /// Reads `n` bytes verbatim and advances the cursor.
    pub fn read_bytes(&mut self, n: usize) -> (r: Result<Vec<u8>, FileSystemError>)
        ensures
            old(self).spec_pos() + n <= old(self).spec_data().len() ==> {
                &&& r matches Ok(v) && v@ == old(self).spec_data().subrange(
                    old(self).spec_pos(),
                    old(self).spec_pos() + n,
                )
                &&& final(self).spec_data() == old(self).spec_data()
                &&& final(self).spec_pos() == old(self).spec_pos() + n
            },
            old(self).spec_pos() + n > old(self).spec_data().len() ==> {
                &&& r == Err::<Vec<u8>, FileSystemError>(FileSystemError::Io)
                &&& *final(self) == *old(self)
            },
    {
        if n > self.data.len() || self.pos > self.data.len() - n {
            return Err(FileSystemError::Io);
        }
        let mut out: Vec<u8> = Vec::new();
        let start = self.pos;
        for j in 0..n
            invariant
                start + n <= self.data.len(),
                out@ =~= self.data@.subrange(start as int, start + j),
                self.pos == start,
        {
            out.push(self.data[start + j]);
            assert(out@ =~= self.data@.subrange(start as int, start + j + 1));
        }
        self.pos = self.pos + n;
        Ok(out)
    }
}

} // verus!
