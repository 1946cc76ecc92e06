//! A read cursor over a borrowed byte buffer.

use vstd::prelude::*;
use vstd::slice::slice_subrange;
use crate::wire::{has_bytes, i16_at, i32_at, i64_at, i8_at, u16_at, u24_at, u32_at, u64_at};

verus! {

/// A position in a byte buffer that is borrowed for the time of the reading.
///
/// Every read either succeeds and moves the position past what was read, or
/// finds too few bytes left and leaves the position where it was.  Nothing
/// is ever read past the end of the buffer.
pub struct ReaderContext<'a> {
    input: &'a [u8],
    ptr: usize,
}

impl<'a> ReaderContext<'a> {
    /// The whole buffer.
    pub closed spec fn bytes(&self) -> Seq<u8> {
        self.input@
    }

    /// The position of the next byte to read.
    pub closed spec fn position(&self) -> int {
        self.ptr as int
    }

    /// The position lies within the buffer or at its end.
    pub closed spec fn wf(&self) -> bool {
        self.ptr <= self.input@.len()
    }

    /// The same buffer, with the position moved to `pos`.
    pub open spec fn moved_to(&self, before: &Self, pos: int) -> bool {
        &&& self.wf()
        &&& self.bytes() == before.bytes()
        &&& self.position() == pos
    }

    /// Whether `n` more bytes can be read.
    pub open spec fn has(&self, n: int) -> bool {
        has_bytes(self.bytes(), self.position(), n)
    }

    /// A well-formed cursor stands within its buffer or at its end.
    pub proof fn lemma_within(&self)
        requires
            self.wf(),
        ensures
            0 <= self.position() <= self.bytes().len(),
    {
    }

    /// A cursor at the start of `input`.
    pub fn new(input: &'a [u8]) -> (c: Self)
        ensures
            c.wf(),
            c.bytes() == input@,
            c.position() == 0,
    {
        ReaderContext { input, ptr: 0 }
    }

    /// The position of the next byte to read.
    pub fn pos(&self) -> (p: usize)
        requires
            self.wf(),
        ensures
            p == self.position(),
            p <= self.bytes().len(),
    {
        self.ptr
    }

    /// How many bytes are left.
    pub fn remaining(&self) -> (n: usize)
        requires
            self.wf(),
        ensures
            n == self.bytes().len() - self.position(),
    {
        self.input.len() - self.ptr
    }

    /// Move the position forward by `n` bytes, if that many are left.
    pub fn skip(&mut self, n: usize) -> (ok: bool)
        requires
            old(self).wf(),
        ensures
            ok == old(self).has(n as int),
            ok ==> final(self).moved_to(old(self), old(self).position() + n),
            !ok ==> final(self).moved_to(old(self), old(self).position()),
    {
        if n <= self.input.len() - self.ptr {
            self.ptr = self.ptr + n;
            true
        } else {
            false
        }
    }

    /// Take the next `n` bytes, if that many are left.
    pub fn consume(&mut self, n: usize) -> (r: Option<&'a [u8]>)
        requires
            old(self).wf(),
        ensures
            r.is_some() == old(self).has(n as int),
            match r {
                Some(taken) => taken@ == old(self).bytes().subrange(
                    old(self).position(),
                    old(self).position() + n,
                ) && final(self).moved_to(old(self), old(self).position() + n),
                None => final(self).moved_to(old(self), old(self).position()),
            },
    {
        if n <= self.input.len() - self.ptr {
            let taken = slice_subrange(self.input, self.ptr, self.ptr + n);
            self.ptr = self.ptr + n;
            Some(taken)
        } else {
            None
        }
    }

    /// Take every byte from the position to the end of the buffer.
    pub fn read_remainder(&mut self) -> (rest: &'a [u8])
        requires
            old(self).wf(),
        ensures
            rest@ == old(self).bytes().skip(old(self).position()),
            final(self).moved_to(old(self), old(self).bytes().len() as int),
    {
        let rest = slice_subrange(self.input, self.ptr, self.input.len());
        self.ptr = self.input.len();
        rest
    }

    /// Read an unsigned 8-bit integer.
    pub fn read_u8(&mut self) -> (r: Option<u8>)
        requires
            old(self).wf(),
        ensures
            r.is_some() == old(self).has(1),
            match r {
                Some(v) => v == old(self).bytes()[old(self).position()] && final(self).moved_to(
                    old(self),
                    old(self).position() + 1,
                ),
                None => final(self).moved_to(old(self), old(self).position()),
            },
    {
        if 1 <= self.input.len() - self.ptr {
            let v = self.input[self.ptr];
            self.ptr = self.ptr + 1;
            Some(v)
        } else {
            None
        }
    }

    /// Read an unsigned 16-bit integer.
    pub fn read_u16(&mut self) -> (r: Option<u16>)
        requires
            old(self).wf(),
        ensures
            r.is_some() == old(self).has(2),
            match r {
                Some(v) => v == u16_at(old(self).bytes(), old(self).position())
                    && final(self).moved_to(old(self), old(self).position() + 2),
                None => final(self).moved_to(old(self), old(self).position()),
            },
    {
        if 2 <= self.input.len() - self.ptr {
            let b0 = self.input[self.ptr] as u16;
            let b1 = self.input[self.ptr + 1] as u16;
            self.ptr = self.ptr + 2;
            Some(b0 * 0x100 + b1)
        } else {
            None
        }
    }

    /// Read an unsigned 24-bit integer.
    pub fn read_u24(&mut self) -> (r: Option<u32>)
        requires
            old(self).wf(),
        ensures
            r.is_some() == old(self).has(3),
            match r {
                Some(v) => v == u24_at(old(self).bytes(), old(self).position()) && v < 0x100_0000
                    && final(self).moved_to(old(self), old(self).position() + 3),
                None => final(self).moved_to(old(self), old(self).position()),
            },
    {
        if 3 <= self.input.len() - self.ptr {
            let b0 = self.input[self.ptr] as u32;
            let b1 = self.input[self.ptr + 1] as u32;
            let b2 = self.input[self.ptr + 2] as u32;
            self.ptr = self.ptr + 3;
            Some(b0 * 0x1_0000 + b1 * 0x100 + b2)
        } else {
            None
        }
    }

    /// Read an unsigned 32-bit integer.
    pub fn read_u32(&mut self) -> (r: Option<u32>)
        requires
            old(self).wf(),
        ensures
            r.is_some() == old(self).has(4),
            match r {
                Some(v) => v == u32_at(old(self).bytes(), old(self).position())
                    && final(self).moved_to(old(self), old(self).position() + 4),
                None => final(self).moved_to(old(self), old(self).position()),
            },
    {
        if 4 <= self.input.len() - self.ptr {
            let b0 = self.input[self.ptr] as u32;
            let b1 = self.input[self.ptr + 1] as u32;
            let b2 = self.input[self.ptr + 2] as u32;
            let b3 = self.input[self.ptr + 3] as u32;
            self.ptr = self.ptr + 4;
            Some(b0 * 0x100_0000 + b1 * 0x1_0000 + b2 * 0x100 + b3)
        } else {
            None
        }
    }

    /// Read an unsigned 64-bit integer.
    pub fn read_u64(&mut self) -> (r: Option<u64>)
        requires
            old(self).wf(),
        ensures
            r.is_some() == old(self).has(8),
            match r {
                Some(v) => v == u64_at(old(self).bytes(), old(self).position())
                    && final(self).moved_to(old(self), old(self).position() + 8),
                None => final(self).moved_to(old(self), old(self).position()),
            },
    {
        if 8 <= self.input.len() - self.ptr {
            let high = match self.read_u32() {
                Some(v) => v as u64,
                None => { return None; },
            };
            let low = match self.read_u32() {
                Some(v) => v as u64,
                None => { return None; },
            };
            Some(high * 0x1_0000_0000 + low)
        } else {
            None
        }
    }

    /// Read a signed 8-bit integer.
    pub fn read_i8(&mut self) -> (r: Option<i8>)
        requires
            old(self).wf(),
        ensures
            r.is_some() == old(self).has(1),
            match r {
                Some(v) => v == i8_at(old(self).bytes(), old(self).position())
                    && final(self).moved_to(old(self), old(self).position() + 1),
                None => final(self).moved_to(old(self), old(self).position()),
            },
    {
        match self.read_u8() {
            Some(u) => Some(
                if u < 0x80 {
                    u as i8
                } else {
                    (u as i16 - 0x100) as i8
                },
            ),
            None => None,
        }
    }

    /// Read a signed 16-bit integer.
    pub fn read_i16(&mut self) -> (r: Option<i16>)
        requires
            old(self).wf(),
        ensures
            r.is_some() == old(self).has(2),
            match r {
                Some(v) => v == i16_at(old(self).bytes(), old(self).position())
                    && final(self).moved_to(old(self), old(self).position() + 2),
                None => final(self).moved_to(old(self), old(self).position()),
            },
    {
        match self.read_u16() {
            Some(u) => Some(
                if u < 0x8000 {
                    u as i16
                } else {
                    (u as i32 - 0x1_0000) as i16
                },
            ),
            None => None,
        }
    }

    /// Read a signed 32-bit integer.
    pub fn read_i32(&mut self) -> (r: Option<i32>)
        requires
            old(self).wf(),
        ensures
            r.is_some() == old(self).has(4),
            match r {
                Some(v) => v == i32_at(old(self).bytes(), old(self).position())
                    && final(self).moved_to(old(self), old(self).position() + 4),
                None => final(self).moved_to(old(self), old(self).position()),
            },
    {
        match self.read_u32() {
            Some(u) => Some(
                if u < 0x8000_0000 {
                    u as i32
                } else {
                    (u as i64 - 0x1_0000_0000) as i32
                },
            ),
            None => None,
        }
    }

    /// Read a signed 64-bit integer.
    pub fn read_i64(&mut self) -> (r: Option<i64>)
        requires
            old(self).wf(),
        ensures
            r.is_some() == old(self).has(8),
            match r {
                Some(v) => v == i64_at(old(self).bytes(), old(self).position())
                    && final(self).moved_to(old(self), old(self).position() + 8),
                None => final(self).moved_to(old(self), old(self).position()),
            },
    {
        match self.read_u64() {
            Some(u) => Some(
                if u < 0x8000_0000_0000_0000 {
                    u as i64
                } else {
                    (u as i128 - 0x1_0000_0000_0000_0000) as i64
                },
            ),
            None => None,
        }
    }
}

} // verus!
