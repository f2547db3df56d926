//! A read position over the octets of one message.

use crate::wire;
use vstd::prelude::*;
use vstd::slice::slice_subrange;

verus! {

/// A buffer of octets and a position in it. Compression pointers are
/// offsets into the whole buffer, so a decoder keeps both.
#[derive(Debug, Clone, Copy)]
pub struct Cursor<'a> {
    pub bytes: &'a [u8],
    pub pos: usize,
}

/// The number of octets of `buf` from `pos` on.
pub open spec fn spec_remaining(buf: Seq<u8>, pos: int) -> int {
    if 0 <= pos <= buf.len() {
        buf.len() - pos
    } else {
        0
    }
}

/// Whether `buf` holds `n` octets from `pos` on.
pub open spec fn spec_has(buf: Seq<u8>, pos: int, n: int) -> bool {
    0 <= pos && 0 <= n && pos + n <= buf.len()
}

impl<'a> Cursor<'a> {
    /// A cursor at the start of `bytes`.
    pub fn new(bytes: &'a [u8]) -> (c: Self)
        ensures
            c.bytes@ == bytes@,
            c.pos == 0,
    {
        Cursor { bytes, pos: 0 }
    }

    /// The current position.
    pub fn position(&self) -> (p: usize)
        ensures
            p == self.pos,
    {
        self.pos
    }

    /// Moves to `pos`, which may lie past the end.
    pub fn set_position(&mut self, pos: usize)
        ensures
            final(self).pos == pos,
            final(self).bytes == old(self).bytes,
    {
        self.pos = pos;
    }

    /// The whole buffer.
    pub fn get_ref(&self) -> (b: &'a [u8])
        ensures
            b == self.bytes,
    {
        self.bytes
    }

    /// The number of octets from the position on.
    pub fn remaining(&self) -> (n: usize)
        ensures
            n == spec_remaining(self.bytes@, self.pos as int),
    {
        if self.pos <= self.bytes.len() {
            self.bytes.len() - self.pos
        } else {
            0
        }
    }

    /// Whether `n` octets are left from the position on.
    pub fn has(&self, n: usize) -> (b: bool)
        ensures
            b == spec_has(self.bytes@, self.pos as int, n as int),
            b ==> self.pos + n <= usize::MAX,
    {
        self.pos <= self.bytes.len() && self.bytes.len() - self.pos >= n
    }

    /// Reads one octet and steps over it; `None`, and no step, at the end.
    pub fn read_u8(&mut self) -> (r: Option<u8>)
        ensures
            final(self).bytes == old(self).bytes,
            spec_has(old(self).bytes@, old(self).pos as int, 1) ==> r == Some(
                old(self).bytes@[old(self).pos as int],
            ) && final(self).pos == old(self).pos + 1,
            !spec_has(old(self).bytes@, old(self).pos as int, 1) ==> r.is_none()
                && final(self).pos == old(self).pos,
    {
        if !self.has(1) {
            return None;
        }
        let b: u8 = self.bytes[self.pos];
        self.pos = self.pos + 1;
        Some(b)
    }

    /// Reads a 16-bit number in network order and steps over it; `None`, and
    /// no step, where fewer than two octets are left.
    pub fn read_u16(&mut self) -> (r: Option<u16>)
        ensures
            final(self).bytes == old(self).bytes,
            spec_has(old(self).bytes@, old(self).pos as int, 2) ==> r.is_some()
                && r.unwrap() == wire::spec_u16_at(old(self).bytes@, old(self).pos as int)
                && final(self).pos == old(self).pos + 2,
            !spec_has(old(self).bytes@, old(self).pos as int, 2) ==> r.is_none()
                && final(self).pos == old(self).pos,
    {
        if !self.has(2) {
            return None;
        }
        let n: u16 = wire::read_u16(slice_subrange(self.bytes, self.pos, self.pos + 2));
        self.pos = self.pos + 2;
        Some(n)
    }

    /// Reads a 32-bit number in network order and steps over it; `None`, and
    /// no step, where fewer than four octets are left.
    pub fn read_u32(&mut self) -> (r: Option<u32>)
        ensures
            final(self).bytes == old(self).bytes,
            spec_has(old(self).bytes@, old(self).pos as int, 4) ==> r.is_some()
                && r.unwrap() == wire::spec_u32_at(old(self).bytes@, old(self).pos as int)
                && final(self).pos == old(self).pos + 4,
            !spec_has(old(self).bytes@, old(self).pos as int, 4) ==> r.is_none()
                && final(self).pos == old(self).pos,
    {
        if !self.has(4) {
            return None;
        }
        let n: u32 = wire::read_u32(slice_subrange(self.bytes, self.pos, self.pos + 4));
        self.pos = self.pos + 4;
        Some(n)
    }

    /// Reads `n` octets and steps over them; `None`, and no step, where
    /// fewer are left.
    pub fn read_bytes(&mut self, n: usize) -> (r: Option<Vec<u8>>)
        ensures
            final(self).bytes == old(self).bytes,
            spec_has(old(self).bytes@, old(self).pos as int, n as int) ==> r.is_some()
                && r.unwrap()@ == old(self).bytes@.subrange(
                old(self).pos as int,
                old(self).pos + n,
            ) && final(self).pos == old(self).pos + n,
            !spec_has(old(self).bytes@, old(self).pos as int, n as int) ==> r.is_none()
                && final(self).pos == old(self).pos,
    {
        if !self.has(n) {
            return None;
        }
        let mut out: Vec<u8> = Vec::new();
        out.extend_from_slice(slice_subrange(self.bytes, self.pos, self.pos + n));
        self.pos = self.pos + n;
        Some(out)
    }
}

} // verus!
