//! A little-endian cursor over a byte slice, used by the RIFF based parsers.

use vstd::prelude::*;

verus! {

/// Little-endian value of two bytes.
pub open spec fn le_u16(b0: u8, b1: u8) -> int {
    b0 + 256 * b1
}

/// Little-endian value of four bytes.
pub open spec fn le_u32(b0: u8, b1: u8, b2: u8, b3: u8) -> int {
    b0 + 256 * b1 + 65536 * b2 + 16777216 * b3
}

/// The unsigned 16-bit word at `at` in `s`.
pub open spec fn u16_at(s: Seq<u8>, at: int) -> int {
    le_u16(s[at], s[at + 1])
}

/// The unsigned 32-bit word at `at` in `s`.
pub open spec fn u32_at(s: Seq<u8>, at: int) -> int {
    le_u32(s[at], s[at + 1], s[at + 2], s[at + 3])
}

/// Two's complement reading of a 16-bit word.
pub open spec fn as_signed16(u: int) -> int {
    if u < 32768 { u } else { u - 65536 }
}

/// Two's complement reading of a byte.
pub open spec fn as_signed8(u: int) -> int {
    if u < 128 { u } else { u - 256 }
}

/// Converts a 16-bit word to its two's complement value.
pub fn u16_to_i16(u: u16) -> (r: i16)
    ensures
        r == as_signed16(u as int),
{
    if u < 32768 {
        u as i16
    } else {
        (u as i32 - 65536) as i16
    }
}

/// Converts a byte to its two's complement value.
pub fn u8_to_i8(u: u8) -> (r: i8)
    ensures
        r == as_signed8(u as int),
{
    if u < 128 {
        u as i8
    } else {
        (u as i16 - 256) as i8
    }
}

/// The unsigned 16-bit word at `at`.
pub fn get_u16(s: &[u8], at: usize) -> (r: u16)
    requires
        at + 2 <= s@.len(),
    ensures
        r == u16_at(s@, at as int),
{
    s[at] as u16 + 256 * s[at + 1] as u16
}

/// The unsigned 32-bit word at `at`.
pub fn get_u32(s: &[u8], at: usize) -> (r: u32)
    requires
        at + 4 <= s@.len(),
    ensures
        r == u32_at(s@, at as int),
{
    s[at] as u32 + 256 * s[at + 1] as u32 + 65536 * s[at + 2] as u32 + 16777216 * s[at + 3] as u32
}

/// The whole records of `size` bytes at the start of `body`, in order; a
/// trailing partial record is left out.
pub open spec fn records(body: Seq<u8>, size: int) -> Seq<Seq<u8>>
    recommends
        size > 0,
{
    Seq::new(((body.len() as int) / size) as nat, |i: int| body.subrange(i * size, i * size + size))
}

/// Four bytes as a chunk identifier.
pub open spec fn fourcc(a: u8, b: u8, c: u8, d: u8) -> Seq<u8> {
    seq![a, b, c, d]
}

/// Compares a chunk identifier with a tag.
pub fn fourcc_is(id: &[u8; 4], a: u8, b: u8, c: u8, d: u8) -> (r: bool)
    ensures
        r == (id@ == fourcc(a, b, c, d)),
{
    let r = id[0] == a && id[1] == b && id[2] == c && id[3] == d;
    if r {
        assert(id@ =~= fourcc(a, b, c, d));
    } else {
        assert(id@ != fourcc(a, b, c, d) || r) by {
            if id@ == fourcc(a, b, c, d) {
                assert(id@[0] == a && id@[1] == b && id@[2] == c && id@[3] == d);
            }
        }
    }
    r
}

/// Index of the first zero byte, or the length when there is none.
pub open spec fn first_nul(s: Seq<u8>) -> int
    decreases s.len(),
{
    if s.len() == 0 {
        0
    } else if s[0] == 0 {
        0
    } else {
        1 + first_nul(s.drop_first())
    }
}

pub proof fn lemma_first_nul(s: Seq<u8>)
    ensures
        0 <= first_nul(s) <= s.len(),
        forall|i: int| 0 <= i < first_nul(s) ==> s[i] != 0,
        first_nul(s) < s.len() ==> s[first_nul(s)] == 0,
    decreases s.len(),
{
    if s.len() > 0 && s[0] != 0 {
        lemma_first_nul(s.drop_first());
        assert forall|i: int| 0 <= i < first_nul(s) implies s[i] != 0 by {
            if i > 0 {
                assert(s[i] == s.drop_first()[i - 1]);
            }
        }
    }
}

/// The bytes before the first zero byte.
pub open spec fn before_nul(s: Seq<u8>) -> Seq<u8> {
    s.take(first_nul(s))
}

/// Finds the first zero byte in `s`.
pub fn find_nul(s: &[u8]) -> (r: usize)
    ensures
        r == first_nul(s@),
{
    proof { lemma_first_nul(s@); }
    let mut i: usize = 0;
    while i < s.len() && s[i] != 0
        invariant
            i <= s@.len(),
            forall|j: int| 0 <= j < i ==> s@[j] != 0,
            0 <= first_nul(s@) <= s@.len(),
            forall|j: int| 0 <= j < first_nul(s@) ==> s@[j] != 0,
            first_nul(s@) < s@.len() ==> s@[first_nul(s@)] == 0,
        decreases s@.len() - i,
    {
        i = i + 1;
    }
    i
}

/// A forward cursor over a byte slice.
pub struct ByteReader<'a> {
    pub data: &'a [u8],
    pub pos: usize,
}

impl<'a> ByteReader<'a> {
    /// The bytes not read yet.
    pub open spec fn rest(&self) -> Seq<u8> {
        self.data@.subrange(self.pos as int, self.data@.len() as int)
    }

    /// The cursor stands inside the data.
    pub open spec fn wf(&self) -> bool {
        self.pos <= self.data@.len()
    }

    pub fn new(data: &'a [u8]) -> (r: Self)
        ensures
            r.data@ == data@,
            r.pos == 0,
            r.wf(),
    {
        ByteReader { data, pos: 0 }
    }

    /// Number of bytes left.
    pub fn remaining(&self) -> (n: usize)
        requires
            self.wf(),
        ensures
            n == self.data@.len() - self.pos,
    {
        self.data.len() - self.pos
    }

    pub fn read_u8(&mut self) -> (r: Result<u8, String>)
        requires
            old(self).wf(),
        ensures
            final(self).wf(),
            final(self).data == old(self).data,
            old(self).pos + 1 <= old(self).data@.len() ==> r is Ok && final(self).pos == old(self).pos + 1
                && r->Ok_0 == old(self).data@[old(self).pos as int],
            old(self).pos + 1 > old(self).data@.len() ==> r is Err && final(self).pos == old(self).pos,
    {
        if self.data.len() - self.pos < 1 {
            return Err(String::from_str("unexpected end of data"));
        }
        let b = self.data[self.pos];
        self.pos = self.pos + 1;
        Ok(b)
    }

    pub fn read_i8(&mut self) -> (r: Result<i8, String>)
        requires
            old(self).wf(),
        ensures
            final(self).wf(),
            final(self).data == old(self).data,
            old(self).pos + 1 <= old(self).data@.len() ==> r is Ok && final(self).pos == old(self).pos + 1
                && r->Ok_0 == as_signed8(old(self).data@[old(self).pos as int] as int),
            old(self).pos + 1 > old(self).data@.len() ==> r is Err && final(self).pos == old(self).pos,
    {
        let b = self.read_u8()?;
        Ok(u8_to_i8(b))
    }

    pub fn read_u16(&mut self) -> (r: Result<u16, String>)
        requires
            old(self).wf(),
        ensures
            final(self).wf(),
            final(self).data == old(self).data,
            old(self).pos + 2 <= old(self).data@.len() ==> r is Ok && final(self).pos == old(self).pos + 2
                && r->Ok_0 == u16_at(old(self).data@, old(self).pos as int),
            old(self).pos + 2 > old(self).data@.len() ==> r is Err && final(self).pos == old(self).pos,
    {
        if self.data.len() - self.pos < 2 {
            return Err(String::from_str("unexpected end of data"));
        }
        let b0 = self.data[self.pos] as u16;
        let b1 = self.data[self.pos + 1] as u16;
        self.pos = self.pos + 2;
        Ok(b0 + 256 * b1)
    }

    pub fn read_i16(&mut self) -> (r: Result<i16, String>)
        requires
            old(self).wf(),
        ensures
            final(self).wf(),
            final(self).data == old(self).data,
            old(self).pos + 2 <= old(self).data@.len() ==> r is Ok && final(self).pos == old(self).pos + 2
                && r->Ok_0 == as_signed16(u16_at(old(self).data@, old(self).pos as int)),
            old(self).pos + 2 > old(self).data@.len() ==> r is Err && final(self).pos == old(self).pos,
    {
        let u = self.read_u16()?;
        Ok(u16_to_i16(u))
    }

    pub fn read_u32(&mut self) -> (r: Result<u32, String>)
        requires
            old(self).wf(),
        ensures
            final(self).wf(),
            final(self).data == old(self).data,
            old(self).pos + 4 <= old(self).data@.len() ==> r is Ok && final(self).pos == old(self).pos + 4
                && r->Ok_0 == u32_at(old(self).data@, old(self).pos as int),
            old(self).pos + 4 > old(self).data@.len() ==> r is Err && final(self).pos == old(self).pos,
    {
        if self.data.len() - self.pos < 4 {
            return Err(String::from_str("unexpected end of data"));
        }
        let b0 = self.data[self.pos] as u32;
        let b1 = self.data[self.pos + 1] as u32;
        let b2 = self.data[self.pos + 2] as u32;
        let b3 = self.data[self.pos + 3] as u32;
        self.pos = self.pos + 4;
        Ok(b0 + 256 * b1 + 65536 * b2 + 16777216 * b3)
    }

    /// Reads a four-character chunk identifier.
    pub fn read_fourcc(&mut self) -> (r: Result<[u8; 4], String>)
        requires
            old(self).wf(),
        ensures
            final(self).wf(),
            final(self).data == old(self).data,
            old(self).pos + 4 <= old(self).data@.len() ==> r is Ok && final(self).pos == old(self).pos + 4
                && r->Ok_0@ == old(self).data@.subrange(old(self).pos as int, old(self).pos + 4),
            old(self).pos + 4 > old(self).data@.len() ==> r is Err && final(self).pos == old(self).pos,
    {
        if self.data.len() - self.pos < 4 {
            return Err(String::from_str("unexpected end of data"));
        }
        let id = [self.data[self.pos], self.data[self.pos + 1], self.data[self.pos + 2], self.data[self.pos + 3]];
        self.pos = self.pos + 4;
        assert(id@ =~= self.data@.subrange(self.pos - 4, self.pos as int));
        Ok(id)
    }

    /// Reads the next `n` bytes.
    pub fn read_bytes(&mut self, n: usize) -> (r: Result<&'a [u8], String>)
        requires
            old(self).wf(),
        ensures
            final(self).wf(),
            final(self).data == old(self).data,
            old(self).pos + n <= old(self).data@.len() ==> r is Ok && final(self).pos == old(self).pos + n
                && r->Ok_0@ == old(self).data@.subrange(old(self).pos as int, old(self).pos + n),
            old(self).pos + n > old(self).data@.len() ==> r is Err && final(self).pos == old(self).pos,
    {
        if self.data.len() - self.pos < n {
            return Err(String::from_str("unexpected end of data"));
        }
        let start = self.pos;
        self.pos = self.pos + n;
        Ok(&self.data[start..self.pos])
    }

    /// Moves the cursor `n` bytes forward.
    pub fn skip(&mut self, n: usize) -> (r: Result<(), String>)
        requires
            old(self).wf(),
        ensures
            final(self).wf(),
            final(self).data == old(self).data,
            old(self).pos + n <= old(self).data@.len() ==> r is Ok && final(self).pos == old(self).pos + n,
            old(self).pos + n > old(self).data@.len() ==> r is Err && final(self).pos == old(self).pos,
    {
        if self.data.len() - self.pos < n {
            return Err(String::from_str("unexpected end of data"));
        }
        self.pos = self.pos + n;
        Ok(())
    }
}

} // verus!
