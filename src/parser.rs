use vstd::prelude::*;
use vstd::slice::{slice_subrange, slice_to_vec};

use crate::error::{id_of, DecodeError, Identifier};

verus! {

/// The unsigned integer stored little-endian in the four bytes at `i`.
pub open spec fn le_u32(s: Seq<u8>, i: int) -> u32 {
    (s[i] as int + 0x100 * s[i + 1] as int + 0x1_0000 * s[i + 2] as int + 0x100_0000 * s[
        i + 3
    ] as int) as u32
}

/// The unsigned integer stored little-endian in the two bytes at `i`.
pub open spec fn le_u16(s: Seq<u8>, i: int) -> u16 {
    (s[i] as int + 0x100 * s[i + 1] as int) as u16
}

/// The first `n` bytes of `s` and what follows them, or the shortfall.
pub open spec fn take_spec(s: Seq<u8>, n: nat) -> Result<(Seq<u8>, Seq<u8>), DecodeError> {
    if n <= s.len() {
        Ok((s.take(n as int), s.skip(n as int)))
    } else {
        Err(DecodeError::NotEnoughBytes { needed: (n - s.len()) as usize })
    }
}

/// Consumes the identifier `expected`; on any other identifier nothing is consumed.
pub open spec fn expect_id_spec(s: Seq<u8>, expected: Identifier) -> Result<Seq<u8>, DecodeError> {
    if s.len() < 4 {
        Err(DecodeError::NotEnoughBytes { needed: (4 - s.len()) as usize })
    } else if s.take(4) == expected@ {
        Ok(s.skip(4))
    } else {
        Err(DecodeError::UnexpectedIdentifier { expected, actual: id_of(s) })
    }
}

/// Reads a four-byte identifier, whatever it is.
pub open spec fn read_id_spec(s: Seq<u8>) -> Result<(Identifier, Seq<u8>), DecodeError> {
    if s.len() < 4 {
        Err(DecodeError::NotEnoughBytes { needed: (4 - s.len()) as usize })
    } else {
        Ok((id_of(s), s.skip(4)))
    }
}

/// Reads a little-endian `u32` size field.
pub open spec fn size_spec(s: Seq<u8>) -> Result<(u32, Seq<u8>), DecodeError> {
    if s.len() < 4 {
        Err(DecodeError::NotEnoughBytes { needed: (4 - s.len()) as usize })
    } else {
        Ok((le_u32(s, 0), s.skip(4)))
    }
}


/// Decodes the little-endian `u32` at offset `i` of `b`.
pub(crate) fn u32_at(b: &[u8], i: usize) -> (r: u32)
    requires
        i + 4 <= b@.len(),
    ensures
        r == le_u32(b@, i as int),
{
    b[i] as u32 + 0x100 * (b[i + 1] as u32) + 0x1_0000 * (b[i + 2] as u32) + 0x100_0000 * (
    b[i + 3] as u32)
}

/// Decodes the little-endian `u16` at offset `i` of `b`.
pub(crate) fn u16_at(b: &[u8], i: usize) -> (r: u16)
    requires
        i + 2 <= b@.len(),
    ensures
        r == le_u16(b@, i as int),
{
    b[i] as u16 + 0x100 * (b[i + 1] as u16)
}

/// A cursor over a borrowed byte buffer.
pub struct Parser<'a> {
    data: &'a [u8],
    pos: usize,
}

impl<'a> Parser<'a> {
    /// The whole buffer, consumed or not.
    pub closed spec fn input(&self) -> Seq<u8> {
        self.data@
    }

    /// The offset of the next unread byte.
    pub closed spec fn offset(&self) -> nat {
        self.pos as nat
    }

    /// The bytes not yet consumed.
    pub open spec fn rest(&self) -> Seq<u8> {
        self.input().subrange(self.offset() as int, self.input().len() as int)
    }

    pub open spec fn wf(&self) -> bool {
        self.offset() <= self.input().len()
    }

    pub fn new(data: &'a [u8]) -> (r: Self)
        ensures
            r.wf(),
            r.input() == data@,
            r.offset() == 0,
            r.rest() == data@,
    {
        let r = Parser { data, pos: 0 };
        assert(r.rest() =~= data@);
        r
    }

    pub fn bytes_remaining(&self) -> (r: usize)
        requires
            self.wf(),
        ensures
            r == self.rest().len(),
    {
        self.data.len() - self.pos
    }

    /// Where the cursor stands; hand it to `restore` to go back there.
    pub fn position(&self) -> (r: usize)
        ensures
            r == self.offset(),
    {
        self.pos
    }

    /// Moves the cursor back (or forth) to an offset taken by `position`.
    pub fn restore(&mut self, pos: usize)
        requires
            pos <= old(self).input().len(),
        ensures
            final(self).wf(),
            final(self).input() == old(self).input(),
            final(self).offset() == pos,
    {
        self.pos = pos;
    }

    proof fn lemma_split(&self, n: nat)
        requires
            self.wf(),
            n <= self.rest().len(),
        ensures
            self.rest().take(n as int) == self.input().subrange(
                self.offset() as int,
                (self.offset() + n) as int,
            ),
            self.rest().skip(n as int) == self.input().subrange(
                (self.offset() + n) as int,
                self.input().len() as int,
            ),
    {
        assert(self.rest().take(n as int) =~= self.input().subrange(
            self.offset() as int,
            (self.offset() + n) as int,
        ));
        assert(self.rest().skip(n as int) =~= self.input().subrange(
            (self.offset() + n) as int,
            self.input().len() as int,
        ));
    }

    /// Consumes and returns the next `size` bytes.
    pub fn read_bytes(&mut self, size: usize) -> (r: Result<Vec<u8>, DecodeError>)
        requires
            old(self).wf(),
        ensures
            final(self).wf(),
            final(self).input() == old(self).input(),
            match take_spec(old(self).rest(), size as nat) {
                Ok((t, rest)) => r matches Ok(v) && v@ == t && final(self).rest() == rest,
                Err(e) => r == Err::<Vec<u8>, DecodeError>(e) && final(self).offset() == old(
                    self,
                ).offset(),
            },
    {
        let remaining = self.data.len() - self.pos;
        if size > remaining {
            return Err(DecodeError::NotEnoughBytes { needed: size - remaining });
        }
        proof {
            self.lemma_split(size as nat);
        }
        let v = slice_to_vec(slice_subrange(self.data, self.pos, self.pos + size));
        self.pos = self.pos + size;
        Ok(v)
    }

    /// Returns the next `size` bytes without consuming them.
    pub fn peek_bytes(&mut self, size: usize) -> (r: Result<Vec<u8>, DecodeError>)
        requires
            old(self).wf(),
        ensures
            *final(self) == *old(self),
            match take_spec(old(self).rest(), size as nat) {
                Ok((t, _)) => r matches Ok(v) && v@ == t,
                Err(e) => r == Err::<Vec<u8>, DecodeError>(e),
            },
    {
        let remaining = self.data.len() - self.pos;
        if size > remaining {
            return Err(DecodeError::NotEnoughBytes { needed: size - remaining });
        }
        proof {
            self.lemma_split(size as nat);
        }
        Ok(slice_to_vec(slice_subrange(self.data, self.pos, self.pos + size)))
    }

    /// Decodes the little-endian `u32` at the cursor, without moving it.
    fn u32_here(&self) -> (r: u32)
        requires
            self.wf(),
            self.rest().len() >= 4,
        ensures
            r == le_u32(self.rest(), 0),
    {
        proof {
            assert(self.rest()[0] == self.data@[self.pos as int]);
            assert(self.rest()[3] == self.data@[self.pos + 3]);
            assert(self.rest()[1] == self.data@[self.pos + 1]);
            assert(self.rest()[2] == self.data@[self.pos + 2]);
        }
        u32_at(self.data, self.pos)
    }

    /// Consumes a four-byte identifier, whatever it is.
    pub fn read_identifier(&mut self) -> (r: Result<Identifier, DecodeError>)
        requires
            old(self).wf(),
        ensures
            final(self).wf(),
            final(self).input() == old(self).input(),
            match read_id_spec(old(self).rest()) {
                Ok((id, rest)) => r == Ok::<Identifier, DecodeError>(id) && final(self).rest()
                    == rest,
                Err(e) => r == Err::<Identifier, DecodeError>(e) && final(self).offset() == old(
                    self,
                ).offset(),
            },
    {
        let remaining = self.data.len() - self.pos;
        if remaining < 4 {
            return Err(DecodeError::NotEnoughBytes { needed: 4 - remaining });
        }
        proof {
            self.lemma_split(4);
        }
        let p = self.pos;
        let id = [self.data[p], self.data[p + 1], self.data[p + 2], self.data[p + 3]];
        self.pos = p + 4;
        Ok(id)
    }

    /// Consumes the identifier `expected`. On a mismatch the cursor is put back where it was,
    /// so that the same bytes can be probed for another chunk.
    pub fn expect_identifier(&mut self, expected: Identifier) -> (r: Result<(), DecodeError>)
        requires
            old(self).wf(),
        ensures
            final(self).wf(),
            final(self).input() == old(self).input(),
            match expect_id_spec(old(self).rest(), expected) {
                Ok(rest) => r is Ok && final(self).rest() == rest,
                Err(e) => r == Err::<(), DecodeError>(e) && final(self).offset() == old(
                    self,
                ).offset(),
            },
    {
        let start = self.position();
        let actual = self.read_identifier()?;
        if actual[0] == expected[0] && actual[1] == expected[1] && actual[2] == expected[2]
            && actual[3] == expected[3] {
            assert(old(self).rest().take(4) =~= expected@);
            Ok(())
        } else {
            self.restore(start);
            // Some byte differs, so the first four bytes are not `expected`.
            assert(old(self).rest().take(4) != expected@) by {
                if old(self).rest().take(4) == expected@ {
                    assert(old(self).rest().take(4)[0] == expected@[0]);
                    assert(old(self).rest().take(4)[1] == expected@[1]);
                    assert(old(self).rest().take(4)[2] == expected@[2]);
                    assert(old(self).rest().take(4)[3] == expected@[3]);
                }
            }
            Err(DecodeError::UnexpectedIdentifier { expected, actual })
        }
    }

    /// Consumes a little-endian `u32` size field.
    pub fn read_size(&mut self) -> (r: Result<u32, DecodeError>)
        requires
            old(self).wf(),
        ensures
            final(self).wf(),
            final(self).input() == old(self).input(),
            match size_spec(old(self).rest()) {
                Ok((n, rest)) => r == Ok::<u32, DecodeError>(n) && final(self).rest() == rest,
                Err(e) => r == Err::<u32, DecodeError>(e) && final(self).offset() == old(
                    self,
                ).offset(),
            },
    {
        let remaining = self.data.len() - self.pos;
        if remaining < 4 {
            return Err(DecodeError::NotEnoughBytes { needed: 4 - remaining });
        }
        proof {
            self.lemma_split(4);
        }
        let v = self.u32_here();
        self.pos = self.pos + 4;
        Ok(v)
    }

    /// Decodes the little-endian `u32` size field at the cursor without consuming it.
    pub fn peek_size(&mut self) -> (r: Result<u32, DecodeError>)
        requires
            old(self).wf(),
        ensures
            *final(self) == *old(self),
            match size_spec(old(self).rest()) {
                Ok((n, _)) => r == Ok::<u32, DecodeError>(n),
                Err(e) => r == Err::<u32, DecodeError>(e),
            },
    {
        let remaining = self.data.len() - self.pos;
        if remaining < 4 {
            return Err(DecodeError::NotEnoughBytes { needed: 4 - remaining });
        }
        Ok(self.u32_here())
    }
}

} // verus!
