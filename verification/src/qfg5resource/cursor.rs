//! A sequential, seekable little-endian reader over a byte buffer.
use crate::qfg5resource::bytes::{le_read_u16, le_read_u32, le_read_u64, u16_at, u32_at, u64_at};
use crate::qfg5resource::error::DecodeError;
use crate::qfg5resource::parse::{lemma_many_fails, parse_many};
use vstd::prelude::*;
use vstd::slice::{slice_subrange, slice_to_vec};

verus! {

/// `n` bytes can be read at `pos`.
pub open spec fn fits(data: Seq<u8>, pos: int, n: int) -> bool {
    0 <= pos && 0 <= n && pos + n <= data.len()
}

/// The error of a read of `n` bytes at `pos` that does not fit.
pub open spec fn short(data: Seq<u8>, pos: int, n: int) -> DecodeError {
    DecodeError::TruncatedInput { offset: pos as u64, needed: n as u64, length: data.len() as u64 }
}

/// The 32-bit word stored at `pos`, and the position behind it.
pub open spec fn word_at(data: Seq<u8>, pos: int) -> Result<(u32, int), DecodeError> {
    if fits(data, pos, 4) {
        Ok((u32_at(data, pos), pos + 4))
    } else {
        Err(short(data, pos, 4))
    }
}

/// [`word_at`] as a reader of `data`.
pub open spec fn word_reader(data: Seq<u8>) -> spec_fn(int) -> Result<(u32, int), DecodeError> {
    |p: int| word_at(data, p)
}

/// The `n` consecutive 32-bit words stored from `pos` on.
pub open spec fn words_at(data: Seq<u8>, pos: int, n: nat) -> Result<(Seq<u32>, int), DecodeError> {
    parse_many(word_reader(data), pos, n)
}

/// A run of words depends on the bytes it covers only, and ends behind them.
pub proof fn lemma_words_at_agree(a: Seq<u8>, b: Seq<u8>, pos: int, n: nat)
    requires
        a.len() == b.len(),
        forall|i: int| pos <= i < pos + 4 * n && 0 <= i < a.len() ==> a[i] == b[i],
    ensures
        words_at(a, pos, n) == words_at(b, pos, n),
        words_at(a, pos, n) matches Ok(r) ==> r.1 == pos + 4 * n,
    decreases n,
{
    if n > 0 {
        lemma_words_at_agree(a, b, pos, (n - 1) as nat);
    }
}

/// The words of a run are those stored at its positions.
pub proof fn lemma_words_at_values(data: Seq<u8>, pos: int, n: nat)
    requires
        words_at(data, pos, n) is Ok,
    ensures
        words_at(data, pos, n)->Ok_0.0.len() == n,
        words_at(data, pos, n)->Ok_0.1 == pos + 4 * n,
        forall|j: int|
            0 <= j < n ==> #[trigger] words_at(data, pos, n)->Ok_0.0[j] == u32_at(data, pos + 4 * j),
    decreases n,
{
    if n > 0 {
        lemma_words_at_values(data, pos, (n - 1) as nat);
    }
}

/// Whether a run of words can be read depends on the length of the buffer
/// only.
pub proof fn lemma_words_at_length_decides(a: Seq<u8>, b: Seq<u8>, pos: int, n: nat)
    requires
        a.len() == b.len(),
    ensures
        words_at(a, pos, n) is Ok <==> words_at(b, pos, n) is Ok,
        words_at(a, pos, n) is Ok ==> words_at(a, pos, n)->Ok_0.1 == words_at(b, pos, n)->Ok_0.1,
    decreases n,
{
    if n > 0 {
        lemma_words_at_length_decides(a, b, pos, (n - 1) as nat);
    }
}

/// A read position in a borrowed buffer. The position may lie beyond the end
/// of the buffer; every read from there fails.
pub struct Cursor<'a> {
    pub data: &'a [u8],
    pub pos: usize,
}

impl<'a> Cursor<'a> {
    /// A cursor at the start of `data`.
    pub fn new(data: &'a [u8]) -> (c: Cursor<'a>)
        ensures
            c.data@ == data@,
            c.pos == 0,
    {
        Cursor { data, pos: 0 }
    }

    /// The current position.
    pub fn position(&self) -> (p: usize)
        ensures
            p == self.pos,
    {
        self.pos
    }

    /// Moves to the absolute position `pos`.
    pub fn seek(&mut self, pos: usize)
        ensures
            final(self).data == old(self).data,
            final(self).pos == pos,
    {
        self.pos = pos;
    }

    fn truncated(&self, n: usize) -> (e: DecodeError)
        ensures
            e == short(self.data@, self.pos as int, n as int),
    {
        DecodeError::TruncatedInput {
            offset: self.pos as u64,
            needed: n as u64,
            length: self.data.len() as u64,
        }
    }

    /// The next `n` bytes, borrowed from the buffer.
    pub fn read_slice(&mut self, n: usize) -> (r: Result<&'a [u8], DecodeError>)
        ensures
            final(self).data == old(self).data,
            match r {
                Ok(s) => fits(old(self).data@, old(self).pos as int, n as int)
                    && s@ == old(self).data@.subrange(old(self).pos as int, old(self).pos + n)
                    && final(self).pos == old(self).pos + n,
                Err(e) => !fits(old(self).data@, old(self).pos as int, n as int)
                    && e == short(old(self).data@, old(self).pos as int, n as int)
                    && final(self).pos == old(self).pos,
            },
    {
        if self.pos > self.data.len() || n > self.data.len() - self.pos {
            Err(self.truncated(n))
        } else {
            let s = slice_subrange(self.data, self.pos, self.pos + n);
            self.pos = self.pos + n;
            Ok(s)
        }
    }

    /// Passes over the next `n` bytes, which must be there.
    pub fn skip(&mut self, n: usize) -> (r: Result<(), DecodeError>)
        ensures
            final(self).data == old(self).data,
            match r {
                Ok(_) => fits(old(self).data@, old(self).pos as int, n as int) && final(self).pos
                    == old(self).pos + n,
                Err(e) => !fits(old(self).data@, old(self).pos as int, n as int)
                    && e == short(old(self).data@, old(self).pos as int, n as int)
                    && final(self).pos == old(self).pos,
            },
    {
        let _ = self.read_slice(n)?;
        Ok(())
    }

    /// The next byte.
    pub fn read_u8(&mut self) -> (r: Result<u8, DecodeError>)
        ensures
            final(self).data == old(self).data,
            match r {
                Ok(v) => fits(old(self).data@, old(self).pos as int, 1)
                    && v == old(self).data@[old(self).pos as int]
                    && final(self).pos == old(self).pos + 1,
                Err(e) => !fits(old(self).data@, old(self).pos as int, 1)
                    && e == short(old(self).data@, old(self).pos as int, 1)
                    && final(self).pos == old(self).pos,
            },
    {
        let s = self.read_slice(1)?;
        Ok(s[0])
    }

    /// The next two bytes as a little-endian integer.
    pub fn read_u16(&mut self) -> (r: Result<u16, DecodeError>)
        ensures
            final(self).data == old(self).data,
            match r {
                Ok(v) => fits(old(self).data@, old(self).pos as int, 2)
                    && v == u16_at(old(self).data@, old(self).pos as int)
                    && final(self).pos == old(self).pos + 2,
                Err(e) => !fits(old(self).data@, old(self).pos as int, 2)
                    && e == short(old(self).data@, old(self).pos as int, 2)
                    && final(self).pos == old(self).pos,
            },
    {
        let s = self.read_slice(2)?;
        Ok(le_read_u16(s))
    }

    /// The next four bytes as a little-endian integer.
    pub fn read_u32(&mut self) -> (r: Result<u32, DecodeError>)
        ensures
            final(self).data == old(self).data,
            match r {
                Ok(v) => fits(old(self).data@, old(self).pos as int, 4)
                    && v == u32_at(old(self).data@, old(self).pos as int)
                    && final(self).pos == old(self).pos + 4,
                Err(e) => !fits(old(self).data@, old(self).pos as int, 4)
                    && e == short(old(self).data@, old(self).pos as int, 4)
                    && final(self).pos == old(self).pos,
            },
    {
        let s = self.read_slice(4)?;
        Ok(le_read_u32(s))
    }

    /// The next eight bytes as a little-endian integer.
    pub fn read_u64(&mut self) -> (r: Result<u64, DecodeError>)
        ensures
            final(self).data == old(self).data,
            match r {
                Ok(v) => fits(old(self).data@, old(self).pos as int, 8)
                    && v == u64_at(old(self).data@, old(self).pos as int)
                    && final(self).pos == old(self).pos + 8,
                Err(e) => !fits(old(self).data@, old(self).pos as int, 8)
                    && e == short(old(self).data@, old(self).pos as int, 8)
                    && final(self).pos == old(self).pos,
            },
    {
        let s = self.read_slice(8)?;
        Ok(le_read_u64(s))
    }

    /// The next `n` 32-bit little-endian words.
    pub fn read_words(&mut self, n: usize) -> (r: Result<Vec<u32>, DecodeError>)
        ensures
            final(self).data == old(self).data,
            match r {
                Ok(w) => words_at(old(self).data@, old(self).pos as int, n as nat) == Ok::<
                    _,
                    DecodeError,
                >((w@, final(self).pos as int)) && w@.len() == n && final(self).pos == old(self).pos
                    + 4 * n,
                Err(e) => words_at(old(self).data@, old(self).pos as int, n as nat) == Err::<
                    (Seq<u32>, int),
                    _,
                >(e),
            },
    {
        let ghost data = self.data@;
        let ghost start = self.pos as int;
        let mut words: Vec<u32> = Vec::new();
        let mut i: usize = 0;
        while i < n
            invariant
                i <= n,
                data == old(self).data@,
                start == old(self).pos,
                self.data == old(self).data,
                words@.len() == i,
                self.pos == start + 4 * i,
                words_at(data, start, i as nat) == Ok::<_, DecodeError>((words@, self.pos as int)),
            decreases n - i,
        {
            match self.read_u32() {
                Ok(v) => {
                    words.push(v);
                },
                Err(e) => {
                    proof {
                        lemma_many_fails(word_reader(data), start, (i + 1) as nat, n as nat);
                    }
                    return Err(e);
                },
            }
            i = i + 1;
        }
        Ok(words)
    }

    /// A copy of the next `n` bytes.
    pub fn read_bytes(&mut self, n: u64) -> (r: Result<Vec<u8>, DecodeError>)
        ensures
            final(self).data == old(self).data,
            match r {
                Ok(v) => fits(old(self).data@, old(self).pos as int, n as int)
                    && v@ == old(self).data@.subrange(old(self).pos as int, old(self).pos + n)
                    && final(self).pos == old(self).pos + n,
                Err(e) => !fits(old(self).data@, old(self).pos as int, n as int)
                    && e == short(old(self).data@, old(self).pos as int, n as int)
                    && final(self).pos == old(self).pos,
            },
    {
        if n > usize::MAX as u64 {
            Err(
                DecodeError::TruncatedInput {
                    offset: self.pos as u64,
                    needed: n,
                    length: self.data.len() as u64,
                },
            )
        } else {
            let s = self.read_slice(n as usize)?;
            Ok(slice_to_vec(s))
        }
    }
}

} // verus!
