//! QGF: a bitmap font of 512 glyph slots.
use crate::qfg5resource::cursor::{fits, short, words_at, Cursor};
use crate::qfg5resource::decode::zeros;
use crate::qfg5resource::error::DecodeError;
use crate::qfg5resource::parse::{lemma_each_fails, lemma_views_push, parse_each, views};
use vstd::prelude::*;

verus! {

/// The number of glyph slots, used or not.
pub const QGF_NUM_CHARS: usize = 512;

/// One glyph: `width` by the font's glyph height pixels, row by row.
#[derive(Debug, Clone, PartialEq, Eq)]
pub struct QgfChar {
    pub width: u32,
    pub data: Vec<u8>,
}

#[derive(Debug, Clone, PartialEq, Eq)]
pub struct QgfDecoder {
    pub max_char_width: u32,
    pub char_height: u32,
    pub is_3d: bool,
    pub chars: Vec<QgfChar>,
}

/// The mathematical content of a [`QgfChar`].
pub struct Glyph {
    pub width: u32,
    pub data: Seq<u8>,
}

/// The mathematical content of a [`QgfDecoder`].
pub struct Font {
    pub max_char_width: u32,
    pub char_height: u32,
    pub is_3d: bool,
    pub chars: Seq<Glyph>,
}

impl View for QgfChar {
    type V = Glyph;

    open spec fn view(&self) -> Glyph {
        Glyph { width: self.width, data: self.data@ }
    }
}

impl View for QgfDecoder {
    type V = Font;

    open spec fn view(&self) -> Font {
        Font {
            max_char_width: self.max_char_width,
            char_height: self.char_height,
            is_3d: self.is_3d,
            chars: views(self.chars@),
        }
    }
}

impl Font {
    /// There are 512 glyphs, each of its width by the glyph height.
    pub open spec fn wf(self) -> bool {
        &&& self.chars.len() == QGF_NUM_CHARS
        &&& forall|i: int|
            0 <= i < self.chars.len() ==> (#[trigger] self.chars[i]).data.len()
                == self.chars[i].width * self.char_height
    }
}

/// The next `remaining` pixels of a glyph, encoded from `pos` on in pairs of
/// bytes. A first byte below 128 is one pixel of that value. A first byte
/// `a` from 128 on stands for `256 - a` background pixels, or as many as
/// still fit. The second byte of a pair must be there and means nothing.
pub open spec fn glyph_pixels(data: Seq<u8>, pos: int, remaining: nat) -> Result<
    Seq<u8>,
    DecodeError,
>
    decreases remaining,
{
    if remaining == 0 {
        Ok(Seq::empty())
    } else if !fits(data, pos, 1) {
        Err(short(data, pos, 1))
    } else if !fits(data, pos + 1, 1) {
        Err(short(data, pos + 1, 1))
    } else if data[pos] < 128 {
        match glyph_pixels(data, pos + 2, (remaining - 1) as nat) {
            Err(e) => Err(e),
            Ok(rest) => Ok(seq![data[pos]] + rest),
        }
    } else {
        let run = if 256 - data[pos] < remaining {
            (256 - data[pos]) as nat
        } else {
            remaining
        };
        match glyph_pixels(data, pos + 2, (remaining - run) as nat) {
            Err(e) => Err(e),
            Ok(rest) => Ok(zeros(run) + rest),
        }
    }
}

/// The glyph of `width` by `height` pixels whose data starts at `pos`; none
/// where no buffer can hold that many pixels.
pub open spec fn glyph_at(data: Seq<u8>, pos: int, width: u8, height: u32) -> Result<
    Glyph,
    DecodeError,
> {
    if width * height > isize::MAX {
        Err(short(data, pos, width * height))
    } else {
        match glyph_pixels(data, pos, (width * height) as nat) {
            Err(e) => Err(e),
            Ok(pixels) => Ok(Glyph { width: width as u32, data: pixels }),
        }
    }
}

/// The glyph number `i`, found by its entries in the tables of widths and
/// offsets.
pub open spec fn glyph_reader(data: Seq<u8>, widths: Seq<u8>, offsets: Seq<u32>, height: u32)
    -> spec_fn(int) -> Result<Glyph, DecodeError> {
    |i: int| glyph_at(data, offsets[i] as int, widths[i], height)
}

/// What a QGF buffer decodes to: six header words (greatest glyph width,
/// glyph height, spacing, an unknown word, the 3-D flag, an unknown word),
/// 512 glyph widths of one byte, 512 glyph offsets, and the glyphs.
pub open spec fn parse_qgf(data: Seq<u8>) -> Result<Font, DecodeError> {
    match words_at(data, 0, 6) {
        Err(e) => Err(e),
        Ok((header, _)) => if !fits(data, 24, QGF_NUM_CHARS as int) {
            Err(short(data, 24, QGF_NUM_CHARS as int))
        } else {
            match words_at(data, 536, QGF_NUM_CHARS as nat) {
                Err(e) => Err(e),
                Ok((offsets, _)) => match parse_each(
                    glyph_reader(data, data.subrange(24, 536), offsets, header[1]),
                    QGF_NUM_CHARS as nat,
                ) {
                    Err(e) => Err(e),
                    Ok(chars) => Ok(
                        Font {
                            max_char_width: header[0],
                            char_height: header[1],
                            is_3d: header[4] != 0,
                            chars,
                        },
                    ),
                },
            }
        },
    }
}

#[verifier::loop_isolation(false)]
fn read_glyph(bytes: &[u8], offset: u32, width: u8, char_height: u32) -> (r: Result<
    QgfChar,
    DecodeError,
>)
    ensures
        match r {
            Ok(c) => glyph_at(bytes@, offset as int, width, char_height) == Ok::<_, DecodeError>(
                c@,
            ) && c@.data.len() == width * char_height,
            Err(e) => glyph_at(bytes@, offset as int, width, char_height) == Err::<Glyph, _>(e),
        },
{
    assert(width as u64 * char_height as u64 <= u64::MAX) by (nonlinear_arith)
        requires
            width <= u8::MAX,
            char_height <= u32::MAX,
    ;
    let size64: u64 = width as u64 * char_height as u64;
    if size64 > isize::MAX as u64 {
        return Err(
            DecodeError::TruncatedInput {
                offset: offset as u64,
                needed: size64,
                length: bytes.len() as u64,
            },
        );
    }
    let size = size64 as usize;
    let mut cursor = Cursor::new(bytes);
    cursor.seek(offset as usize);
    let mut data = vec![0u8; size];
    let mut filled: usize = 0;
    assert(data@.take(0) =~= Seq::<u8>::empty());
    assert(forall|rest: Seq<u8>| Seq::<u8>::empty() + rest =~= rest);
    while filled < size
        invariant
            filled <= size,
            cursor.data@ == bytes@,
            data@.len() == size,
            forall|i: int| filled <= i < size ==> data@[i] == 0,
            glyph_pixels(bytes@, offset as int, size as nat) == match glyph_pixels(
                bytes@,
                cursor.pos as int,
                (size - filled) as nat,
            ) {
                Err(e) => Err::<Seq<u8>, _>(e),
                Ok(rest) => Ok(data@.take(filled as int) + rest),
            },
        decreases size - filled,
    {
        let ghost pos = cursor.pos as int;
        let ghost done = data@.take(filled as int);
        let a = cursor.read_u8()?;
        let _b = cursor.read_u8()?;
        if a < 128 {
            data[filled] = a;
            proof {
                let next = glyph_pixels(bytes@, pos + 2, (size - filled - 1) as nat);
                if next is Ok {
                    assert(done + (seq![a] + next->Ok_0) =~= data@.take(filled + 1) + next->Ok_0);
                }
            }
            filled += 1;
        } else {
            let run = 256 - a as usize;
            let run = if run < size - filled {
                run
            } else {
                size - filled
            };
            proof {
                let next = glyph_pixels(bytes@, pos + 2, (size - filled - run) as nat);
                if next is Ok {
                    assert(done + (zeros(run as nat) + next->Ok_0) =~= data@.take(filled + run)
                        + next->Ok_0);
                }
            }
            filled += run;
        }
    }
    assert(data@.take(size as int) + Seq::<u8>::empty() =~= data@);
    Ok(QgfChar { width: width as u32, data })
}

impl QgfDecoder {
    /// Decodes a QGF buffer. The result has 512 glyphs, each of its width by
    /// the glyph height.
    #[verifier::loop_isolation(false)]
    pub fn new(qgf_data: &[u8]) -> (r: Result<QgfDecoder, DecodeError>)
        ensures
            match r {
                Ok(f) => parse_qgf(qgf_data@) == Ok::<_, DecodeError>(f@) && f@.wf(),
                Err(e) => parse_qgf(qgf_data@) == Err::<Font, _>(e),
            },
    {
        let mut cursor = Cursor::new(qgf_data);
        let header = cursor.read_words(6)?;
        let max_char_width = header[0];
        let char_height = header[1];
        let flag_3d = header[4];
        let char_widths = cursor.read_slice(QGF_NUM_CHARS)?;
        let char_offsets = cursor.read_words(QGF_NUM_CHARS)?;

        let mut chars: Vec<QgfChar> = Vec::new();
        let mut n: usize = 0;
        assert(views(chars@) =~= Seq::empty());
        while n < QGF_NUM_CHARS
            invariant
                n <= QGF_NUM_CHARS,
                chars@.len() == n,
                forall|j: int|
                    0 <= j < chars@.len() ==> (#[trigger] chars@[j])@.data.len() == chars@[j]@.width
                        * char_height,
                parse_each(
                    glyph_reader(qgf_data@, char_widths@, char_offsets@, char_height),
                    n as nat,
                ) == Ok::<_, DecodeError>(views(chars@)),
            decreases QGF_NUM_CHARS - n,
        {
            match read_glyph(qgf_data, char_offsets[n], char_widths[n], char_height) {
                Ok(c) => {
                    proof {
                        lemma_views_push(chars@, c);
                    }
                    chars.push(c);
                },
                Err(e) => {
                    proof {
                        lemma_each_fails(
                            glyph_reader(qgf_data@, char_widths@, char_offsets@, char_height),
                            (n + 1) as nat,
                            QGF_NUM_CHARS as nat,
                        );
                    }
                    return Err(e);
                },
            }
            n = n + 1;
        }
        Ok(QgfDecoder { max_char_width, char_height, chars, is_3d: flag_3d != 0 })
    }
}

} // verus!
