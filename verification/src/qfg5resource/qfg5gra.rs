//! GRA: a palette and a list of sprite collections.
use crate::qfg5resource::bytes::{le_read_u16, u16_at, u32_at};
use crate::qfg5resource::cursor::{fits, short, words_at, Cursor};
use crate::qfg5resource::decode::{decode_rle_pixels, rle_output, zeros};
use crate::qfg5resource::error::DecodeError;
use crate::qfg5resource::parse::{lemma_each_fails, lemma_views_push, parse_each, views};
use vstd::prelude::*;
use vstd::slice::{slice_subrange, slice_to_vec};

verus! {

/// The colour mode of uncompressed frames.
pub const GRA_MODE_RAW: u32 = 0;

/// The colour mode of run-length encoded frames.
pub const GRA_MODE_RLE: u32 = 2;

/// The offset of the packed palette, and its length.
pub const GRA_PALETTE_OFFSET: usize = 8;

pub const GRA_PALETTE_SIZE: usize = 512;

/// One frame: `width * height` palette indices.
#[derive(Debug, Clone, PartialEq, Eq)]
pub struct GraSprite {
    pub pixels: Vec<u8>,
}

/// Frames of one size that belong together.
#[derive(Debug, Clone, PartialEq, Eq)]
pub struct GraSpriteCollection {
    pub x_position: u32,
    pub y_position: u32,
    pub width: u32,
    pub height: u32,
    pub frame_delay: u32,
    pub sprites: Vec<GraSprite>,
}

#[derive(Debug, Clone, PartialEq, Eq)]
pub struct GraDecoder {
    pub palette: [(u8, u8, u8); 256],
    pub sprite_collections: Vec<GraSpriteCollection>,
}

/// The mathematical content of a [`GraSpriteCollection`].
pub struct SpriteCollection {
    pub x_position: u32,
    pub y_position: u32,
    pub width: u32,
    pub height: u32,
    pub frame_delay: u32,
    pub sprites: Seq<Seq<u8>>,
}

/// The mathematical content of a [`GraDecoder`].
pub struct SpriteAtlas {
    pub palette: Seq<(u8, u8, u8)>,
    pub sprite_collections: Seq<SpriteCollection>,
}

impl View for GraSprite {
    type V = Seq<u8>;

    open spec fn view(&self) -> Seq<u8> {
        self.pixels@
    }
}

impl View for GraSpriteCollection {
    type V = SpriteCollection;

    open spec fn view(&self) -> SpriteCollection {
        SpriteCollection {
            x_position: self.x_position,
            y_position: self.y_position,
            width: self.width,
            height: self.height,
            frame_delay: self.frame_delay,
            sprites: views(self.sprites@),
        }
    }
}

impl View for GraDecoder {
    type V = SpriteAtlas;

    open spec fn view(&self) -> SpriteAtlas {
        SpriteAtlas {
            palette: self.palette@,
            sprite_collections: views(self.sprite_collections@),
        }
    }
}

impl SpriteCollection {
    /// Every frame holds one index per pixel.
    pub open spec fn wf(self) -> bool {
        forall|i: int|
            0 <= i < self.sprites.len() ==> (#[trigger] self.sprites[i]).len() == self.width
                * self.height
    }
}

/// A 5-bit channel scaled to 8 bits: times 255/31, rounded down.
pub open spec fn scale_channel(c: int) -> u8 {
    (c * 255 / 31) as u8
}

/// The colour that the packed 15-bit value `v` stands for: red in bits 10 to
/// 14, green in bits 5 to 9, blue in bits 0 to 4.
pub open spec fn rgb555_colour(v: u16) -> (u8, u8, u8) {
    (
        scale_channel((v as int / 1024) % 32),
        scale_channel((v as int / 32) % 32),
        scale_channel(v as int % 32),
    )
}

/// The palette that 512 bytes of packed colours stand for.
pub open spec fn rgb555_palette(rgb555: Seq<u8>) -> Seq<(u8, u8, u8)> {
    Seq::new(256, |n: int| rgb555_colour(u16_at(rgb555, 2 * n)))
}

/// Expands 256 packed 15-bit colours, two bytes each.
pub fn decode_rgb555_palette(rgb555: &[u8]) -> (result: [(u8, u8, u8); 256])
    requires
        rgb555@.len() >= 512,
    ensures
        result@ == rgb555_palette(rgb555@),
{
    let mut result: [(u8, u8, u8); 256] = [(0u8, 0u8, 0u8);256];
    let mut n: usize = 0;
    while n < 256
        invariant
            n <= 256,
            rgb555@.len() >= 512,
            forall|k: int| 0 <= k < n ==> result@[k] == rgb555_colour(u16_at(rgb555@, 2 * k)),
        decreases 256 - n,
    {
        let v = le_read_u16(slice_subrange(rgb555, n * 2, n * 2 + 2));
        let r: u16 = (v / 1024) % 32;
        let g: u16 = (v / 32) % 32;
        let b: u16 = v % 32;
        let r: u8 = (r * 255 / 31) as u8;
        let g: u8 = (g * 255 / 31) as u8;
        let b: u8 = (b * 255 / 31) as u8;
        result[n] = (r, g, b);
        n += 1;
    }
    assert(result@ =~= rgb555_palette(rgb555@));
    result
}

/// The error of a colour mode that is not implemented.
pub open spec fn unsupported_mode(mode: u32) -> DecodeError {
    DecodeError::UnsupportedVariant { field: "colour mode", actual: mode as u64 }
}

/// The frame of `size` pixels stored at `pos`. In mode 0 it is the `size`
/// bytes found there. In mode 2 it is what the data from `pos` to the end of
/// the buffer decodes to, zero where that ends early; this fails only where
/// `pos` lies behind the buffer or no buffer can hold `size` bytes.
pub open spec fn frame_at(data: Seq<u8>, mode: u32, pos: int, size: int) -> Result<
    Seq<u8>,
    DecodeError,
> {
    if mode == GRA_MODE_RAW {
        if !fits(data, pos, size) {
            Err(short(data, pos, size))
        } else {
            Ok(data.subrange(pos, pos + size))
        }
    } else if mode == GRA_MODE_RLE {
        if !fits(data, pos, 0) {
            Err(short(data, pos, 0))
        } else if size > isize::MAX {
            Err(short(data, pos, size))
        } else {
            Ok(rle_output(zeros(size as nat), data.skip(pos)))
        }
    } else {
        Err(unsupported_mode(mode))
    }
}

/// The frame number `i` of a collection stored at `base`, found by its entry
/// in the table of frame offsets, which count from `base`.
pub open spec fn frame_reader(
    data: Seq<u8>,
    mode: u32,
    base: int,
    frame_offsets: Seq<u32>,
    size: int,
) -> spec_fn(int) -> Result<Seq<u8>, DecodeError> {
    |i: int| frame_at(data, mode, base + frame_offsets[i], size)
}

/// The collection stored at `base`: seven words (position, size, number of
/// frames, frame delay, flags), the table of frame offsets, and the frames.
pub open spec fn collection_at(data: Seq<u8>, mode: u32, base: int) -> Result<
    SpriteCollection,
    DecodeError,
> {
    match words_at(data, base, 7) {
        Err(e) => Err(e),
        Ok((w, _)) => match words_at(data, base + 28, w[4] as nat) {
            Err(e) => Err(e),
            Ok((frame_offsets, _)) => match parse_each(
                frame_reader(data, mode, base, frame_offsets, w[2] * w[3]),
                w[4] as nat,
            ) {
                Err(e) => Err(e),
                Ok(sprites) => Ok(
                    SpriteCollection {
                        x_position: w[0],
                        y_position: w[1],
                        width: w[2],
                        height: w[3],
                        frame_delay: w[5],
                        sprites,
                    },
                ),
            },
        },
    }
}

/// The collection number `i`, found by its entry in the offset table.
pub open spec fn collection_reader(data: Seq<u8>, mode: u32, offsets: Seq<u32>) -> spec_fn(
    int,
) -> Result<SpriteCollection, DecodeError> {
    |i: int| collection_at(data, mode, offsets[i] as int)
}

/// What a GRA buffer decodes to: the colour mode, the number of collections,
/// the packed palette, the table of collection offsets, and the collections.
pub open spec fn parse_gra(data: Seq<u8>) -> Result<SpriteAtlas, DecodeError> {
    let mode = u32_at(data, 0);
    let num_collections = u32_at(data, 4) as nat;
    if !fits(data, 0, 4) {
        Err(short(data, 0, 4))
    } else if !fits(data, 4, 4) {
        Err(short(data, 4, 4))
    } else if !fits(data, GRA_PALETTE_OFFSET as int, GRA_PALETTE_SIZE as int) {
        Err(short(data, GRA_PALETTE_OFFSET as int, GRA_PALETTE_SIZE as int))
    } else {
        match words_at(data, 520, num_collections) {
            Err(e) => Err(e),
            Ok((offsets, _)) => match parse_each(
                collection_reader(data, mode, offsets),
                num_collections,
            ) {
                Err(e) => Err(e),
                Ok(sprite_collections) => Ok(
                    SpriteAtlas {
                        palette: rgb555_palette(data.subrange(8, 520)),
                        sprite_collections,
                    },
                ),
            },
        }
    }
}

/// Decodes the frame of `size` pixels at `pos`.
fn read_frame(data: &[u8], colour_mode: u32, pos: u64, size: u64) -> (r: Result<
    GraSprite,
    DecodeError,
>)
    ensures
        match r {
            Ok(s) => frame_at(data@, colour_mode, pos as int, size as int) == Ok::<_, DecodeError>(
                s@,
            ) && s@.len() == size,
            Err(e) => frame_at(data@, colour_mode, pos as int, size as int) == Err::<Seq<u8>, _>(
                e,
            ),
        },
{
    let length = data.len() as u64;
    if colour_mode == GRA_MODE_RAW {
        if pos > length || size > length - pos {
            return Err(DecodeError::TruncatedInput { offset: pos, needed: size, length });
        }
        let pixels = slice_to_vec(slice_subrange(data, pos as usize, (pos + size) as usize));
        Ok(GraSprite { pixels })
    } else if colour_mode == GRA_MODE_RLE {
        if pos > length {
            return Err(DecodeError::TruncatedInput { offset: pos, needed: 0, length });
        }
        if size > isize::MAX as u64 {
            return Err(DecodeError::TruncatedInput { offset: pos, needed: size, length });
        }
        let rest = slice_subrange(data, pos as usize, data.len());
        assert(rest@ =~= data@.skip(pos as int));
        let pixels = decode_rle_pixels(rest, size as usize);
        Ok(GraSprite { pixels })
    } else {
        Err(DecodeError::UnsupportedVariant { field: "colour mode", actual: colour_mode as u64 })
    }
}

#[verifier::loop_isolation(false)]
fn read_collection(bytes: &[u8], colour_mode: u32, offset: u32) -> (r: Result<
    GraSpriteCollection,
    DecodeError,
>)
    ensures
        match r {
            Ok(c) => collection_at(bytes@, colour_mode, offset as int) == Ok::<_, DecodeError>(c@)
                && c@.wf(),
            Err(e) => collection_at(bytes@, colour_mode, offset as int) == Err::<
                SpriteCollection,
                _,
            >(e),
        },
{
    let ghost data = bytes@;
    let mut cursor = Cursor::new(bytes);
    cursor.seek(offset as usize);
    let w = cursor.read_words(7)?;
    let x_position = w[0];
    let y_position = w[1];
    let width = w[2];
    let height = w[3];
    let num_sprites = w[4] as usize;
    let frame_delay = w[5];
    let frame_offsets = cursor.read_words(num_sprites)?;
    assert(width as u64 * height as u64 <= u64::MAX) by (nonlinear_arith)
        requires
            width <= u32::MAX,
            height <= u32::MAX,
    ;
    let size: u64 = width as u64 * height as u64;

    let mut sprites: Vec<GraSprite> = Vec::new();
    let mut n: usize = 0;
    assert(views(sprites@) =~= Seq::empty());
    while n < num_sprites
        invariant
            n <= num_sprites,
            forall|j: int| 0 <= j < sprites@.len() ==> (#[trigger] sprites@[j])@.len() == size,
            parse_each(
                frame_reader(data, colour_mode, offset as int, frame_offsets@, size as int),
                n as nat,
            ) == Ok::<_, DecodeError>(views(sprites@)),
        decreases num_sprites - n,
    {
        match read_frame(bytes, colour_mode, offset as u64 + frame_offsets[n] as u64, size) {
            Ok(sprite) => {
                proof {
                    lemma_views_push(sprites@, sprite);
                }
                sprites.push(sprite);
            },
            Err(e) => {
                proof {
                    lemma_each_fails(
                        frame_reader(data, colour_mode, offset as int, frame_offsets@, size as int),
                        (n + 1) as nat,
                        num_sprites as nat,
                    );
                }
                return Err(e);
            },
        }
        n = n + 1;
    }
    Ok(GraSpriteCollection { x_position, y_position, width, height, frame_delay, sprites })
}

impl GraDecoder {
    /// Decodes a GRA buffer. Every frame of the result has `width * height`
    /// pixels of its collection.
    #[verifier::loop_isolation(false)]
    pub fn new(gra_data: &[u8]) -> (r: Result<GraDecoder, DecodeError>)
        ensures
            match r {
                Ok(g) => parse_gra(gra_data@) == Ok::<_, DecodeError>(g@) && forall|i: int|
                    0 <= i < g@.sprite_collections.len() ==> (
                    #[trigger] g@.sprite_collections[i]).wf(),
                Err(e) => parse_gra(gra_data@) == Err::<SpriteAtlas, _>(e),
            },
    {
        let mut cursor = Cursor::new(gra_data);
        let colour_mode = cursor.read_u32()?;
        let num_collections = cursor.read_u32()? as usize;
        let rgb555 = cursor.read_slice(GRA_PALETTE_SIZE)?;
        let palette = decode_rgb555_palette(rgb555);
        let sprite_collection_offsets = cursor.read_words(num_collections)?;

        let mut sprite_collections: Vec<GraSpriteCollection> = Vec::new();
        let mut n: usize = 0;
        assert(views(sprite_collections@) =~= Seq::empty());
        while n < num_collections
            invariant
                n <= num_collections,
                forall|j: int|
                    0 <= j < sprite_collections@.len() ==> (#[trigger] sprite_collections@[j])@.wf(),
                parse_each(
                    collection_reader(gra_data@, colour_mode, sprite_collection_offsets@),
                    n as nat,
                ) == Ok::<_, DecodeError>(views(sprite_collections@)),
            decreases num_collections - n,
        {
            match read_collection(gra_data, colour_mode, sprite_collection_offsets[n]) {
                Ok(collection) => {
                    proof {
                        lemma_views_push(sprite_collections@, collection);
                    }
                    sprite_collections.push(collection);
                },
                Err(e) => {
                    proof {
                        lemma_each_fails(
                            collection_reader(gra_data@, colour_mode, sprite_collection_offsets@),
                            (n + 1) as nat,
                            num_collections as nat,
                        );
                    }
                    return Err(e);
                },
            }
            n = n + 1;
        }
        Ok(GraDecoder { palette, sprite_collections })
    }
}

} // verus!
