//! IMG: one run-length encoded indexed-colour image behind a fixed header.
use crate::qfg5resource::bytes::{le_read_u16, u16_at};
use crate::qfg5resource::cursor::{fits, short};
use crate::qfg5resource::decode::{decode_rle_pixels, rle_output, zeros};
use crate::qfg5resource::error::DecodeError;
use vstd::prelude::*;
use vstd::slice::slice_subrange;

verus! {

/// Where the pixel data starts, and so the length of the header.
pub const IMG_DATA_OFFSET: usize = 64;

/// An image of palette indices; the palette comes from elsewhere.
pub struct RasterImage {
    pub width: u16,
    pub height: u16,
    pub pixels: Seq<u8>,
}

impl RasterImage {
    /// The buffer holds one index per pixel.
    pub open spec fn wf(self) -> bool {
        self.pixels.len() == self.width * self.height
    }
}

#[derive(Debug, Clone, PartialEq, Eq)]
pub struct ImageDecoder {
    height: u16,
    width: u16,
    pixels: Vec<u8>,
}

impl View for ImageDecoder {
    type V = RasterImage;

    closed spec fn view(&self) -> RasterImage {
        RasterImage { width: self.width, height: self.height, pixels: self.pixels@ }
    }
}

/// What an IMG buffer decodes to: the width stored at offset 32, the height
/// at offset 36, and the pixels that the data from offset 64 on decodes to,
/// zero where the data ends early.
pub open spec fn parse_img(data: Seq<u8>) -> Result<RasterImage, DecodeError> {
    if !fits(data, 0, IMG_DATA_OFFSET as int) {
        Err(short(data, 0, IMG_DATA_OFFSET as int))
    } else {
        let width = u16_at(data, 32);
        let height = u16_at(data, 36);
        Ok(
            RasterImage {
                width,
                height,
                pixels: rle_output(
                    zeros((width * height) as nat),
                    data.skip(IMG_DATA_OFFSET as int),
                ),
            },
        )
    }
}

impl ImageDecoder {
    /// Decodes an IMG buffer.
    pub fn new(img_data: &[u8]) -> (r: Result<ImageDecoder, DecodeError>)
        ensures
            match r {
                Ok(img) => parse_img(img_data@) == Ok::<_, DecodeError>(img@) && img@.wf(),
                Err(e) => parse_img(img_data@) == Err::<RasterImage, _>(e),
            },
    {
        if img_data.len() < IMG_DATA_OFFSET {
            return Err(
                DecodeError::TruncatedInput {
                    offset: 0,
                    needed: IMG_DATA_OFFSET as u64,
                    length: img_data.len() as u64,
                },
            );
        }
        let width = le_read_u16(slice_subrange(img_data, 32, 34));
        let height = le_read_u16(slice_subrange(img_data, 36, 38));
        assert(width as usize * height as usize <= 0xffff * 0xffff) by (nonlinear_arith)
            requires
                width <= 0xffff,
                height <= 0xffff,
        ;
        let data = slice_subrange(img_data, IMG_DATA_OFFSET, img_data.len());
        assert(data@ =~= img_data@.skip(IMG_DATA_OFFSET as int));
        let pixels = decode_rle_pixels(data, width as usize * height as usize);
        Ok(ImageDecoder { height, width, pixels })
    }

    pub fn get_height(&self) -> (h: u16)
        ensures
            h == self@.height,
    {
        self.height
    }

    pub fn get_width(&self) -> (w: u16)
        ensures
            w == self@.width,
    {
        self.width
    }

    pub fn get_pixels(&self) -> (p: &[u8])
        ensures
            p@ == self@.pixels,
    {
        self.pixels.as_slice()
    }
}

} // verus!
