//! ZZZ: a headerless run-length encoded image that borrows its size from a
//! companion IMG image.
use crate::qfg5resource::decode::{decode_rle_pixels, rle_output, zeros};
use crate::qfg5resource::error::DecodeError;
use crate::qfg5resource::qfg5img::{ImageDecoder, RasterImage};
use vstd::prelude::*;

verus! {

#[derive(Debug, Clone, PartialEq, Eq)]
pub struct ZzzDecoder {
    width: u16,
    height: u16,
    pixels: Vec<u8>,
}

impl View for ZzzDecoder {
    type V = RasterImage;

    closed spec fn view(&self) -> RasterImage {
        RasterImage { width: self.width, height: self.height, pixels: self.pixels@ }
    }
}

/// What a ZZZ buffer decodes to beside an image of `width` by `height`: the
/// whole buffer decoded into that many pixels, zero where it ends early.
pub open spec fn parse_zzz(data: Seq<u8>, width: u16, height: u16) -> RasterImage {
    RasterImage { width, height, pixels: rle_output(zeros((width * height) as nat), data) }
}

impl ZzzDecoder {
    /// Decodes a ZZZ buffer to the size of `img`. This never fails.
    pub fn new(zzz_data: &[u8], img: &ImageDecoder) -> (r: Result<ZzzDecoder, DecodeError>)
        ensures
            r matches Ok(z) && z@ == parse_zzz(zzz_data@, img@.width, img@.height) && z@.wf(),
    {
        let width = img.get_width();
        let height = img.get_height();
        assert(width as usize * height as usize <= 0xffff * 0xffff) by (nonlinear_arith)
            requires
                width <= 0xffff,
                height <= 0xffff,
        ;
        let pixels = decode_rle_pixels(zzz_data, width as usize * height as usize);
        Ok(ZzzDecoder { height, width, pixels })
    }

    pub fn get_height(&self) -> (h: u16)
        ensures
            h == self@.height,
    {
        self.height
    }

    pub fn get_width(&self) -> (w: u16)
        ensures
            w == self@.width,
    {
        self.width
    }

    pub fn get_pixels(&self) -> (p: &[u8])
        ensures
            p@ == self@.pixels,
    {
        self.pixels.as_slice()
    }
}

} // verus!
