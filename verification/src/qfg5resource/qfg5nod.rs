//! NOD: the palette table of a scene.
use crate::qfg5resource::cursor::{fits, short};
use crate::qfg5resource::error::DecodeError;
use vstd::prelude::*;

verus! {

/// Red, green and blue, eight bits each.
pub type PaletteEntry = (u8, u8, u8);

/// The offset of the version marker.
pub const NOD_VERSION_OFFSET: usize = 6;

/// The offset of the palette table.
pub const NOD_PALETTE_OFFSET: usize = 168;

/// The length of the palette table: 256 entries of three bytes.
pub const NOD_PALETTE_SIZE: usize = 768;

#[derive(Debug, Clone, PartialEq, Eq)]
pub struct NodDecoder {
    version: u8,
    palette: [PaletteEntry; 256],
}

/// The mathematical content of a [`NodDecoder`].
pub struct NodTable {
    pub version: u8,
    pub palette: Seq<PaletteEntry>,
}

impl View for NodDecoder {
    type V = NodTable;

    closed spec fn view(&self) -> NodTable {
        NodTable { version: self.version, palette: self.palette@ }
    }
}

/// The palette entry number `n` of the table.
pub open spec fn palette_entry_at(data: Seq<u8>, n: int) -> PaletteEntry {
    (
        data[NOD_PALETTE_OFFSET + 3 * n],
        data[NOD_PALETTE_OFFSET + 3 * n + 1],
        data[NOD_PALETTE_OFFSET + 3 * n + 2],
    )
}

/// What a NOD buffer decodes to: the version marker at offset 6 (0 for the
/// demo, 4 for the retail game) and the 256 packed entries from offset 168.
pub open spec fn parse_nod(data: Seq<u8>) -> Result<NodTable, DecodeError> {
    if !fits(data, NOD_VERSION_OFFSET as int, 1) {
        Err(short(data, NOD_VERSION_OFFSET as int, 1))
    } else if !fits(data, NOD_PALETTE_OFFSET as int, NOD_PALETTE_SIZE as int) {
        Err(short(data, NOD_PALETTE_OFFSET as int, NOD_PALETTE_SIZE as int))
    } else {
        Ok(
            NodTable {
                version: data[NOD_VERSION_OFFSET as int],
                palette: Seq::new(256, |n: int| palette_entry_at(data, n)),
            },
        )
    }
}

impl NodDecoder {
    /// Decodes a NOD buffer.
    pub fn new(nod_data: &[u8]) -> (r: Result<NodDecoder, DecodeError>)
        ensures
            match r {
                Ok(nod) => parse_nod(nod_data@) == Ok::<_, DecodeError>(nod@),
                Err(e) => parse_nod(nod_data@) == Err::<NodTable, _>(e),
            },
    {
        if nod_data.len() <= NOD_VERSION_OFFSET {
            return Err(
                DecodeError::TruncatedInput {
                    offset: NOD_VERSION_OFFSET as u64,
                    needed: 1,
                    length: nod_data.len() as u64,
                },
            );
        }
        let version = nod_data[NOD_VERSION_OFFSET];
        if nod_data.len() < NOD_PALETTE_OFFSET + NOD_PALETTE_SIZE {
            return Err(
                DecodeError::TruncatedInput {
                    offset: NOD_PALETTE_OFFSET as u64,
                    needed: NOD_PALETTE_SIZE as u64,
                    length: nod_data.len() as u64,
                },
            );
        }
        let mut palette: [PaletteEntry; 256] = [(0u8, 0u8, 0u8);256];
        let mut n: usize = 0;
        while n < 256
            invariant
                n <= 256,
                nod_data@.len() >= NOD_PALETTE_OFFSET + NOD_PALETTE_SIZE,
                forall|k: int| 0 <= k < n ==> palette@[k] == palette_entry_at(nod_data@, k),
            decreases 256 - n,
        {
            let offset = NOD_PALETTE_OFFSET + n * 3;
            let r = nod_data[offset];
            let g = nod_data[offset + 1];
            let b = nod_data[offset + 2];
            palette[n] = (r, g, b);
            n += 1;
        }
        assert(palette@ =~= Seq::new(256, |n: int| palette_entry_at(nod_data@, n)));
        Ok(NodDecoder { version, palette })
    }

    pub fn get_version(&self) -> (v: u8)
        ensures
            v == self@.version,
    {
        self.version
    }

    pub fn get_palette(&self) -> (p: &[PaletteEntry; 256])
        ensures
            p@ == self@.palette,
    {
        &self.palette
    }
}

} // verus!
