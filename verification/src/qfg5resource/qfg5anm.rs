//! ANM: named animation tracks of rigid-transform keyframes.
use crate::qfg5resource::bytes::u32_at;
use crate::qfg5resource::cursor::{fits, short, words_at, Cursor};
use crate::qfg5resource::error::{expect_computed, expect_magic, DecodeError};
use crate::qfg5resource::parse::{lemma_many_fails, lemma_views_push, parse_many, views};
use crate::qfg5resource::record::{read_records, records_at, Record};
use crate::qfg5resource::text::string_from_utf8;
use vstd::prelude::*;
use vstd::slice::slice_to_vec;
use vstd::utf8::{decode_utf8, valid_utf8};

verus! {

/// The two accepted signatures.
pub const ANM_MAGIC_8XOV: u32 = 0x564f5838;

pub const ANM_MAGIC_MIRT: u32 = 0x5452494d;

/// The only accepted value of the header-size field.
pub const ANM_HEADER_SIZE: u32 = 36;

/// One keyframe: a translation and a row-major 3x3 rotation. Each number is
/// held as the bit pattern of an IEEE-754 single.
#[derive(Debug, Clone, Copy, PartialEq, Eq)]
pub struct AnmBlock {
    pub translation: [u32; 3],
    pub rotation: [u32; 9],
}

/// The keyframes of one submesh.
#[derive(Debug, Clone, PartialEq, Eq)]
pub struct AnmAnim {
    pub blocks: Vec<AnmBlock>,
}

/// A decoded animation track.
#[derive(Debug, Clone, PartialEq, Eq)]
pub struct AnmDecoder {
    pub name: String,
    pub delay: u32,
    pub anims: Vec<AnmAnim>,
}

/// The mathematical content of an [`AnmDecoder`].
pub struct AnimationTrack {
    pub name: Seq<char>,
    pub delay: u32,
    pub anims: Seq<Seq<AnmBlock>>,
}

impl View for AnmAnim {
    type V = Seq<AnmBlock>;

    open spec fn view(&self) -> Seq<AnmBlock> {
        self.blocks@
    }
}

impl View for AnmDecoder {
    type V = AnimationTrack;

    open spec fn view(&self) -> AnimationTrack {
        AnimationTrack { name: self.name@, delay: self.delay, anims: views(self.anims@) }
    }
}

impl Record for AnmBlock {
    /// Two guard words, which must be 1 and 0, and twelve numbers: the
    /// translation, then the rotation.
    open spec fn at(data: Seq<u8>, pos: int) -> Result<(Self, int), DecodeError> {
        if !fits(data, pos, 4) {
            Err(short(data, pos, 4))
        } else if !fits(data, pos + 4, 4) {
            Err(short(data, pos + 4, 4))
        } else if u32_at(data, pos) != 1 {
            Err(
                DecodeError::MagicMismatch {
                    field: "block guard a",
                    expected: 1,
                    actual: u32_at(data, pos) as u64,
                },
            )
        } else if u32_at(data, pos + 4) != 0 {
            Err(
                DecodeError::MagicMismatch {
                    field: "block guard b",
                    expected: 0,
                    actual: u32_at(data, pos + 4) as u64,
                },
            )
        } else {
            match words_at(data, pos + 8, 12) {
                Err(e) => Err(e),
                Ok((w, end)) => Ok(
                    (
                        AnmBlock {
                            translation: [w[0], w[1], w[2]],
                            rotation: [w[3], w[4], w[5], w[6], w[7], w[8], w[9], w[10], w[11]],
                        },
                        end,
                    ),
                ),
            }
        }
    }

    fn read(cursor: &mut Cursor) -> (r: Result<Self, DecodeError>) {
        let a = cursor.read_u32()?;
        let b = cursor.read_u32()?;
        expect_magic("block guard a", 1, a as u64)?;
        expect_magic("block guard b", 0, b as u64)?;
        let w = cursor.read_words(12)?;
        Ok(
            AnmBlock {
                translation: [w[0], w[1], w[2]],
                rotation: [w[3], w[4], w[5], w[6], w[7], w[8], w[9], w[10], w[11]],
            },
        )
    }
}

/// The `n` keyframes of one submesh, stored from `pos` on.
pub open spec fn anim_at(data: Seq<u8>, pos: int, n: nat) -> Result<
    (Seq<AnmBlock>, int),
    DecodeError,
> {
    records_at::<AnmBlock>(data, pos, n)
}

/// [`anim_at`] as a reader of `data`, for `n` keyframes per submesh.
pub open spec fn anim_reader(data: Seq<u8>, n: nat) -> spec_fn(int) -> Result<
    (Seq<AnmBlock>, int),
    DecodeError,
> {
    |p: int| anim_at(data, p, n)
}

/// What an ANM buffer decodes to.
pub open spec fn parse_anm(data: Seq<u8>) -> Result<AnimationTrack, DecodeError> {
    if !fits(data, 0, 4) {
        Err(short(data, 0, 4))
    } else if u32_at(data, 0) != ANM_MAGIC_8XOV && u32_at(data, 0) != ANM_MAGIC_MIRT {
        Err(
            DecodeError::MagicMismatch {
                field: "magic",
                expected: ANM_MAGIC_8XOV as u64,
                actual: u32_at(data, 0) as u64,
            },
        )
    } else if !fits(data, 4, 4) {
        Err(short(data, 4, 4))
    } else if u32_at(data, 4) != ANM_HEADER_SIZE {
        Err(
            DecodeError::StructuralCrossCheckFailed {
                field: "header size",
                expected: ANM_HEADER_SIZE as u64,
                actual: u32_at(data, 4) as u64,
            },
        )
    } else if !fits(data, 8, 16) {
        Err(short(data, 8, 16))
    } else if !valid_utf8(data.subrange(8, 24)) {
        Err(DecodeError::TextDecodeFailed { offset: 8 })
    } else if !fits(data, 24, 4) {
        Err(short(data, 24, 4))
    } else if !fits(data, 28, 4) {
        Err(short(data, 28, 4))
    } else if !fits(data, 32, 4) {
        Err(short(data, 32, 4))
    } else {
        match parse_many(anim_reader(data, u32_at(data, 28) as nat), 36, u32_at(data, 24) as nat) {
            Err(e) => Err(e),
            Ok((anims, end)) => if end != data.len() {
                Err(DecodeError::TrailingDataError { consumed: end as u64, length: data.len() as u64 })
            } else {
                Ok(
                    AnimationTrack {
                        name: decode_utf8(data.subrange(8, 24)),
                        delay: u32_at(data, 32),
                        anims,
                    },
                )
            },
        }
    }
}

impl AnmDecoder {
    /// Decodes an ANM buffer: the header, then `anims x blocks` keyframes,
    /// which must end exactly at the end of the buffer.
    #[verifier::loop_isolation(false)]
    pub fn new(anm_data: &[u8]) -> (r: Result<AnmDecoder, DecodeError>)
        ensures
            match r {
                Ok(d) => parse_anm(anm_data@) == Ok::<_, DecodeError>(d@),
                Err(e) => parse_anm(anm_data@) == Err::<AnimationTrack, _>(e),
            },
    {
        let mut cursor = Cursor::new(anm_data);
        let magic = cursor.read_u32()?;
        if magic != ANM_MAGIC_8XOV && magic != ANM_MAGIC_MIRT {
            return Err(
                DecodeError::MagicMismatch {
                    field: "magic",
                    expected: ANM_MAGIC_8XOV as u64,
                    actual: magic as u64,
                },
            );
        }
        let header_size = cursor.read_u32()?;
        expect_computed("header size", ANM_HEADER_SIZE as u64, header_size as u64)?;
        let name = match string_from_utf8(slice_to_vec(cursor.read_slice(16)?)) {
            Some(name) => name,
            None => {
                return Err(DecodeError::TextDecodeFailed { offset: 8 });
            },
        };
        let num_anims = cursor.read_u32()? as usize;
        let num_anim_blocks = cursor.read_u32()? as usize;
        let delay = cursor.read_u32()?;

        let ghost data = anm_data@;
        let mut anims: Vec<AnmAnim> = Vec::new();
        let mut i: usize = 0;
        assert(views(anims@) =~= Seq::empty());
        while i < num_anims
            invariant
                i <= num_anims,
                cursor.data@ == data,
                parse_many(anim_reader(data, num_anim_blocks as nat), 36, i as nat) == Ok::<
                    _,
                    DecodeError,
                >((views(anims@), cursor.pos as int)),
            decreases num_anims - i,
        {
            match read_records::<AnmBlock>(&mut cursor, num_anim_blocks) {
                Ok(blocks) => {
                    let anim = AnmAnim { blocks };
                    proof {
                        lemma_views_push(anims@, anim);
                    }
                    anims.push(anim);
                },
                Err(e) => {
                    proof {
                        lemma_many_fails(
                            anim_reader(data, num_anim_blocks as nat),
                            36,
                            (i + 1) as nat,
                            num_anims as nat,
                        );
                    }
                    return Err(e);
                },
            }
            i = i + 1;
        }
        if cursor.position() != anm_data.len() {
            return Err(
                DecodeError::TrailingDataError {
                    consumed: cursor.position() as u64,
                    length: anm_data.len() as u64,
                },
            );
        }
        Ok(AnmDecoder { name, delay, anims })
    }
}

} // verus!
