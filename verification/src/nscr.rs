//! Tilemap container decoding: a 2D grid of tile references, each naming a
//! tile and the color table through which it is resolved.

use vstd::prelude::*;

use crate::bytes::get_u16_le;
use crate::bytes::get_u32_le;
use crate::bytes::le16_at;
use crate::bytes::le32_at;
use crate::common::header_parse;
use crate::common::read_header;
use crate::error::FieldName;
use crate::error::NtrError;

verus! {

/// Tag of the tilemap container envelope.
pub const NSCR_MAGIC: u32 = 0x4E534352;

/// Tag of the screen-data section inside the container.
pub const SCRN_MAGIC: u32 = 0x5343524E;

/// One cell of the placement grid: a tile index and the color table that
/// resolves it.
#[derive(Clone, Copy, Debug, PartialEq, Eq, Structural)]
pub struct NscrTile {
    pub id: u16,
    pub palette: u8,
}

/// A decoded tilemap: grid dimensions in tiles and the row-major placement
/// grid, with `map.len()` equal to `width * height`.
#[derive(Debug, PartialEq, Eq)]
pub struct Nscr {
    pub width: u32,
    pub height: u32,
    pub map: Vec<NscrTile>,
}

/// The tile reference packed into the 16-bit entry `e`: the low 12 bits are
/// the tile id, the high 4 bits the color-table index.
pub open spec fn nscr_entry(e: u16) -> NscrTile {
    NscrTile { id: (e % 0x1000) as u16, palette: (e / 0x1000) as u8 }
}

/// The tile-grid width of the tilemap stored in `b`: the pixel width
/// divided by the tile edge of eight.
pub open spec fn nscr_width(b: Seq<u8>) -> int {
    le16_at(b, 24) as int / 8
}

/// The tile-grid height of the tilemap stored in `b`.
pub open spec fn nscr_height(b: Seq<u8>) -> int {
    le16_at(b, 26) as int / 8
}

/// The tilemap decoded from `b`: grid width and height in tiles and the
/// row-major sequence of tile references, or the first failure in the order
/// the fields stand in the container.
pub open spec fn nscr_parse(b: Seq<u8>) -> Result<(u32, u32, Seq<NscrTile>), NtrError> {
    match header_parse(b, NSCR_MAGIC) {
        Err(e) => Err(e),
        Ok(_) => {
            if b.len() < 20 {
                Err(NtrError::Truncated)
            } else if le32_at(b, 16) != SCRN_MAGIC {
                Err(
                    NtrError::Mismatch {
                        field: FieldName::SectionMagic,
                        expected: SCRN_MAGIC,
                        actual: le32_at(b, 16),
                    },
                )
            } else if b.len() < 32 {
                Err(NtrError::Truncated)
            } else if le16_at(b, 30) != 0 {
                Err(
                    NtrError::Mismatch {
                        field: FieldName::MapFormat,
                        expected: 0,
                        actual: le16_at(b, 30) as u32,
                    },
                )
            } else if b.len() < 36 {
                Err(NtrError::Truncated)
            } else {
                let w = nscr_width(b);
                let h = nscr_height(b);
                let n = w * h;
                if b.len() < 36 + 2 * n {
                    Err(NtrError::Truncated)
                } else if b.len() > 36 + 2 * n {
                    Err(NtrError::TrailingData)
                } else {
                    Ok(
                        (
                            w as u32,
                            h as u32,
                            Seq::new(n as nat, |i: int| nscr_entry(le16_at(b, 36 + 2 * i))),
                        ),
                    )
                }
            }
        },
    }
}

impl Nscr {
    /// Decodes a tilemap container. On success the grid dimensions and every
    /// tile reference are exactly those that `nscr_parse` reads from the
    /// bytes; on failure the error is the first violation in field order.
    pub fn new(data: &Vec<u8>) -> (r: Result<Nscr, NtrError>)
        ensures
            (r is Ok) <==> (nscr_parse(data@) is Ok),
            r is Ok ==> r->Ok_0.width == nscr_parse(data@)->Ok_0.0,
            r is Ok ==> r->Ok_0.height == nscr_parse(data@)->Ok_0.1,
            r is Ok ==> r->Ok_0.map@ == nscr_parse(data@)->Ok_0.2,
            r is Err ==> r->Err_0 == nscr_parse(data@)->Err_0,
    {
        match read_header(data, NSCR_MAGIC) {
            Ok(_) => {},
            Err(e) => {
                return Err(e);
            },
        }
        let n = data.len();
        if n < 20 {
            return Err(NtrError::Truncated);
        }
        let scrn = get_u32_le(data, 16);
        if scrn != SCRN_MAGIC {
            return Err(
                NtrError::Mismatch {
                    field: FieldName::SectionMagic,
                    expected: SCRN_MAGIC,
                    actual: scrn,
                },
            );
        }
        if n < 32 {
            return Err(NtrError::Truncated);
        }
        let format = get_u16_le(data, 30);
        if format != 0 {
            return Err(
                NtrError::Mismatch {
                    field: FieldName::MapFormat,
                    expected: 0,
                    actual: format as u32,
                },
            );
        }
        if n < 36 {
            return Err(NtrError::Truncated);
        }
        let w = get_u16_le(data, 24) / 8;
        let h = get_u16_le(data, 26) / 8;
        proof {
            assert(w <= 8191 && h <= 8191);
            assert(w as int * h as int <= 8191 * 8191) by (nonlinear_arith)
                requires
                    0 <= w <= 8191,
                    0 <= h <= 8191,
            ;
        }
        let nb: usize = w as usize * h as usize;
        if n - 36 < 2 * nb {
            return Err(NtrError::Truncated);
        }
        if n - 36 > 2 * nb {
            return Err(NtrError::TrailingData);
        }
        let mut map: Vec<NscrTile> = Vec::new();
        let mut i: usize = 0;
        while i < nb
            invariant
                i <= nb,
                n == data@.len(),
                n == 36 + 2 * nb,
                map@.len() == i,
                forall|t: int|
                    0 <= t < i ==> #[trigger] map@[t] == nscr_entry(le16_at(data@, 36 + 2 * t)),
            decreases nb - i,
        {
            let e = get_u16_le(data, 36 + 2 * i);
            map.push(NscrTile { id: e % 0x1000, palette: (e / 0x1000) as u8 });
            i = i + 1;
        }
        proof {
            assert(map@ =~= nscr_parse(data@)->Ok_0.2);
        }
        Ok(Nscr { width: w as u32, height: h as u32, map })
    }
}

} // verus!
