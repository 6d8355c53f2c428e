//! Tileset container decoding: a sequence of fixed 64-byte tiles, one
//! palette-index byte per pixel on an 8-by-8 grid, row-major.

use vstd::prelude::*;

use crate::bytes::get_u16_le;
use crate::bytes::get_u32_le;
use crate::bytes::get_u8;
use crate::bytes::le16_at;
use crate::bytes::le32_at;
use crate::common::header_parse;
use crate::common::read_header;
use crate::error::FieldName;
use crate::error::NtrError;

verus! {

/// Tag of the tileset container envelope.
pub const NCGR_MAGIC: u32 = 0x4e434752;

/// Tag of the character-data section.
pub const CHAR_MAGIC: u32 = 0x43484152;

/// Tag of the optional trailing section that confirms the tile grid.
pub const CPOS_MAGIC: u32 = 0x43504f53;

/// Bytes in one tile: one byte per pixel on an 8-by-8 grid.
pub const TILE_BYTES: usize = 64;

/// A decoded tileset: its tiles in storage order, each of `TILE_BYTES`
/// palette-index bytes.
#[derive(Debug, PartialEq, Eq)]
pub struct Ncgr {
    pub tiles: Vec<Vec<u8>>,
}

/// The tile count that the header's grid dimensions declare.
pub open spec fn ncgr_declared_count(b: Seq<u8>) -> int {
    le16_at(b, 26) as int * le16_at(b, 24) as int
}

/// The tile count that the stored data size implies, at 64 bytes per tile.
pub open spec fn ncgr_present_count(b: Seq<u8>) -> int {
    le32_at(b, 40) as int / 64
}

/// The authoritative tile count: the declared grid size, unless it
/// disagrees with the stored data size, in which case the stored size wins.
pub open spec fn ncgr_tile_count(b: Seq<u8>) -> int {
    if ncgr_declared_count(b) == ncgr_present_count(b) {
        ncgr_declared_count(b)
    } else {
        ncgr_present_count(b)
    }
}

/// The tile-grid width, recanonicalized to a row of 32 tiles when the
/// declared grid disagrees with the stored data size.
pub open spec fn ncgr_grid_width(b: Seq<u8>) -> int {
    if ncgr_declared_count(b) == ncgr_present_count(b) {
        le16_at(b, 26) as int
    } else {
        32
    }
}

/// The tile-grid height under the same recanonicalization, reduced modulo
/// the 16-bit range the grid field offers.
pub open spec fn ncgr_grid_height(b: Seq<u8>) -> int {
    if ncgr_declared_count(b) == ncgr_present_count(b) {
        le16_at(b, 24) as int
    } else {
        (ncgr_present_count(b) % 0x10000) / 32
    }
}

/// The first failure among the envelope and the fixed header fields; `None`
/// when all of them hold.
pub open spec fn ncgr_env_checks(b: Seq<u8>) -> Option<NtrError> {
    match header_parse(b, NCGR_MAGIC) {
        Err(e) => Some(e),
        Ok(_) => {
            if b.len() < 20 {
                Some(NtrError::Truncated)
            } else if le32_at(b, 16) != CHAR_MAGIC {
                Some(
                    NtrError::Mismatch {
                        field: FieldName::SectionMagic,
                        expected: CHAR_MAGIC,
                        actual: le32_at(b, 16),
                    },
                )
            } else if b.len() < 32 {
                Some(NtrError::Truncated)
            } else if le32_at(b, 28) != 4 {
                Some(
                    NtrError::Mismatch {
                        field: FieldName::BitDepth,
                        expected: 4,
                        actual: le32_at(b, 28),
                    },
                )
            } else if b.len() < 40 {
                Some(NtrError::Truncated)
            } else if le32_at(b, 36) != 0 {
                Some(
                    NtrError::Mismatch {
                        field: FieldName::TileKind,
                        expected: 0,
                        actual: le32_at(b, 36),
                    },
                )
            } else if b.len() < 48 {
                Some(NtrError::Truncated)
            } else if le32_at(b, 44) != 24 {
                Some(
                    NtrError::Mismatch {
                        field: FieldName::DataOffset,
                        expected: 24,
                        actual: le32_at(b, 44),
                    },
                )
            } else {
                None
            }
        },
    }
}

/// The first failure among the grid recanonicalization and the presence of
/// the full tile data, checked once the fixed header fields hold.
pub open spec fn ncgr_grid_checks(b: Seq<u8>) -> Option<NtrError> {
    if ncgr_declared_count(b) != ncgr_present_count(b) && ncgr_present_count(b) % 32 != 0 {
        Some(
            NtrError::Mismatch {
                field: FieldName::TileCount,
                expected: 0,
                actual: (ncgr_present_count(b) % 32) as u32,
            },
        )
    } else if b.len() < 48 + 64 * ncgr_tile_count(b) {
        Some(NtrError::Truncated)
    } else {
        None
    }
}

/// The first failure among the envelope, the fixed header fields, the grid
/// recanonicalization, and the presence of the full tile data.
pub open spec fn ncgr_fixed_checks(b: Seq<u8>) -> Option<NtrError> {
    match ncgr_env_checks(b) {
        Some(e) => Some(e),
        None => ncgr_grid_checks(b),
    }
}

/// The first failure in the optional trailing grid-confirmation section,
/// read at the end of the tile data: the section may be absent outright,
/// but when present it must be complete, confirm the authoritative grid,
/// and end the container.
pub open spec fn ncgr_trail_checks(b: Seq<u8>) -> Option<NtrError> {
    let end = 48 + 64 * ncgr_tile_count(b);
    if b.len() == end {
        None
    } else if b.len() < end + 4 {
        Some(NtrError::Truncated)
    } else if le32_at(b, end) != CPOS_MAGIC {
        Some(
            NtrError::Mismatch {
                field: FieldName::SectionMagic,
                expected: CPOS_MAGIC,
                actual: le32_at(b, end),
            },
        )
    } else if b.len() < end + 8 {
        Some(NtrError::Truncated)
    } else if le32_at(b, end + 4) != 0x10 {
        Some(
            NtrError::Mismatch {
                field: FieldName::SectionSize,
                expected: 0x10,
                actual: le32_at(b, end + 4),
            },
        )
    } else if b.len() < end + 12 {
        Some(NtrError::Truncated)
    } else if le32_at(b, end + 8) != 0 {
        Some(
            NtrError::Mismatch { field: FieldName::Reserved, expected: 0, actual: le32_at(b, end + 8) },
        )
    } else if b.len() < end + 14 {
        Some(NtrError::Truncated)
    } else if le16_at(b, end + 12) != ncgr_grid_width(b) {
        Some(
            NtrError::Mismatch {
                field: FieldName::GridWidth,
                expected: ncgr_grid_width(b) as u32,
                actual: le16_at(b, end + 12) as u32,
            },
        )
    } else if b.len() < end + 16 {
        Some(NtrError::Truncated)
    } else if le16_at(b, end + 14) != ncgr_grid_height(b) {
        Some(
            NtrError::Mismatch {
                field: FieldName::GridHeight,
                expected: ncgr_grid_height(b) as u32,
                actual: le16_at(b, end + 14) as u32,
            },
        )
    } else if b.len() > end + 16 {
        Some(NtrError::TrailingData)
    } else {
        None
    }
}

/// The tiles stored in `b`: `ncgr_tile_count` consecutive 64-byte blocks
/// starting at the fixed data offset.
pub open spec fn ncgr_tiles(b: Seq<u8>) -> Seq<Seq<u8>> {
    Seq::new(ncgr_tile_count(b) as nat, |i: int| b.subrange(48 + 64 * i, 48 + 64 * i + 64))
}

/// The tiles decoded from `b`, or the first failure in the order the fields
/// stand in the container.
pub open spec fn ncgr_parse(b: Seq<u8>) -> Result<Seq<Seq<u8>>, NtrError> {
    match ncgr_fixed_checks(b) {
        Some(e) => Err(e),
        None => match ncgr_trail_checks(b) {
            Some(e) => Err(e),
            None => Ok(ncgr_tiles(b)),
        },
    }
}

/// Runs the envelope and fixed-field checks.
fn ncgr_check_env(data: &Vec<u8>) -> (r: Option<NtrError>)
    ensures
        r == ncgr_env_checks(data@),
{
    match read_header(data, NCGR_MAGIC) {
        Ok(_) => {},
        Err(e) => {
            return Some(e);
        },
    }
    let n = data.len();
    if n < 20 {
        return Some(NtrError::Truncated);
    }
    let char_tag = get_u32_le(data, 16);
    if char_tag != CHAR_MAGIC {
        return Some(
            NtrError::Mismatch {
                field: FieldName::SectionMagic,
                expected: CHAR_MAGIC,
                actual: char_tag,
            },
        );
    }
    if n < 32 {
        return Some(NtrError::Truncated);
    }
    let depth_raw = get_u32_le(data, 28);
    if depth_raw != 4 {
        return Some(
            NtrError::Mismatch { field: FieldName::BitDepth, expected: 4, actual: depth_raw },
        );
    }
    if n < 40 {
        return Some(NtrError::Truncated);
    }
    let kind = get_u32_le(data, 36);
    if kind != 0 {
        return Some(NtrError::Mismatch { field: FieldName::TileKind, expected: 0, actual: kind });
    }
    if n < 48 {
        return Some(NtrError::Truncated);
    }
    let gfx_offset = get_u32_le(data, 44);
    if gfx_offset != 24 {
        return Some(
            NtrError::Mismatch { field: FieldName::DataOffset, expected: 24, actual: gfx_offset },
        );
    }
    None
}

/// Resolves the authoritative tile count and grid and checks that the full
/// tile data is present.
fn ncgr_check_grid(data: &Vec<u8>) -> (r: Result<(u32, u16, u16), NtrError>)
    requires
        data@.len() >= 48,
    ensures
        r is Err ==> ncgr_grid_checks(data@) == Some(r->Err_0),
        r is Ok ==> ncgr_grid_checks(data@) is None,
        r is Ok ==> r->Ok_0.0 == ncgr_tile_count(data@),
        r is Ok ==> r->Ok_0.1 == ncgr_grid_width(data@),
        r is Ok ==> r->Ok_0.2 == ncgr_grid_height(data@),
        r is Ok ==> data@.len() >= 48 + 64 * ncgr_tile_count(data@),
{
    let n = data.len();
    let tiles_y = get_u16_le(data, 24);
    let tiles_x = get_u16_le(data, 26);
    let tds = get_u32_le(data, 40);
    proof {
        assert(tiles_x as int * tiles_y as int <= 0xFFFF * 0xFFFF) by (nonlinear_arith)
            requires
                0 <= tiles_x <= 0xFFFF,
                0 <= tiles_y <= 0xFFFF,
        ;
    }
    let declared = tiles_x as u32 * tiles_y as u32;
    let present = tds / 64;
    let tc: u32;
    let grid_w: u16;
    let grid_h: u16;
    if declared != present {
        if present % 32 != 0 {
            return Err(
                NtrError::Mismatch { field: FieldName::TileCount, expected: 0, actual: present % 32 },
            );
        }
        tc = present;
        grid_w = 32;
        grid_h = ((present % 0x10000) / 32) as u16;
    } else {
        tc = declared;
        grid_w = tiles_x;
        grid_h = tiles_y;
    }
    if (n as u64) - 48 < 64 * (tc as u64) {
        return Err(NtrError::Truncated);
    }
    Ok((tc, grid_w, grid_h))
}

/// Reads the stored tiles; the input is known to hold them all.
fn ncgr_read_tiles(data: &Vec<u8>, tc: u32) -> (tiles: Vec<Vec<u8>>)
    requires
        tc == ncgr_tile_count(data@),
        data@.len() >= 48 + 64 * tc,
    ensures
        tiles@.len() == tc,
        forall|i: int| 0 <= i < tc ==> #[trigger] tiles@[i]@ == ncgr_tiles(data@)[i],
        forall|i: int| 0 <= i < tc ==> #[trigger] tiles@[i]@.len() == TILE_BYTES,
{
    let n = data.len();
    let tcu = tc as usize;
    let mut tiles: Vec<Vec<u8>> = Vec::new();
    let mut i: usize = 0;
    while i < tcu
        invariant
            i <= tcu,
            n == data@.len(),
            n >= 48 + 64 * tcu,
            tiles@.len() == i,
            forall|t: int|
                0 <= t < i ==> #[trigger] tiles@[t]@ == data@.subrange(48 + 64 * t, 48 + 64 * t + 64),
        decreases tcu - i,
    {
        let mut tile: Vec<u8> = Vec::new();
        let mut j: usize = 0;
        while j < TILE_BYTES
            invariant
                j <= TILE_BYTES,
                i < tcu,
                n == data@.len(),
                n >= 48 + 64 * tcu,
                tile@.len() == j,
                forall|u: int| 0 <= u < j ==> #[trigger] tile@[u] == data@[48 + 64 * i + u],
            decreases TILE_BYTES - j,
        {
            let x = get_u8(data, 48 + 64 * i + j);
            tile.push(x);
            j = j + 1;
        }
        proof {
            assert(tile@ =~= data@.subrange(48 + 64 * (i as int), 48 + 64 * (i as int) + 64));
        }
        tiles.push(tile);
        i = i + 1;
    }
    tiles
}

/// Consumes the optional trailing grid-confirmation section.
fn ncgr_check_trail(data: &Vec<u8>, tc: u32, grid_w: u16, grid_h: u16) -> (r: Option<NtrError>)
    requires
        tc == ncgr_tile_count(data@),
        grid_w == ncgr_grid_width(data@),
        grid_h == ncgr_grid_height(data@),
        data@.len() >= 48 + 64 * tc,
    ensures
        r == ncgr_trail_checks(data@),
{
    let n = data.len();
    let end: usize = 48 + 64 * (tc as usize);
    if n == end {
        return None;
    }
    if n - end < 4 {
        return Some(NtrError::Truncated);
    }
    let cpos = get_u32_le(data, end);
    if cpos != CPOS_MAGIC {
        return Some(
            NtrError::Mismatch {
                field: FieldName::SectionMagic,
                expected: CPOS_MAGIC,
                actual: cpos,
            },
        );
    }
    if n - end < 8 {
        return Some(NtrError::Truncated);
    }
    let cpos_size = get_u32_le(data, end + 4);
    if cpos_size != 0x10 {
        return Some(
            NtrError::Mismatch { field: FieldName::SectionSize, expected: 0x10, actual: cpos_size },
        );
    }
    if n - end < 12 {
        return Some(NtrError::Truncated);
    }
    let unk = get_u32_le(data, end + 8);
    if unk != 0 {
        return Some(NtrError::Mismatch { field: FieldName::Reserved, expected: 0, actual: unk });
    }
    if n - end < 14 {
        return Some(NtrError::Truncated);
    }
    let tw = get_u16_le(data, end + 12);
    if tw != grid_w {
        return Some(
            NtrError::Mismatch {
                field: FieldName::GridWidth,
                expected: grid_w as u32,
                actual: tw as u32,
            },
        );
    }
    if n - end < 16 {
        return Some(NtrError::Truncated);
    }
    let th = get_u16_le(data, end + 14);
    if th != grid_h {
        return Some(
            NtrError::Mismatch {
                field: FieldName::GridHeight,
                expected: grid_h as u32,
                actual: th as u32,
            },
        );
    }
    if n - end > 16 {
        return Some(NtrError::TrailingData);
    }
    None
}

impl Ncgr {
    /// Decodes a tileset container. On success the tiles are exactly the
    /// `ncgr_tile_count` blocks of `TILE_BYTES` bytes that the data section
    /// stores; on failure the error is the first violation in field order.
    pub fn new(data: &Vec<u8>) -> (r: Result<Ncgr, NtrError>)
        ensures
            (r is Ok) <==> (ncgr_parse(data@) is Ok),
            r is Ok ==> r->Ok_0.tiles@.len() == ncgr_tile_count(data@),
            r is Ok ==> forall|i: int|
                0 <= i < r->Ok_0.tiles@.len() ==> #[trigger] r->Ok_0.tiles@[i]@
                    == ncgr_parse(data@)->Ok_0[i],
            r is Ok ==> forall|i: int|
                0 <= i < r->Ok_0.tiles@.len() ==> #[trigger] r->Ok_0.tiles@[i]@.len() == TILE_BYTES,
            r is Err ==> r->Err_0 == ncgr_parse(data@)->Err_0,
    {
        match ncgr_check_env(data) {
            None => {},
            Some(e) => {
                return Err(e);
            },
        }
        let (tc, grid_w, grid_h) = match ncgr_check_grid(data) {
            Ok(v) => v,
            Err(e) => {
                return Err(e);
            },
        };
        let tiles = ncgr_read_tiles(data, tc);
        match ncgr_check_trail(data, tc, grid_w, grid_h) {
            Some(e) => Err(e),
            None => Ok(Ncgr { tiles }),
        }
    }
}

} // verus!
