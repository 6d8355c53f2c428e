//! Palette container decoding: fixed-size tables of packed 15-bit colors
//! expanded to 8-bit-per-channel RGBA.

use vstd::prelude::*;

use crate::bytes::get_u16_le;
use crate::bytes::get_u32_le;
use crate::bytes::le16_at;
use crate::bytes::le32_at;
use crate::common::header_parse;
use crate::common::read_header;
use crate::error::FieldName;
use crate::error::NtrError;

verus! {

/// Tag of the palette container envelope.
pub const NCLR_MAGIC: u32 = 0x4e434c52;

/// Tag of the palette-data section.
pub const PLTT_MAGIC: u32 = 0x504c5454;

/// Tag of the palette-compare section that declares the table count.
pub const PCMP_MAGIC: u32 = 0x50434D50;

/// Number of colors in one table: two raised to the bit depth of eight.
pub const COLOURS_PER_PALETTE: usize = 256;

/// One color, 8 bits per channel.
#[derive(Clone, Copy, Debug, PartialEq, Eq, Structural)]
pub struct NclrColor {
    pub r: u8,
    pub g: u8,
    pub b: u8,
    pub a: u8,
}

/// A decoded palette: one or more color tables of `COLOURS_PER_PALETTE`
/// entries each.
#[derive(Debug, PartialEq, Eq)]
pub struct Nclr {
    pub palettes: Vec<Vec<NclrColor>>,
}

/// The color packed into the 16-bit value `data`: five bits each of red,
/// green and blue from the low fifteen bits, each scaled by eight, with full
/// opacity.
pub open spec fn color_from_1555(data: u16) -> NclrColor {
    NclrColor {
        r: ((data % 32) * 8) as u8,
        g: ((data / 32 % 32) * 8) as u8,
        b: ((data / 1024 % 32) * 8) as u8,
        a: 255,
    }
}

/// The color table count that the palette-compare section of `b` declares.
pub open spec fn nclr_declared_palettes(b: Seq<u8>) -> u16 {
    le16_at(b, 48 + le32_at(b, 32))
}

/// The color tables decoded from `b`, or the first failure in the order the
/// fields stand in the container: envelope, palette-data section with its
/// bit depth, external-palette flag, data offset and size consistency, the
/// raw color data, and the palette-compare section whose declared table
/// count must equal the number of complete tables the data holds.
pub open spec fn nclr_parse(b: Seq<u8>) -> Result<Seq<Seq<NclrColor>>, NtrError> {
    match header_parse(b, NCLR_MAGIC) {
        Err(e) => Err(e),
        Ok(_) => {
            if b.len() < 20 {
                Err(NtrError::Truncated)
            } else if le32_at(b, 16) != PLTT_MAGIC {
                Err(
                    NtrError::Mismatch {
                        field: FieldName::SectionMagic,
                        expected: PLTT_MAGIC,
                        actual: le32_at(b, 16),
                    },
                )
            } else if b.len() < 28 {
                Err(NtrError::Truncated)
            } else if le32_at(b, 24) != 4 {
                Err(
                    NtrError::Mismatch {
                        field: FieldName::BitDepth,
                        expected: 4,
                        actual: le32_at(b, 24),
                    },
                )
            } else if b.len() < 32 {
                Err(NtrError::Truncated)
            } else if le32_at(b, 28) == 0 {
                Err(
                    NtrError::Mismatch {
                        field: FieldName::ExternalPalette,
                        expected: 1,
                        actual: 0,
                    },
                )
            } else if b.len() < 40 {
                Err(NtrError::Truncated)
            } else if le32_at(b, 36) != 16 {
                Err(
                    NtrError::Mismatch {
                        field: FieldName::DataOffset,
                        expected: 16,
                        actual: le32_at(b, 36),
                    },
                )
            } else if le32_at(b, 20) != le32_at(b, 32) + 0x18 {
                Err(
                    NtrError::Mismatch {
                        field: FieldName::SectionSize,
                        expected: vstd::wrapping::u32_specs::wrapping_add(le32_at(b, 32), 0x18),
                        actual: le32_at(b, 20),
                    },
                )
            } else {
                let ds = le32_at(b, 32) as int;
                let q = 40 + ds;
                if b.len() < q {
                    Err(NtrError::Truncated)
                } else if b.len() < q + 4 {
                    Err(NtrError::Truncated)
                } else if le32_at(b, q) != PCMP_MAGIC {
                    Err(
                        NtrError::Mismatch {
                            field: FieldName::SectionMagic,
                            expected: PCMP_MAGIC,
                            actual: le32_at(b, q),
                        },
                    )
                } else if b.len() < q + 10 {
                    Err(NtrError::Truncated)
                } else {
                    let nb = le16_at(b, q + 8) as int;
                    if le32_at(b, q + 4) != nb * 2 + 16 {
                        Err(
                            NtrError::Mismatch {
                                field: FieldName::SectionSize,
                                expected: (nb * 2 + 16) as u32,
                                actual: le32_at(b, q + 4),
                            },
                        )
                    } else if b.len() < q + 16 + 2 * nb {
                        Err(NtrError::Truncated)
                    } else if ds / 512 != nb {
                        Err(
                            NtrError::Mismatch {
                                field: FieldName::PaletteCount,
                                expected: nb as u32,
                                actual: (ds / 512) as u32,
                            },
                        )
                    } else if b.len() > q + 16 + 2 * nb {
                        Err(NtrError::TrailingData)
                    } else {
                        Ok(
                            Seq::new(
                                nb as nat,
                                |p: int|
                                    Seq::new(
                                        COLOURS_PER_PALETTE as nat,
                                        |c: int| color_from_1555(le16_at(b, 40 + 512 * p + 2 * c)),
                                    ),
                            ),
                        )
                    }
                }
            }
        },
    }
}

/// Expands a packed 15-bit color to 8 bits per channel with full opacity.
pub fn convert_1555_to_8888(data: u16) -> (c: NclrColor)
    ensures
        c == color_from_1555(data),
{
    let r = ((data % 32) * 8) as u8;
    let g = ((data / 32 % 32) * 8) as u8;
    let b = ((data / 1024 % 32) * 8) as u8;
    NclrColor { r, g, b, a: 255 }
}

impl Nclr {
    /// Decodes a palette container. On success the tables are exactly those
    /// that `nclr_parse` reads from the bytes: as many tables as the
    /// palette-compare section declares, each of `COLOURS_PER_PALETTE`
    /// colors; on failure the error is the first violation in field order.
    pub fn new(data: &Vec<u8>) -> (r: Result<Nclr, NtrError>)
        ensures
            (r is Ok) <==> (nclr_parse(data@) is Ok),
            r is Ok ==> r->Ok_0.palettes@.len() == nclr_parse(data@)->Ok_0.len(),
            r is Ok ==> forall|p: int|
                0 <= p < r->Ok_0.palettes@.len() ==> #[trigger] r->Ok_0.palettes@[p]@
                    == nclr_parse(data@)->Ok_0[p],
            r is Err ==> r->Err_0 == nclr_parse(data@)->Err_0,
            r is Ok ==> r->Ok_0.palettes@.len() == nclr_declared_palettes(data@),
            r is Ok ==> forall|p: int|
                0 <= p < r->Ok_0.palettes@.len() ==> #[trigger] r->Ok_0.palettes@[p]@.len()
                    == COLOURS_PER_PALETTE,
    {
        match read_header(data, NCLR_MAGIC) {
            Ok(_) => {},
            Err(e) => {
                return Err(e);
            },
        }
        let n = data.len();
        if n < 20 {
            return Err(NtrError::Truncated);
        }
        let pltt = get_u32_le(data, 16);
        if pltt != PLTT_MAGIC {
            return Err(
                NtrError::Mismatch {
                    field: FieldName::SectionMagic,
                    expected: PLTT_MAGIC,
                    actual: pltt,
                },
            );
        }
        if n < 28 {
            return Err(NtrError::Truncated);
        }
        let bits_raw = get_u32_le(data, 24);
        if bits_raw != 4 {
            return Err(
                NtrError::Mismatch { field: FieldName::BitDepth, expected: 4, actual: bits_raw },
            );
        }
        if n < 32 {
            return Err(NtrError::Truncated);
        }
        let external = get_u32_le(data, 28);
        if external == 0 {
            return Err(
                NtrError::Mismatch { field: FieldName::ExternalPalette, expected: 1, actual: 0 },
            );
        }
        if n < 40 {
            return Err(NtrError::Truncated);
        }
        let data_offset = get_u32_le(data, 36);
        if data_offset != 16 {
            return Err(
                NtrError::Mismatch { field: FieldName::DataOffset, expected: 16, actual: data_offset },
            );
        }
        let pltt_size = get_u32_le(data, 20);
        let ds = get_u32_le(data, 32);
        if pltt_size as u64 != ds as u64 + 0x18 {
            return Err(
                NtrError::Mismatch {
                    field: FieldName::SectionSize,
                    expected: ds.wrapping_add(0x18),
                    actual: pltt_size,
                },
            );
        }
        let dsu = ds as usize;
        if n - 40 < dsu {
            return Err(NtrError::Truncated);
        }
        let q = 40 + dsu;
        if n - q < 4 {
            return Err(NtrError::Truncated);
        }
        let pcmp = get_u32_le(data, q);
        if pcmp != PCMP_MAGIC {
            return Err(
                NtrError::Mismatch {
                    field: FieldName::SectionMagic,
                    expected: PCMP_MAGIC,
                    actual: pcmp,
                },
            );
        }
        if n - q < 10 {
            return Err(NtrError::Truncated);
        }
        let nb = get_u16_le(data, q + 8);
        let pcmp_size = get_u32_le(data, q + 4);
        if pcmp_size != nb as u32 * 2 + 16 {
            return Err(
                NtrError::Mismatch {
                    field: FieldName::SectionSize,
                    expected: nb as u32 * 2 + 16,
                    actual: pcmp_size,
                },
            );
        }
        let nbu = nb as usize;
        if n - q < 16 + 2 * nbu {
            return Err(NtrError::Truncated);
        }
        if dsu / 512 != nbu {
            return Err(
                NtrError::Mismatch {
                    field: FieldName::PaletteCount,
                    expected: nb as u32,
                    actual: (ds / 512) as u32,
                },
            );
        }
        if n - q > 16 + 2 * nbu {
            return Err(NtrError::TrailingData);
        }
        let mut palettes: Vec<Vec<NclrColor>> = Vec::new();
        let mut p: usize = 0;
        while p < nbu
            invariant
                p <= nbu,
                n == data@.len(),
                q == 40 + dsu,
                dsu / 512 == nbu,
                dsu == le32_at(data@, 32),
                n >= q,
                palettes@.len() == p,
                forall|t: int|
                    0 <= t < p ==> #[trigger] palettes@[t]@ == Seq::new(
                        COLOURS_PER_PALETTE as nat,
                        |c: int| color_from_1555(le16_at(data@, 40 + 512 * t + 2 * c)),
                    ),
            decreases nbu - p,
        {
            let mut colours: Vec<NclrColor> = Vec::new();
            let mut c: usize = 0;
            proof {
                assert(512 * (p + 1) <= 512 * nbu) by (nonlinear_arith)
                    requires
                        p + 1 <= nbu,
                ;
                assert(512 * nbu <= dsu) by (nonlinear_arith)
                    requires
                        nbu == dsu / 512,
                ;
            }
            while c < COLOURS_PER_PALETTE
                invariant
                    c <= COLOURS_PER_PALETTE,
                    p < nbu,
                    n == data@.len(),
                    q == 40 + dsu,
                    n >= q,
                    512 * (p + 1) <= dsu,
                    colours@.len() == c,
                    forall|u: int|
                        0 <= u < c ==> #[trigger] colours@[u] == color_from_1555(
                            le16_at(data@, 40 + 512 * p + 2 * u),
                        ),
                decreases COLOURS_PER_PALETTE - c,
            {
                let e = get_u16_le(data, 40 + 512 * p + 2 * c);
                colours.push(convert_1555_to_8888(e));
                c = c + 1;
            }
            proof {
                assert(colours@ =~= Seq::new(
                    COLOURS_PER_PALETTE as nat,
                    |u: int| color_from_1555(le16_at(data@, 40 + 512 * (p as int) + 2 * u)),
                ));
            }
            palettes.push(colours);
            p = p + 1;
        }
        proof {
            let spec_tables = nclr_parse(data@)->Ok_0;
            assert forall|t: int| 0 <= t < nbu implies #[trigger] palettes@[t]@
                == spec_tables[t] by {}
        }
        Ok(Nclr { palettes })
    }
}

} // verus!
