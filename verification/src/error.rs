//! The typed failures that the decoders report. Every structural check of the
//! container formats is surfaced as a value of `NtrError`, carrying the field
//! that failed together with the expected and actual values where they apply.

use vstd::prelude::*;

verus! {

/// Names the structural field whose check failed.
#[derive(Clone, Copy, Debug, PartialEq, Eq, Structural)]
pub enum FieldName {
    /// The 4-byte tag that opens the whole container.
    FileMagic,
    /// The 4-byte tag that opens an inner section.
    SectionMagic,
    /// A declared section size that must agree with the section's contents.
    SectionSize,
    /// The encoded bit-depth field of a palette or tileset.
    BitDepth,
    /// The palette flag that must mark an external palette.
    ExternalPalette,
    /// A fixed data offset inside a section.
    DataOffset,
    /// The declared number of color tables.
    PaletteCount,
    /// The tile storage kind of a tileset.
    TileKind,
    /// The stored tile count when the grid must be recanonicalized.
    TileCount,
    /// The confirmed tile-grid width of a tileset.
    GridWidth,
    /// The confirmed tile-grid height of a tileset.
    GridHeight,
    /// The per-tile encoding format of a tilemap.
    MapFormat,
    /// The attribute field of a cell bank.
    BankAttributes,
    /// The fixed per-cell data offset of a cell bank.
    CellDataOffset,
    /// The mapping mode of a cell bank.
    MappingMode,
    /// The VRAM transfer offset of a cell bank.
    VramTransferOffset,
    /// A reserved field that must hold zero.
    Reserved,
    /// The user-extended offset of a cell bank.
    UserExtendedOffset,
}

/// A decoding failure. A parse either yields a fully valid structure or one
/// of these; there is no partial result.
#[derive(Clone, Copy, Debug, PartialEq, Eq, Structural)]
pub enum NtrError {
    /// A required field or block extends past the end of the input.
    Truncated,
    /// A structural field does not hold its required value.
    Mismatch { field: FieldName, expected: u32, actual: u32 },
    /// A back-reference reaches farther back than the output produced so far.
    InvalidBackReference,
    /// Bytes remain after the end of the decoded structure.
    TrailingData,
    /// A required trailing section, identified by its tag, is absent.
    MissingSection { tag: u32 },
    /// A label block holds bytes that are not valid text.
    InvalidLabel,
    /// A tile reference names a tile that the tileset does not hold.
    TileOutOfRange,
    /// A tile reference names a color table that the palette does not hold.
    PaletteOutOfRange,
    /// A pixel holds a color index that its color table does not hold.
    ColorOutOfRange,
}

} // verus!
