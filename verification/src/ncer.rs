//! Sprite-cell container decoding: per-cell attribute records, their packed
//! hardware-style entries, and the null-delimited label block that names the
//! cells.

use vstd::prelude::*;

use crate::bytes::get_u16_le;
use crate::bytes::get_u32_le;
use crate::bytes::get_u8;
use crate::bytes::le16_at;
use crate::bytes::le32_at;
use crate::common::header_parse;
use crate::common::read_header;
use crate::error::FieldName;
use crate::error::NtrError;
use vstd::utf8::decode_utf8;
use vstd::utf8::valid_utf8;

verus! {

/// Tag of the cell container envelope.
pub const NCER_MAGIC: u32 = 0x4e434552;

/// Tag of the cell-bank section.
pub const CEBK_MAGIC: u32 = 0x4345424b;

/// Tag of the label section.
pub const LABL_MAGIC: u32 = 0x4c41424c;

/// Tag of the user-extension section that closes the container.
pub const UEXT_MAGIC: u32 = 0x55455854;

/// One decoded hardware-style attribute record of a cell.
#[derive(Clone, Copy, Debug, PartialEq, Eq, Structural)]
pub struct NcerCellAttr {
    pub y: u16,
    pub rotate_scale: bool,
    pub double_size: bool,
    pub disabled: bool,
    pub mode: u8,
    pub mosaic: bool,
    pub is_8: bool,
    pub shape: u8,
    pub x: u16,
    pub matrix: u8,
    pub flip_x: bool,
    pub flip_y: bool,
    pub size: u8,
    pub character_name: u16,
    pub priority: u8,
    pub palette: u8,
}

/// One cell: its bank attributes and its attribute records in order.
#[derive(Debug, PartialEq, Eq)]
pub struct NcerCell {
    pub attributes: u16,
    pub oam: Vec<NcerCellAttr>,
}

/// A decoded cell container: the cells and the labels of the label block.
#[derive(Debug, PartialEq, Eq)]
pub struct Ncer {
    pub cells: Vec<NcerCell>,
    pub labels: Vec<String>,
}

/// The record decoded from one packed triple of 16-bit attribute words. The
/// double-size and disabled flags share a bit whose meaning the
/// rotation/scaling flag selects, as do the flip flags and the matrix index.
pub open spec fn oam_from_attrs(attr0: u16, attr1: u16, attr2: u16) -> NcerCellAttr {
    let rotate_scale = attr0 & 0x0100 != 0;
    let double_or_disabled = attr0 & 0x0200 != 0;
    NcerCellAttr {
        y: attr0 & 0xFF,
        rotate_scale: rotate_scale,
        double_size: rotate_scale && double_or_disabled,
        disabled: !rotate_scale && double_or_disabled,
        mode: ((attr0 >> 10) & 0b11) as u8,
        mosaic: attr0 & 0x1000 != 0,
        is_8: attr0 & 0x2000 != 0,
        shape: (attr0 >> 14) as u8,
        x: attr1 & 0x1FF,
        matrix: if rotate_scale {
            ((attr0 >> 9) & 0b11111) as u8
        } else {
            0
        },
        flip_x: !rotate_scale && attr0 & 0x1000 != 0,
        flip_y: !rotate_scale && attr0 & 0x2000 != 0,
        size: (attr1 >> 14) as u8,
        character_name: attr2 & 0x3FF,
        priority: ((attr2 >> 10) & 0b11) as u8,
        palette: ((attr2 >> 12) & 0x0F) as u8,
    }
}

/// Decodes one packed triple of 16-bit attribute words.
pub fn decode_oam_attrs(attr0: u16, attr1: u16, attr2: u16) -> (r: NcerCellAttr)
    ensures
        r == oam_from_attrs(attr0, attr1, attr2),
{
    let rotate_scale = attr0 & 0x0100 != 0;
    let double_or_disabled = attr0 & 0x0200 != 0;
    NcerCellAttr {
        y: attr0 & 0xFF,
        rotate_scale,
        double_size: rotate_scale && double_or_disabled,
        disabled: !rotate_scale && double_or_disabled,
        mode: ((attr0 >> 10) & 0b11) as u8,
        mosaic: attr0 & 0x1000 != 0,
        is_8: attr0 & 0x2000 != 0,
        shape: (attr0 >> 14) as u8,
        x: attr1 & 0x1FF,
        matrix: if rotate_scale {
            ((attr0 >> 9) & 0b11111) as u8
        } else {
            0
        },
        flip_x: !rotate_scale && attr0 & 0x1000 != 0,
        flip_y: !rotate_scale && attr0 & 0x2000 != 0,
        size: (attr1 >> 14) as u8,
        character_name: attr2 & 0x3FF,
        priority: ((attr2 >> 10) & 0b11) as u8,
        palette: ((attr2 >> 12) & 0x0F) as u8,
    }
}

/// The number of cells the bank declares.
pub open spec fn ncer_cell_count(b: Seq<u8>) -> int {
    le16_at(b, 24) as int
}

/// The record count of the cell at index `i`, from its descriptor.
pub open spec fn ncer_entry_count(b: Seq<u8>, i: int) -> int {
    le16_at(b, 48 + 8 * i) as int
}

/// The number of records that stand before those of cell `i`.
pub open spec fn ncer_oam_prefix(b: Seq<u8>, i: int) -> int
    decreases i,
{
    if i <= 0 {
        0
    } else {
        ncer_oam_prefix(b, i - 1) + ncer_entry_count(b, i - 1)
    }
}

/// The byte offset of the records of cell `i`, right after the descriptors.
pub open spec fn ncer_oam_base(b: Seq<u8>) -> int {
    48 + 8 * ncer_cell_count(b)
}

/// The byte offset of the label section: all descriptors and records lie
/// before it.
pub open spec fn ncer_labels_start(b: Seq<u8>) -> int {
    ncer_oam_base(b) + 6 * ncer_oam_prefix(b, ncer_cell_count(b))
}

/// The records of cell `i`, decoded in order from their packed triples.
pub open spec fn ncer_cell_oam(b: Seq<u8>, i: int) -> Seq<NcerCellAttr> {
    Seq::new(
        ncer_entry_count(b, i) as nat,
        |j: int|
            oam_from_attrs(
                le16_at(b, ncer_oam_base(b) + 6 * (ncer_oam_prefix(b, i) + j)),
                le16_at(b, ncer_oam_base(b) + 6 * (ncer_oam_prefix(b, i) + j) + 2),
                le16_at(b, ncer_oam_base(b) + 6 * (ncer_oam_prefix(b, i) + j) + 4),
            ),
    )
}

/// Every cell of the bank: its attribute word and its records.
pub open spec fn ncer_cells(b: Seq<u8>) -> Seq<(u16, Seq<NcerCellAttr>)> {
    Seq::new(ncer_cell_count(b) as nat, |i: int| (le16_at(b, 50 + 8 * i), ncer_cell_oam(b, i)))
}

/// The length of the run of non-null bytes starting at `i`.
pub open spec fn run_length(b: Seq<u8>, i: int) -> nat
    decreases b.len() - i,
{
    if i < 0 || i >= b.len() || b[i] == 0 {
        0
    } else {
        1 + run_length(b, i + 1)
    }
}

proof fn lemma_run_length_bounds(b: Seq<u8>, i: int)
    requires
        0 <= i < b.len(),
        b[i] != 0,
    ensures
        1 <= run_length(b, i),
        i + run_length(b, i) <= b.len(),
    decreases b.len() - i,
{
    if i + 1 < b.len() && b[i + 1] != 0 {
        lemma_run_length_bounds(b, i + 1);
    } else {
        assert(run_length(b, i + 1) == 0);
    }
}

#[via_fn]
proof fn label_runs_decreases(b: Seq<u8>, i: int) {
    if 0 <= i < b.len() && b[i] != 0 {
        lemma_run_length_bounds(b, i);
    }
}

/// The maximal runs of non-null bytes from `i` onward: the label block
/// split at its null delimiters, empty pieces dropped.
pub open spec fn label_runs(b: Seq<u8>, i: int) -> Seq<Seq<u8>>
    decreases b.len() - i,
    via label_runs_decreases
{
    if i < 0 || i >= b.len() {
        Seq::empty()
    } else if b[i] == 0 {
        label_runs(b, i + 1)
    } else {
        seq![b.subrange(i, i + run_length(b, i))] + label_runs(b, i + run_length(b, i))
    }
}

/// Whether every label run of the block holds valid UTF-8.
pub open spec fn ncer_labels_valid(block: Seq<u8>) -> bool {
    forall|i: int|
        0 <= i < label_runs(block, 0).len() ==> valid_utf8(#[trigger] label_runs(block, 0)[i])
}

/// The labels of the block: each non-empty run between null delimiters,
/// decoded from UTF-8, in order.
pub open spec fn ncer_labels(block: Seq<u8>) -> Seq<Seq<char>> {
    label_runs(block, 0).map_values(|r: Seq<u8>| decode_utf8(r))
}

/// The first failure among the envelope and the fixed cell-bank fields,
/// including the presence of all cell descriptors; `None` when they hold.
pub open spec fn ncer_fixed_checks(b: Seq<u8>) -> Option<NtrError> {
    match header_parse(b, NCER_MAGIC) {
        Err(e) => Some(e),
        Ok(_) => {
            if b.len() < 20 {
                Some(NtrError::Truncated)
            } else if le32_at(b, 16) != CEBK_MAGIC {
                Some(
                    NtrError::Mismatch {
                        field: FieldName::SectionMagic,
                        expected: CEBK_MAGIC,
                        actual: le32_at(b, 16),
                    },
                )
            } else if b.len() < 28 {
                Some(NtrError::Truncated)
            } else if le16_at(b, 26) != 0 {
                Some(
                    NtrError::Mismatch {
                        field: FieldName::BankAttributes,
                        expected: 0,
                        actual: le16_at(b, 26) as u32,
                    },
                )
            } else if b.len() < 32 {
                Some(NtrError::Truncated)
            } else if le32_at(b, 28) != 24 {
                Some(
                    NtrError::Mismatch {
                        field: FieldName::CellDataOffset,
                        expected: 24,
                        actual: le32_at(b, 28),
                    },
                )
            } else if b.len() < 36 {
                Some(NtrError::Truncated)
            } else if le32_at(b, 32) != 2 {
                Some(
                    NtrError::Mismatch {
                        field: FieldName::MappingMode,
                        expected: 2,
                        actual: le32_at(b, 32),
                    },
                )
            } else if b.len() < 40 {
                Some(NtrError::Truncated)
            } else if le32_at(b, 36) != 0 {
                Some(
                    NtrError::Mismatch {
                        field: FieldName::VramTransferOffset,
                        expected: 0,
                        actual: le32_at(b, 36),
                    },
                )
            } else if b.len() < 44 {
                Some(NtrError::Truncated)
            } else if le32_at(b, 40) != 0 {
                Some(
                    NtrError::Mismatch {
                        field: FieldName::Reserved,
                        expected: 0,
                        actual: le32_at(b, 40),
                    },
                )
            } else if b.len() < 48 {
                Some(NtrError::Truncated)
            } else if le32_at(b, 44) != 0 {
                Some(
                    NtrError::Mismatch {
                        field: FieldName::UserExtendedOffset,
                        expected: 0,
                        actual: le32_at(b, 44),
                    },
                )
            } else if b.len() < ncer_oam_base(b) {
                Some(NtrError::Truncated)
            } else {
                None
            }
        },
    }
}

/// The label section read at its offset: its tag, its declared size of at
/// least the 16-byte section head, its block, and the block's decoding.
pub open spec fn ncer_label_section(b: Seq<u8>) -> Result<Seq<Seq<char>>, NtrError> {
    let l0 = ncer_labels_start(b);
    if b.len() < l0 + 4 {
        Err(NtrError::MissingSection { tag: LABL_MAGIC })
    } else if le32_at(b, l0) != LABL_MAGIC {
        Err(
            NtrError::Mismatch {
                field: FieldName::SectionMagic,
                expected: LABL_MAGIC,
                actual: le32_at(b, l0),
            },
        )
    } else if b.len() < l0 + 16 {
        Err(NtrError::Truncated)
    } else {
        let size = le32_at(b, l0 + 4) as int;
        if size < 16 {
            Err(
                NtrError::Mismatch {
                    field: FieldName::SectionSize,
                    expected: 16,
                    actual: size as u32,
                },
            )
        } else if b.len() < l0 + size {
            Err(NtrError::Truncated)
        } else if !ncer_labels_valid(b.subrange(l0 + 16, l0 + size)) {
            Err(NtrError::InvalidLabel)
        } else {
            Ok(ncer_labels(b.subrange(l0 + 16, l0 + size)))
        }
    }
}

/// The byte offset of the user-extension section, right after the label
/// section's declared size.
pub open spec fn ncer_uext_start(b: Seq<u8>) -> int {
    ncer_labels_start(b) + le32_at(b, ncer_labels_start(b) + 4)
}

/// The first failure in the mandatory user-extension section that must
/// close the container, with nothing after it.
pub open spec fn ncer_uext_checks(b: Seq<u8>) -> Option<NtrError> {
    let u0 = ncer_uext_start(b);
    if b.len() < u0 + 4 {
        Some(NtrError::MissingSection { tag: UEXT_MAGIC })
    } else if le32_at(b, u0) != UEXT_MAGIC {
        Some(
            NtrError::Mismatch {
                field: FieldName::SectionMagic,
                expected: UEXT_MAGIC,
                actual: le32_at(b, u0),
            },
        )
    } else if b.len() < u0 + 12 {
        Some(NtrError::Truncated)
    } else if le32_at(b, u0 + 4) != 0x0c {
        Some(
            NtrError::Mismatch {
                field: FieldName::SectionSize,
                expected: 0x0c,
                actual: le32_at(b, u0 + 4),
            },
        )
    } else if le32_at(b, u0 + 8) != 0 {
        Some(
            NtrError::Mismatch { field: FieldName::Reserved, expected: 0, actual: le32_at(b, u0 + 8) },
        )
    } else if b.len() > u0 + 12 {
        Some(NtrError::TrailingData)
    } else {
        None
    }
}

/// The cells and labels decoded from `b`, or the first failure in the order
/// the fields stand in the container.
pub open spec fn ncer_parse(b: Seq<u8>) -> Result<
    (Seq<(u16, Seq<NcerCellAttr>)>, Seq<Seq<char>>),
    NtrError,
> {
    match ncer_fixed_checks(b) {
        Some(e) => Err(e),
        None => {
            if b.len() < ncer_labels_start(b) {
                Err(NtrError::Truncated)
            } else {
                match ncer_label_section(b) {
                    Err(e) => Err(e),
                    Ok(labels) => match ncer_uext_checks(b) {
                        Some(e) => Err(e),
                        None => Ok((ncer_cells(b), labels)),
                    },
                }
            }
        },
    }
}

/// Relies on `String::from_utf8` of std: it succeeds exactly on the byte
/// sequences that are valid UTF-8 and yields their decoded characters.
#[verifier::external_body]
fn string_from_bytes(bytes: &Vec<u8>) -> (r: Option<String>)
    ensures
        (r is Some) <==> valid_utf8(bytes@),
        r is Some ==> r->0@ == decode_utf8(bytes@),
{
    match String::from_utf8(bytes.clone()) {
        Ok(s) => Some(s),
        Err(_) => None,
    }
}

proof fn lemma_run_length_exact(b: Seq<u8>, s: int, p: int)
    requires
        0 <= s <= p <= b.len(),
        forall|u: int| s <= u < p ==> b[u] != 0,
        p == b.len() || b[p] == 0,
    ensures
        run_length(b, s) == p - s,
    decreases p - s,
{
    if s < p {
        assert(b[s] != 0);
        lemma_run_length_exact(b, s + 1, p);
    }
}

/// Splits the label block at its null delimiters and decodes each run.
fn parse_labels(data: &Vec<u8>, start: usize, end: usize) -> (r: Result<Vec<String>, NtrError>)
    requires
        start <= end <= data@.len(),
    ensures
        (r is Ok) <==> ncer_labels_valid(data@.subrange(start as int, end as int)),
        r is Ok ==> r->Ok_0@.len() == ncer_labels(data@.subrange(start as int, end as int)).len(),
        r is Ok ==> forall|k: int|
            0 <= k < r->Ok_0@.len() ==> #[trigger] r->Ok_0@[k]@ == ncer_labels(
                data@.subrange(start as int, end as int),
            )[k],
        r is Err ==> r->Err_0 == NtrError::InvalidLabel,
{
    let ghost blk = data@.subrange(start as int, end as int);
    let m = end - start;
    let mut labels: Vec<String> = Vec::new();
    let mut cur: Vec<u8> = Vec::new();
    let ghost mut runs_done: Seq<Seq<u8>> = Seq::empty();
    let mut p: usize = 0;
    let ghost mut s: int = 0;
    while p < m
        invariant
            0 <= s <= p <= m,
            m == end - start,
            start + m <= data@.len(),
            blk == data@.subrange(start as int, end as int),
            blk.len() == m,
            cur@ == blk.subrange(s, p as int),
            forall|u: int| s <= u < p ==> blk[u] != 0,
            label_runs(blk, 0) == runs_done + label_runs(blk, s),
            labels@.len() == runs_done.len(),
            forall|k: int| 0 <= k < runs_done.len() ==> valid_utf8(#[trigger] runs_done[k]),
            forall|k: int|
                0 <= k < runs_done.len() ==> #[trigger] labels@[k]@ == decode_utf8(runs_done[k]),
        decreases m - p,
    {
        let x = get_u8(data, start + p);
        proof {
            assert(blk[p as int] == data@[start + p]);
        }
        if x != 0 {
            cur.push(x);
            proof {
                assert(cur@ =~= blk.subrange(s, p + 1));
            }
            p = p + 1;
        } else {
            if cur.len() > 0 {
                proof {
                    lemma_run_length_exact(blk, s, p as int);
                    assert(label_runs(blk, s) == seq![blk.subrange(s, p as int)] + label_runs(
                        blk,
                        p as int,
                    ));
                    assert(label_runs(blk, p as int) == label_runs(blk, p + 1));
                }
                let ghost run = blk.subrange(s, p as int);
                match string_from_bytes(&cur) {
                    Some(text) => {
                        labels.push(text);
                        cur.clear();
                        proof {
                            runs_done = runs_done.push(run);
                            assert(label_runs(blk, 0) =~= runs_done + label_runs(blk, p + 1));
                        }
                    },
                    None => {
                        proof {
                            assert(label_runs(blk, 0)[runs_done.len() as int] == run);
                            assert(!valid_utf8(run));
                        }
                        return Err(NtrError::InvalidLabel);
                    },
                }
            } else {
                proof {
                    assert(label_runs(blk, s) == label_runs(blk, p + 1));
                }
            }
            p = p + 1;
            proof {
                s = p as int;
                assert(cur@ =~= blk.subrange(s, p as int));
            }
        }
    }
    if cur.len() > 0 {
        proof {
            lemma_run_length_exact(blk, s, m as int);
            assert(label_runs(blk, s) == seq![blk.subrange(s, m as int)] + label_runs(
                blk,
                m as int,
            ));
            assert(label_runs(blk, m as int) =~= Seq::<Seq<u8>>::empty());
        }
        let ghost run = blk.subrange(s, m as int);
        match string_from_bytes(&cur) {
            Some(text) => {
                labels.push(text);
                proof {
                    runs_done = runs_done.push(run);
                    assert(label_runs(blk, 0) =~= runs_done);
                }
            },
            None => {
                proof {
                    assert(label_runs(blk, 0)[runs_done.len() as int] == run);
                    assert(!valid_utf8(run));
                }
                return Err(NtrError::InvalidLabel);
            },
        }
    } else {
        proof {
            assert(label_runs(blk, s) =~= Seq::<Seq<u8>>::empty());
            assert(label_runs(blk, 0) =~= runs_done);
        }
    }
    proof {
        assert(ncer_labels(blk).len() == runs_done.len());
        assert forall|k: int| 0 <= k < labels@.len() implies #[trigger] labels@[k]@ == ncer_labels(
            blk,
        )[k] by {
            assert(ncer_labels(blk)[k] == decode_utf8(runs_done[k]));
        }
    }
    Ok(labels)
}

proof fn lemma_oam_prefix_mono(b: Seq<u8>, i: int, j: int)
    requires
        0 <= i <= j,
    ensures
        0 <= ncer_oam_prefix(b, i) <= ncer_oam_prefix(b, j),
    decreases j,
{
    if i < j {
        lemma_oam_prefix_mono(b, i, j - 1);
    } else if i == j && i > 0 {
        lemma_oam_prefix_mono(b, 0, i - 1);
    }
}

/// Runs the envelope and fixed cell-bank checks.
fn ncer_check_fixed(data: &Vec<u8>) -> (r: Option<NtrError>)
    ensures
        r == ncer_fixed_checks(data@),
        r is None ==> data@.len() >= ncer_oam_base(data@) && ncer_oam_base(data@) >= 48,
{
    match read_header(data, NCER_MAGIC) {
        Ok(_) => {},
        Err(e) => {
            return Some(e);
        },
    }
    let n = data.len();
    if n < 20 {
        return Some(NtrError::Truncated);
    }
    let cebk = get_u32_le(data, 16);
    if cebk != CEBK_MAGIC {
        return Some(
            NtrError::Mismatch {
                field: FieldName::SectionMagic,
                expected: CEBK_MAGIC,
                actual: cebk,
            },
        );
    }
    if n < 28 {
        return Some(NtrError::Truncated);
    }
    let bank_attrib = get_u16_le(data, 26);
    if bank_attrib != 0 {
        return Some(
            NtrError::Mismatch {
                field: FieldName::BankAttributes,
                expected: 0,
                actual: bank_attrib as u32,
            },
        );
    }
    if n < 32 {
        return Some(NtrError::Truncated);
    }
    let cell_data = get_u32_le(data, 28);
    if cell_data != 24 {
        return Some(
            NtrError::Mismatch { field: FieldName::CellDataOffset, expected: 24, actual: cell_data },
        );
    }
    if n < 36 {
        return Some(NtrError::Truncated);
    }
    let mapping_mode = get_u32_le(data, 32);
    if mapping_mode != 2 {
        return Some(
            NtrError::Mismatch { field: FieldName::MappingMode, expected: 2, actual: mapping_mode },
        );
    }
    if n < 40 {
        return Some(NtrError::Truncated);
    }
    let vram = get_u32_le(data, 36);
    if vram != 0 {
        return Some(
            NtrError::Mismatch { field: FieldName::VramTransferOffset, expected: 0, actual: vram },
        );
    }
    if n < 44 {
        return Some(NtrError::Truncated);
    }
    let unk = get_u32_le(data, 40);
    if unk != 0 {
        return Some(NtrError::Mismatch { field: FieldName::Reserved, expected: 0, actual: unk });
    }
    if n < 48 {
        return Some(NtrError::Truncated);
    }
    let uext_off = get_u32_le(data, 44);
    if uext_off != 0 {
        return Some(
            NtrError::Mismatch { field: FieldName::UserExtendedOffset, expected: 0, actual: uext_off },
        );
    }
    let nb = get_u16_le(data, 24);
    if n - 48 < 8 * (nb as usize) {
        return Some(NtrError::Truncated);
    }
    None
}

/// Reads the per-cell descriptors: record counts, attribute words, and the
/// total record count.
fn ncer_read_descriptors(data: &Vec<u8>, nb: u16) -> (r: (Vec<u16>, Vec<u16>, u64))
    requires
        nb == ncer_cell_count(data@),
        data@.len() >= 48 + 8 * nb,
    ensures
        r.0@.len() == nb,
        r.1@.len() == nb,
        forall|i: int| 0 <= i < nb ==> r.0@[i] == ncer_entry_count(data@, i),
        forall|i: int| 0 <= i < nb ==> r.1@[i] == le16_at(data@, 50 + 8 * i),
        r.2 == ncer_oam_prefix(data@, nb as int),
        r.2 <= 0xFFFF * (nb as int),
{
    let nbu = nb as usize;
    let n = data.len();
    let mut entries: Vec<u16> = Vec::new();
    let mut attrs: Vec<u16> = Vec::new();
    let mut total: u64 = 0;
    let mut i: usize = 0;
    while i < nbu
        invariant
            i <= nbu,
            nbu <= 0xFFFF,
            n == data@.len(),
            n >= 48 + 8 * nbu,
            entries@.len() == i,
            attrs@.len() == i,
            forall|t: int| 0 <= t < i ==> entries@[t] == ncer_entry_count(data@, t),
            forall|t: int| 0 <= t < i ==> attrs@[t] == le16_at(data@, 50 + 8 * t),
            total == ncer_oam_prefix(data@, i as int),
            total <= 0xFFFF * i,
        decreases nbu - i,
    {
        let cnt = get_u16_le(data, 48 + 8 * i);
        let attr = get_u16_le(data, 50 + 8 * i);
        entries.push(cnt);
        attrs.push(attr);
        total = total + cnt as u64;
        i = i + 1;
    }
    (entries, attrs, total)
}

/// Reads every cell's records; the input is known to hold them all.
fn ncer_read_cells(data: &Vec<u8>, nb: u16, entries: &Vec<u16>, attrs: &Vec<u16>) -> (cells: Vec<
    NcerCell,
>)
    requires
        nb == ncer_cell_count(data@),
        data@.len() >= ncer_labels_start(data@),
        data@.len() >= 48 + 8 * nb,
        entries@.len() == nb,
        attrs@.len() == nb,
        forall|i: int| 0 <= i < nb ==> entries@[i] == ncer_entry_count(data@, i),
        forall|i: int| 0 <= i < nb ==> attrs@[i] == le16_at(data@, 50 + 8 * i),
    ensures
        cells@.len() == nb,
        forall|i: int|
            0 <= i < nb ==> #[trigger] cells@[i].attributes == ncer_cells(data@)[i].0,
        forall|i: int| 0 <= i < nb ==> #[trigger] cells@[i].oam@ == ncer_cells(data@)[i].1,
{
    let nbu = nb as usize;
    let n = data.len();
    let base: usize = 48 + 8 * nbu;
    let mut cells: Vec<NcerCell> = Vec::new();
    let mut pos: usize = base;
    let mut i: usize = 0;
    proof {
        lemma_oam_prefix_mono(data@, 0, nb as int);
    }
    while i < nbu
        invariant
            i <= nbu,
            n == data@.len(),
            base == 48 + 8 * nbu,
            nb as int == ncer_cell_count(data@),
            nbu == nb,
            n >= ncer_labels_start(data@),
            ncer_labels_start(data@) == base + 6 * ncer_oam_prefix(data@, nb as int),
            entries@.len() == nb,
            attrs@.len() == nb,
            forall|t: int| 0 <= t < nb ==> entries@[t] == ncer_entry_count(data@, t),
            forall|t: int| 0 <= t < nb ==> attrs@[t] == le16_at(data@, 50 + 8 * t),
            pos == base + 6 * ncer_oam_prefix(data@, i as int),
            cells@.len() == i,
            forall|t: int|
                0 <= t < i ==> #[trigger] cells@[t].attributes == ncer_cells(data@)[t].0,
            forall|t: int| 0 <= t < i ==> #[trigger] cells@[t].oam@ == ncer_cells(data@)[t].1,
        decreases nbu - i,
    {
        let cnt = entries[i] as usize;
        let mut oam: Vec<NcerCellAttr> = Vec::new();
        let mut j: usize = 0;
        proof {
            lemma_oam_prefix_mono(data@, i + 1, nb as int);
            lemma_oam_prefix_mono(data@, 0, i as int);
            assert(ncer_oam_prefix(data@, i + 1) == ncer_oam_prefix(data@, i as int)
                + ncer_entry_count(data@, i as int));
        }
        while j < cnt
            invariant
                j <= cnt,
                i < nbu,
                n == data@.len(),
                base == 48 + 8 * nbu,
                nb as int == ncer_cell_count(data@),
                nbu == nb,
                n >= ncer_labels_start(data@),
                ncer_labels_start(data@) == base + 6 * ncer_oam_prefix(data@, nb as int),
                cnt == ncer_entry_count(data@, i as int),
                0 <= ncer_oam_prefix(data@, i as int),
                ncer_oam_prefix(data@, i as int) + cnt <= ncer_oam_prefix(data@, nb as int),
                pos == base + 6 * (ncer_oam_prefix(data@, i as int) + j),
                oam@.len() == j,
                forall|u: int| 0 <= u < j ==> #[trigger] oam@[u] == ncer_cell_oam(data@, i as int)[u],
            decreases cnt - j,
        {
            let attr0 = get_u16_le(data, pos);
            let attr1 = get_u16_le(data, pos + 2);
            let attr2 = get_u16_le(data, pos + 4);
            oam.push(decode_oam_attrs(attr0, attr1, attr2));
            pos = pos + 6;
            j = j + 1;
        }
        proof {
            assert(oam@ =~= ncer_cell_oam(data@, i as int));
        }
        cells.push(NcerCell { attributes: attrs[i], oam });
        i = i + 1;
    }
    cells
}

/// Reads the label section at its offset and decodes the label block.
fn ncer_check_label_section(data: &Vec<u8>, l0: usize) -> (r: Result<(Vec<String>, usize), NtrError>)
    requires
        l0 == ncer_labels_start(data@),
        l0 <= data@.len(),
    ensures
        r is Err ==> ncer_label_section(data@) == Err::<Seq<Seq<char>>, NtrError>(r->Err_0),
        r is Ok ==> ncer_label_section(data@) is Ok,
        r is Ok ==> r->Ok_0.0@.len() == ncer_label_section(data@)->Ok_0.len(),
        r is Ok ==> forall|k: int|
            0 <= k < r->Ok_0.0@.len() ==> #[trigger] r->Ok_0.0@[k]@ == ncer_label_section(
                data@,
            )->Ok_0[k],
        r is Ok ==> r->Ok_0.1 == ncer_uext_start(data@) && r->Ok_0.1 <= data@.len(),
{
    let n = data.len();
    if n - l0 < 4 {
        return Err(NtrError::MissingSection { tag: LABL_MAGIC });
    }
    let labl = get_u32_le(data, l0);
    if labl != LABL_MAGIC {
        return Err(
            NtrError::Mismatch {
                field: FieldName::SectionMagic,
                expected: LABL_MAGIC,
                actual: labl,
            },
        );
    }
    if n - l0 < 16 {
        return Err(NtrError::Truncated);
    }
    let lsize = get_u32_le(data, l0 + 4);
    if lsize < 16 {
        return Err(
            NtrError::Mismatch { field: FieldName::SectionSize, expected: 16, actual: lsize },
        );
    }
    if ((n - l0) as u64) < lsize as u64 {
        return Err(NtrError::Truncated);
    }
    let lend: usize = l0 + lsize as usize;
    let labels = match parse_labels(data, l0 + 16, lend) {
        Ok(v) => v,
        Err(e) => {
            return Err(e);
        },
    };
    Ok((labels, lend))
}

/// Consumes the mandatory user-extension section that closes the container.
fn ncer_check_uext(data: &Vec<u8>, u0: usize) -> (r: Option<NtrError>)
    requires
        u0 == ncer_uext_start(data@),
        u0 <= data@.len(),
    ensures
        r == ncer_uext_checks(data@),
{
    let n = data.len();
    if n - u0 < 4 {
        return Some(NtrError::MissingSection { tag: UEXT_MAGIC });
    }
    let uext = get_u32_le(data, u0);
    if uext != UEXT_MAGIC {
        return Some(
            NtrError::Mismatch {
                field: FieldName::SectionMagic,
                expected: UEXT_MAGIC,
                actual: uext,
            },
        );
    }
    if n - u0 < 12 {
        return Some(NtrError::Truncated);
    }
    let usize_field = get_u32_le(data, u0 + 4);
    if usize_field != 0x0c {
        return Some(
            NtrError::Mismatch { field: FieldName::SectionSize, expected: 0x0c, actual: usize_field },
        );
    }
    let uunk = get_u32_le(data, u0 + 8);
    if uunk != 0 {
        return Some(NtrError::Mismatch { field: FieldName::Reserved, expected: 0, actual: uunk });
    }
    if n - u0 > 12 {
        return Some(NtrError::TrailingData);
    }
    None
}

impl Ncer {
    /// Decodes a cell container. On success the cells, their records and
    /// the labels are exactly those that `ncer_parse` reads from the bytes;
    /// on failure the error is the first violation in field order.
    pub fn new(data: &Vec<u8>) -> (r: Result<Ncer, NtrError>)
        ensures
            (r is Ok) <==> (ncer_parse(data@) is Ok),
            r is Ok ==> r->Ok_0.cells@.len() == ncer_parse(data@)->Ok_0.0.len(),
            r is Ok ==> forall|i: int|
                0 <= i < r->Ok_0.cells@.len() ==> #[trigger] r->Ok_0.cells@[i].attributes
                    == ncer_parse(data@)->Ok_0.0[i].0,
            r is Ok ==> forall|i: int|
                0 <= i < r->Ok_0.cells@.len() ==> #[trigger] r->Ok_0.cells@[i].oam@ == ncer_parse(
                    data@,
                )->Ok_0.0[i].1,
            r is Ok ==> r->Ok_0.labels@.len() == ncer_parse(data@)->Ok_0.1.len(),
            r is Ok ==> forall|k: int|
                0 <= k < r->Ok_0.labels@.len() ==> #[trigger] r->Ok_0.labels@[k]@ == ncer_parse(
                    data@,
                )->Ok_0.1[k],
            r is Err ==> r->Err_0 == ncer_parse(data@)->Err_0,
    {
        match ncer_check_fixed(data) {
            None => {},
            Some(e) => {
                return Err(e);
            },
        }
        let n = data.len();
        let nb = get_u16_le(data, 24);
        let (entries, attrs, total) = ncer_read_descriptors(data, nb);
        let base: usize = 48 + 8 * (nb as usize);
        if ((n - base) as u64) < 6 * total {
            return Err(NtrError::Truncated);
        }
        let l0: usize = base + 6 * (total as usize);
        let (labels, u0) = match ncer_check_label_section(data, l0) {
            Ok(v) => v,
            Err(e) => {
                return Err(e);
            },
        };
        match ncer_check_uext(data, u0) {
            None => {},
            Some(e) => {
                return Err(e);
            },
        }
        let cells = ncer_read_cells(data, nb, &entries, &attrs);
        Ok(Ncer { cells, labels })
    }
}

} // verus!
