use ntrgfx::common::decompress;
use ntrgfx::error::FieldName;
use ntrgfx::error::NtrError;
use ntrgfx::nscr::Nscr;

fn push_u16(v: &mut Vec<u8>, x: u16) {
    v.push((x & 0xFF) as u8);
    v.push((x >> 8) as u8);
}

fn push_u32(v: &mut Vec<u8>, x: u32) {
    v.push((x & 0xFF) as u8);
    v.push(((x >> 8) & 0xFF) as u8);
    v.push(((x >> 16) & 0xFF) as u8);
    v.push((x >> 24) as u8);
}

fn tilemap_bytes(width_px: u16, height_px: u16, format: u16, entries: &[u16]) -> Vec<u8> {
    let mut v = Vec::new();
    push_u32(&mut v, 0x4E534352);
    push_u32(&mut v, 0x0100FEFF);
    push_u32(&mut v, 0);
    push_u32(&mut v, 0x00010010);
    push_u32(&mut v, 0x5343524E);
    push_u32(&mut v, 20 + 2 * entries.len() as u32);
    push_u16(&mut v, width_px);
    push_u16(&mut v, height_px);
    push_u16(&mut v, 0);
    push_u16(&mut v, format);
    push_u32(&mut v, 2 * entries.len() as u32);
    for e in entries {
        push_u16(&mut v, *e);
    }
    v
}

#[test]
fn decodes_grid_and_entries() {
    let data = tilemap_bytes(16, 8, 0, &[0x3001, 0x0000]);
    let map = Nscr::new(&data).unwrap();
    assert_eq!(map.width, 2);
    assert_eq!(map.height, 1);
    assert_eq!(map.map.len(), 2);
    assert_eq!(map.map[0].id, 1);
    assert_eq!(map.map[0].palette, 3);
    assert_eq!(map.map[1].id, 0);
    assert_eq!(map.map[1].palette, 0);
}

#[test]
fn entry_packs_low_twelve_bits_as_id() {
    let data = tilemap_bytes(8, 8, 0, &[0xFABC]);
    let map = Nscr::new(&data).unwrap();
    assert_eq!(map.map[0].id, 0xABC);
    assert_eq!(map.map[0].palette, 0xF);
}

#[test]
fn wrong_file_magic_is_reported() {
    let mut data = tilemap_bytes(8, 8, 0, &[0]);
    data[0] = 0x00;
    assert_eq!(
        Nscr::new(&data),
        Err(NtrError::Mismatch {
            field: FieldName::FileMagic,
            expected: 0x4E534352,
            actual: 0x4E534300,
        })
    );
}

#[test]
fn wrong_section_magic_is_reported() {
    let mut data = tilemap_bytes(8, 8, 0, &[0]);
    data[16] = 0x00;
    assert_eq!(
        Nscr::new(&data),
        Err(NtrError::Mismatch {
            field: FieldName::SectionMagic,
            expected: 0x5343524E,
            actual: 0x53435200,
        })
    );
}

#[test]
fn nonzero_format_is_rejected() {
    let data = tilemap_bytes(8, 8, 1, &[0]);
    assert_eq!(
        Nscr::new(&data),
        Err(NtrError::Mismatch { field: FieldName::MapFormat, expected: 0, actual: 1 })
    );
}

#[test]
fn missing_entries_are_truncated() {
    let mut data = tilemap_bytes(16, 8, 0, &[0x0001, 0x0002]);
    data.truncate(data.len() - 1);
    assert_eq!(Nscr::new(&data), Err(NtrError::Truncated));
}

#[test]
fn tilemap_trailing_bytes_are_rejected() {
    let mut data = tilemap_bytes(8, 8, 0, &[0]);
    data.push(0xAA);
    assert_eq!(Nscr::new(&data), Err(NtrError::TrailingData));
}

#[test]
fn empty_tilemap_input_is_truncated() {
    assert_eq!(Nscr::new(&vec![]), Err(NtrError::Truncated));
}

#[test]
fn store_raw_stream_parses_unchanged() {
    // the container's first byte is not the compression marker, so the
    // decompression engine hands the stream through untouched
    let data = tilemap_bytes(8, 8, 0, &[0x2004]);
    let decoded = decompress(&data).unwrap();
    assert_eq!(decoded, data);
    let map = Nscr::new(&decoded).unwrap();
    assert_eq!(map.map[0].id, 4);
    assert_eq!(map.map[0].palette, 2);
}
