use ntrgfx::error::FieldName;
use ntrgfx::error::NtrError;
use ntrgfx::nclr::convert_1555_to_8888;
use ntrgfx::nclr::Nclr;

fn push_u16(v: &mut Vec<u8>, x: u16) {
    v.push((x & 0xFF) as u8);
    v.push((x >> 8) as u8);
}

fn push_u32(v: &mut Vec<u8>, x: u32) {
    v.push((x & 0xFF) as u8);
    v.push(((x >> 8) & 0xFF) as u8);
    v.push(((x >> 16) & 0xFF) as u8);
    v.push((x >> 24) as u8);
}

fn palette_bytes(colors: &[u16], declared_tables: u16) -> Vec<u8> {
    // one 512-byte table holding `colors` first, zero-filled after
    let mut color_data = Vec::new();
    for c in colors {
        push_u16(&mut color_data, *c);
    }
    color_data.resize(512, 0);
    let data_size = color_data.len() as u32;
    let mut v = Vec::new();
    push_u32(&mut v, 0x4e434c52);
    push_u32(&mut v, 0x0100FEFF);
    push_u32(&mut v, 0);
    push_u32(&mut v, 0x00010010);
    push_u32(&mut v, 0x504c5454);
    push_u32(&mut v, data_size + 0x18);
    push_u32(&mut v, 4);
    push_u32(&mut v, 1);
    push_u32(&mut v, data_size);
    push_u32(&mut v, 16);
    v.extend_from_slice(&color_data);
    push_u32(&mut v, 0x50434D50);
    push_u32(&mut v, declared_tables as u32 * 2 + 16);
    push_u16(&mut v, declared_tables);
    push_u16(&mut v, 0xBEEF);
    push_u32(&mut v, 0);
    for i in 0..declared_tables {
        push_u16(&mut v, i);
    }
    v
}

#[test]
fn decodes_one_table_of_256_colors() {
    let data = palette_bytes(&[0x001F, 0x03E0], 1);
    let pal = Nclr::new(&data).unwrap();
    assert_eq!(pal.palettes.len(), 1);
    assert_eq!(pal.palettes[0].len(), 256);
    let c0 = &pal.palettes[0][0];
    assert_eq!((c0.r, c0.g, c0.b, c0.a), (248, 0, 0, 255));
    let c1 = &pal.palettes[0][1];
    assert_eq!((c1.r, c1.g, c1.b, c1.a), (0, 248, 0, 255));
    let c2 = &pal.palettes[0][2];
    assert_eq!((c2.r, c2.g, c2.b, c2.a), (0, 0, 0, 255));
}

#[test]
fn packed_color_expansion_is_exact() {
    let c = convert_1555_to_8888(0x7FFF);
    assert_eq!((c.r, c.g, c.b, c.a), (248, 248, 248, 255));
    let c = convert_1555_to_8888(0x0000);
    assert_eq!((c.r, c.g, c.b, c.a), (0, 0, 0, 255));
    let c = convert_1555_to_8888(0x7C00);
    assert_eq!((c.r, c.g, c.b, c.a), (0, 0, 248, 255));
    let c = convert_1555_to_8888(0x03E0);
    assert_eq!((c.r, c.g, c.b, c.a), (0, 248, 0, 255));
}

#[test]
fn palette_wrong_bit_depth_is_rejected() {
    let mut data = palette_bytes(&[], 1);
    data[24] = 5;
    assert_eq!(
        Nclr::new(&data),
        Err(NtrError::Mismatch { field: FieldName::BitDepth, expected: 4, actual: 5 })
    );
}

#[test]
fn internal_palette_is_rejected() {
    let mut data = palette_bytes(&[], 1);
    data[28] = 0;
    assert_eq!(
        Nclr::new(&data),
        Err(NtrError::Mismatch { field: FieldName::ExternalPalette, expected: 1, actual: 0 })
    );
}

#[test]
fn wrong_data_offset_is_rejected() {
    let mut data = palette_bytes(&[], 1);
    data[36] = 20;
    assert_eq!(
        Nclr::new(&data),
        Err(NtrError::Mismatch { field: FieldName::DataOffset, expected: 16, actual: 20 })
    );
}

#[test]
fn inconsistent_section_size_is_rejected() {
    let mut data = palette_bytes(&[], 1);
    data[20] = data[20].wrapping_add(1);
    assert_eq!(
        Nclr::new(&data),
        Err(NtrError::Mismatch { field: FieldName::SectionSize, expected: 536, actual: 537 })
    );
}

#[test]
fn declared_count_must_match_stored_tables() {
    // data holds one complete table, the compare section declares two
    let mut data = palette_bytes(&[], 1);
    // widen the index table to match the declared count of 2
    data[560] = 2;
    let pcmp_size = 2 * 2 + 16;
    data[556] = pcmp_size as u8;
    data.push(0);
    data.push(0);
    assert_eq!(
        Nclr::new(&data),
        Err(NtrError::Mismatch { field: FieldName::PaletteCount, expected: 2, actual: 1 })
    );
}

#[test]
fn truncated_color_data_fails() {
    let mut data = palette_bytes(&[], 1);
    data.truncate(100);
    assert_eq!(Nclr::new(&data), Err(NtrError::Truncated));
}

#[test]
fn palette_trailing_bytes_are_rejected() {
    let mut data = palette_bytes(&[], 1);
    data.push(0);
    assert_eq!(Nclr::new(&data), Err(NtrError::TrailingData));
}
