use ntrgfx::error::FieldName;
use ntrgfx::error::NtrError;
use ntrgfx::ncgr::Ncgr;

fn push_u16(v: &mut Vec<u8>, x: u16) {
    v.push((x & 0xFF) as u8);
    v.push((x >> 8) as u8);
}

fn push_u32(v: &mut Vec<u8>, x: u32) {
    v.push((x & 0xFF) as u8);
    v.push(((x >> 8) & 0xFF) as u8);
    v.push(((x >> 16) & 0xFF) as u8);
    v.push((x >> 24) as u8);
}

fn tileset_bytes(tiles_y: u16, tiles_x: u16, tile_data: &[u8]) -> Vec<u8> {
    let mut v = Vec::new();
    push_u32(&mut v, 0x4e434752);
    push_u32(&mut v, 0x0100FEFF);
    push_u32(&mut v, 0);
    push_u32(&mut v, 0x00010010);
    push_u32(&mut v, 0x43484152);
    push_u32(&mut v, 32 + tile_data.len() as u32);
    push_u16(&mut v, tiles_y);
    push_u16(&mut v, tiles_x);
    push_u32(&mut v, 4);
    push_u32(&mut v, 0);
    push_u32(&mut v, 0);
    push_u32(&mut v, tile_data.len() as u32);
    push_u32(&mut v, 24);
    v.extend_from_slice(tile_data);
    v
}

fn cpos_block(tw: u16, th: u16) -> Vec<u8> {
    let mut v = Vec::new();
    push_u32(&mut v, 0x43504f53);
    push_u32(&mut v, 0x10);
    push_u32(&mut v, 0);
    push_u16(&mut v, tw);
    push_u16(&mut v, th);
    v
}

#[test]
fn decodes_two_tiles() {
    let mut tile_data = vec![1u8; 64];
    tile_data.extend_from_slice(&[2u8; 64]);
    let data = tileset_bytes(1, 2, &tile_data);
    let set = Ncgr::new(&data).unwrap();
    assert_eq!(set.tiles.len(), 2);
    assert_eq!(set.tiles[0], vec![1u8; 64]);
    assert_eq!(set.tiles[1], vec![2u8; 64]);
}

#[test]
fn accepts_matching_trailing_grid_confirmation() {
    let mut data = tileset_bytes(1, 2, &[7u8; 128]);
    data.extend_from_slice(&cpos_block(2, 1));
    let set = Ncgr::new(&data).unwrap();
    assert_eq!(set.tiles.len(), 2);
}

#[test]
fn stored_size_overrides_declared_grid() {
    // header claims a single tile, but 32 tiles are stored
    let data = tileset_bytes(1, 1, &vec![5u8; 32 * 64]);
    let set = Ncgr::new(&data).unwrap();
    assert_eq!(set.tiles.len(), 32);
}

#[test]
fn recanonicalized_grid_confirmation_uses_32_wide_rows() {
    let mut data = tileset_bytes(1, 1, &vec![5u8; 32 * 64]);
    data.extend_from_slice(&cpos_block(32, 1));
    let set = Ncgr::new(&data).unwrap();
    assert_eq!(set.tiles.len(), 32);
}

#[test]
fn stored_count_not_divisible_by_32_is_rejected() {
    // header claims two tiles, one tile stored: 1 is not a multiple of 32
    let data = tileset_bytes(1, 2, &[5u8; 64]);
    assert_eq!(
        Ncgr::new(&data),
        Err(NtrError::Mismatch { field: FieldName::TileCount, expected: 0, actual: 1 })
    );
}

#[test]
fn wrong_grid_confirmation_is_rejected() {
    let mut data = tileset_bytes(1, 2, &[7u8; 128]);
    data.extend_from_slice(&cpos_block(3, 1));
    assert_eq!(
        Ncgr::new(&data),
        Err(NtrError::Mismatch { field: FieldName::GridWidth, expected: 2, actual: 3 })
    );
}

#[test]
fn wrong_tile_kind_is_rejected() {
    let mut data = tileset_bytes(1, 1, &[0u8; 64]);
    data[36] = 1;
    assert_eq!(
        Ncgr::new(&data),
        Err(NtrError::Mismatch { field: FieldName::TileKind, expected: 0, actual: 1 })
    );
}

#[test]
fn tileset_wrong_bit_depth_is_rejected() {
    let mut data = tileset_bytes(1, 1, &[0u8; 64]);
    data[28] = 3;
    assert_eq!(
        Ncgr::new(&data),
        Err(NtrError::Mismatch { field: FieldName::BitDepth, expected: 4, actual: 3 })
    );
}

#[test]
fn missing_tile_bytes_are_truncated() {
    let mut data = tileset_bytes(1, 2, &[7u8; 128]);
    data.truncate(data.len() - 1);
    assert_eq!(Ncgr::new(&data), Err(NtrError::Truncated));
}

#[test]
fn garbage_after_tiles_is_rejected() {
    let mut data = tileset_bytes(1, 1, &[7u8; 64]);
    data.extend_from_slice(&[1, 2, 3, 4, 5]);
    assert!(matches!(Ncgr::new(&data), Err(NtrError::Mismatch { .. })));
}
