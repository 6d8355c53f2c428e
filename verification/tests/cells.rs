use ntrgfx::error::FieldName;
use ntrgfx::error::NtrError;
use ntrgfx::ncer::Ncer;

fn push_u16(v: &mut Vec<u8>, x: u16) {
    v.push((x & 0xFF) as u8);
    v.push((x >> 8) as u8);
}

fn push_u32(v: &mut Vec<u8>, x: u32) {
    v.push((x & 0xFF) as u8);
    v.push(((x >> 8) & 0xFF) as u8);
    v.push(((x >> 16) & 0xFF) as u8);
    v.push((x >> 24) as u8);
}

fn cell_bytes(cells: &[(u16, &[(u16, u16, u16)])], label_block: &[u8]) -> Vec<u8> {
    let mut v = Vec::new();
    push_u32(&mut v, 0x4e434552);
    push_u32(&mut v, 0x0100FEFF);
    push_u32(&mut v, 0);
    push_u32(&mut v, 0x00010010);
    push_u32(&mut v, 0x4345424b);
    push_u32(&mut v, 0);
    push_u16(&mut v, cells.len() as u16);
    push_u16(&mut v, 0);
    push_u32(&mut v, 24);
    push_u32(&mut v, 2);
    push_u32(&mut v, 0);
    push_u32(&mut v, 0);
    push_u32(&mut v, 0);
    for (attrs, oam) in cells {
        push_u16(&mut v, oam.len() as u16);
        push_u16(&mut v, *attrs);
        push_u32(&mut v, 0);
    }
    for (_, oam) in cells {
        for (a0, a1, a2) in *oam {
            push_u16(&mut v, *a0);
            push_u16(&mut v, *a1);
            push_u16(&mut v, *a2);
        }
    }
    push_u32(&mut v, 0x4c41424c);
    push_u32(&mut v, 16 + label_block.len() as u32);
    push_u32(&mut v, 0);
    push_u32(&mut v, 0);
    v.extend_from_slice(label_block);
    push_u32(&mut v, 0x55455854);
    push_u32(&mut v, 0x0c);
    push_u32(&mut v, 0);
    v
}

#[test]
fn decodes_cell_attributes_and_records() {
    let oam = [(0x5B05u16, 0x8064u16, 0x7523u16)];
    let data = cell_bytes(&[(0x0042, &oam)], b"cell0\0");
    let ncer = Ncer::new(&data).unwrap();
    assert_eq!(ncer.cells.len(), 1);
    assert_eq!(ncer.cells[0].attributes, 0x0042);
    let a = &ncer.cells[0].oam[0];
    assert_eq!(a.y, 5);
    assert!(a.rotate_scale);
    assert!(a.double_size);
    assert!(!a.disabled);
    assert_eq!(a.mode, 2);
    assert!(a.mosaic);
    assert!(!a.is_8);
    assert_eq!(a.shape, 1);
    assert_eq!(a.x, 100);
    assert_eq!(a.matrix, 13);
    assert!(!a.flip_x);
    assert!(!a.flip_y);
    assert_eq!(a.size, 2);
    assert_eq!(a.character_name, 0x123);
    assert_eq!(a.priority, 1);
    assert_eq!(a.palette, 7);
}

#[test]
fn flips_apply_only_without_rotation() {
    // bits 12 and 13 set, rotation/scaling clear
    let oam = [(0x3000u16, 0u16, 0u16)];
    let data = cell_bytes(&[(0, &oam)], b"a\0");
    let ncer = Ncer::new(&data).unwrap();
    let a = &ncer.cells[0].oam[0];
    assert!(!a.rotate_scale);
    assert!(a.flip_x);
    assert!(a.flip_y);
    assert_eq!(a.matrix, 0);
}

#[test]
fn disabled_flag_applies_only_without_rotation() {
    let oam = [(0x0200u16, 0u16, 0u16)];
    let data = cell_bytes(&[(0, &oam)], b"a\0");
    let ncer = Ncer::new(&data).unwrap();
    let a = &ncer.cells[0].oam[0];
    assert!(a.disabled);
    assert!(!a.double_size);
}

#[test]
fn splits_labels_and_drops_empty_pieces() {
    let oam0 = [(0u16, 0u16, 0u16)];
    let data = cell_bytes(&[(0, &oam0), (1, &[])], b"ab\0\0cd\0");
    let ncer = Ncer::new(&data).unwrap();
    assert_eq!(ncer.cells.len(), 2);
    assert_eq!(ncer.cells[1].attributes, 1);
    assert_eq!(ncer.cells[1].oam.len(), 0);
    assert_eq!(ncer.labels, vec!["ab".to_string(), "cd".to_string()]);
}

#[test]
fn invalid_label_bytes_are_rejected() {
    let data = cell_bytes(&[(0, &[])], &[0xFF, 0xFE, 0x00]);
    assert_eq!(Ncer::new(&data), Err(NtrError::InvalidLabel));
}

#[test]
fn missing_label_section_is_reported() {
    let full = cell_bytes(&[(0, &[])], b"a\0");
    // cut everything from the label section onward
    let data = full[..56].to_vec();
    assert_eq!(Ncer::new(&data), Err(NtrError::MissingSection { tag: 0x4c41424c }));
}

#[test]
fn missing_user_extension_is_reported() {
    let full = cell_bytes(&[(0, &[])], b"a\0");
    let data = full[..full.len() - 12].to_vec();
    assert_eq!(Ncer::new(&data), Err(NtrError::MissingSection { tag: 0x55455854 }));
}

#[test]
fn nonzero_bank_attributes_are_rejected() {
    let mut data = cell_bytes(&[(0, &[])], b"a\0");
    data[26] = 1;
    assert_eq!(
        Ncer::new(&data),
        Err(NtrError::Mismatch { field: FieldName::BankAttributes, expected: 0, actual: 1 })
    );
}

#[test]
fn wrong_mapping_mode_is_rejected() {
    let mut data = cell_bytes(&[(0, &[])], b"a\0");
    data[32] = 3;
    assert_eq!(
        Ncer::new(&data),
        Err(NtrError::Mismatch { field: FieldName::MappingMode, expected: 2, actual: 3 })
    );
}

#[test]
fn cell_trailing_bytes_are_rejected() {
    let mut data = cell_bytes(&[(0, &[])], b"a\0");
    data.push(0);
    assert_eq!(Ncer::new(&data), Err(NtrError::TrailingData));
}

#[test]
fn truncated_records_fail() {
    let oam = [(1u16, 2u16, 3u16)];
    let full = cell_bytes(&[(0, &oam)], b"a\0");
    // cut inside the record area
    let data = full[..58].to_vec();
    assert_eq!(Ncer::new(&data), Err(NtrError::Truncated));
}

#[test]
fn cells_with_no_records_and_no_labels() {
    let data = cell_bytes(&[(9, &[])], b"");
    let ncer = Ncer::new(&data).unwrap();
    assert_eq!(ncer.cells.len(), 1);
    assert_eq!(ncer.cells[0].attributes, 9);
    assert!(ncer.labels.is_empty());
}
