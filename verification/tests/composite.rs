use ntrgfx::compose::compose;
use ntrgfx::error::NtrError;
use ntrgfx::nclr::Nclr;
use ntrgfx::nclr::NclrColor;
use ntrgfx::ncgr::Ncgr;
use ntrgfx::nscr::Nscr;
use ntrgfx::nscr::NscrTile;

fn color(r: u8, g: u8, b: u8, a: u8) -> NclrColor {
    NclrColor { r, g, b, a }
}

fn two_tile_inputs() -> (Nclr, Ncgr, Nscr) {
    let palette = Nclr { palettes: vec![vec![color(255, 0, 0, 255), color(0, 255, 0, 255)]] };
    let tileset = Ncgr { tiles: vec![vec![0u8; 64], vec![1u8; 64]] };
    let tilemap = Nscr {
        width: 2,
        height: 1,
        map: vec![NscrTile { id: 0, palette: 0 }, NscrTile { id: 1, palette: 0 }],
    };
    (palette, tileset, tilemap)
}

#[test]
fn left_red_right_green() {
    let (palette, tileset, tilemap) = two_tile_inputs();
    let raster = compose(&palette, &tileset, &tilemap).unwrap();
    assert_eq!(raster.width, 16);
    assert_eq!(raster.height, 8);
    assert_eq!(raster.pixels.len(), 128);
    for py in 0..8usize {
        for px in 0..16usize {
            let p = &raster.pixels[py * 16 + px];
            if px < 8 {
                assert_eq!((p.r, p.g, p.b, p.a), (255, 0, 0, 255));
            } else {
                assert_eq!((p.r, p.g, p.b, p.a), (0, 255, 0, 255));
            }
        }
    }
}

#[test]
fn composing_twice_is_identical() {
    let (palette, tileset, tilemap) = two_tile_inputs();
    let first = compose(&palette, &tileset, &tilemap).unwrap();
    let second = compose(&palette, &tileset, &tilemap).unwrap();
    assert_eq!(first.width, second.width);
    assert_eq!(first.height, second.height);
    assert_eq!(first.pixels, second.pixels);
}

#[test]
fn tile_id_out_of_range_fails() {
    let (palette, tileset, mut tilemap) = two_tile_inputs();
    tilemap.map[1].id = 5;
    assert_eq!(compose(&palette, &tileset, &tilemap), Err(NtrError::TileOutOfRange));
}

#[test]
fn palette_index_out_of_range_fails() {
    let (palette, tileset, mut tilemap) = two_tile_inputs();
    tilemap.map[0].palette = 3;
    assert_eq!(compose(&palette, &tileset, &tilemap), Err(NtrError::PaletteOutOfRange));
}

#[test]
fn pixel_index_outside_color_table_fails() {
    let (palette, mut tileset, tilemap) = two_tile_inputs();
    // the palette's only table holds two colors; index 2 has none
    tileset.tiles[1][63] = 2;
    assert_eq!(compose(&palette, &tileset, &tilemap), Err(NtrError::ColorOutOfRange));
}

#[test]
fn pixel_indices_resolve_through_chosen_table() {
    let palette = Nclr {
        palettes: vec![
            vec![color(1, 1, 1, 255), color(2, 2, 2, 255)],
            vec![color(9, 9, 9, 255), color(8, 8, 8, 255)],
        ],
    };
    let mut tile = vec![0u8; 64];
    tile[0] = 1;
    let tileset = Ncgr { tiles: vec![tile] };
    let tilemap = Nscr { width: 1, height: 1, map: vec![NscrTile { id: 0, palette: 1 }] };
    let raster = compose(&palette, &tileset, &tilemap).unwrap();
    assert_eq!((raster.pixels[0].r, raster.pixels[0].a), (8, 255));
    assert_eq!((raster.pixels[1].r, raster.pixels[1].a), (9, 255));
}

#[test]
fn empty_map_composes_to_empty_raster() {
    let palette = Nclr { palettes: vec![] };
    let tileset = Ncgr { tiles: vec![] };
    let tilemap = Nscr { width: 0, height: 0, map: vec![] };
    let raster = compose(&palette, &tileset, &tilemap).unwrap();
    assert_eq!(raster.width, 0);
    assert_eq!(raster.height, 0);
    assert_eq!(raster.pixels.len(), 0);
}
