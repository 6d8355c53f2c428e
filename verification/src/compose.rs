//! Compositing: resolves every cell of a tilemap through its tile's pixel
//! indices and its chosen color table into one raster image, pixel by
//! pixel, with no blending.

use vstd::prelude::*;

use crate::error::NtrError;
use crate::nclr::Nclr;
use crate::nclr::NclrColor;
use crate::ncgr::Ncgr;
use crate::nscr::Nscr;
use crate::nscr::NscrTile;
use vstd::arithmetic::div_mod::lemma_fundamental_div_mod_converse;

verus! {

/// A composed raster: `width * height` pixels, row-major, written once by
/// the compositor and never changed after.
#[derive(Debug, PartialEq, Eq)]
pub struct RasterImage {
    pub width: u32,
    pub height: u32,
    pub pixels: Vec<NclrColor>,
}

/// The palette as a sequence of color tables.
pub open spec fn palette_tables(nclr: &Nclr) -> Seq<Seq<NclrColor>> {
    nclr.palettes@.map_values(|v: Vec<NclrColor>| v@)
}

/// The tileset as a sequence of 64-byte pixel-index blocks.
pub open spec fn tileset_tiles(ncgr: &Ncgr) -> Seq<Seq<u8>> {
    ncgr.tiles@.map_values(|v: Vec<u8>| v@)
}

/// Whether the cell at map index `k` resolves: its tile id names a tile,
/// its palette index names a color table, and every pixel index of that
/// tile names an entry of that table.
pub open spec fn cell_ok(
    p: Seq<Seq<NclrColor>>,
    t: Seq<Seq<u8>>,
    m: Seq<NscrTile>,
    k: int,
) -> bool {
    &&& m[k].id < t.len()
    &&& m[k].palette < p.len()
    &&& forall|j: int|
        0 <= j < t[m[k].id as int].len() ==> #[trigger] t[m[k].id as int][j] < p[m[k].palette as int].len()
}

/// The first failure among the cells from index `i` onward, in map order:
/// an unresolvable tile id, then an unresolvable color table, then a pixel
/// index outside its table; `None` when every cell resolves.
pub open spec fn compose_err_from(
    p: Seq<Seq<NclrColor>>,
    t: Seq<Seq<u8>>,
    m: Seq<NscrTile>,
    i: int,
) -> Option<NtrError>
    decreases m.len() - i,
{
    if i < 0 || i >= m.len() {
        None
    } else if m[i].id >= t.len() {
        Some(NtrError::TileOutOfRange)
    } else if m[i].palette >= p.len() {
        Some(NtrError::PaletteOutOfRange)
    } else if exists|j: int|
        0 <= j < t[m[i].id as int].len() && t[m[i].id as int][j] >= p[m[i].palette as int].len() {
        Some(NtrError::ColorOutOfRange)
    } else {
        compose_err_from(p, t, m, i + 1)
    }
}

/// The color of the raster pixel at column `px`, row `py`: the cell of the
/// 8-by-8 tile covering it, resolved through its tile's pixel index and its
/// color table.
pub open spec fn compose_pixel(
    p: Seq<Seq<NclrColor>>,
    t: Seq<Seq<u8>>,
    m: Seq<NscrTile>,
    w: int,
    px: int,
    py: int,
) -> NclrColor {
    let cell = m[(py / 8) * w + (px / 8)];
    let idx = t[cell.id as int][(py % 8) * 8 + (px % 8)];
    p[cell.palette as int][idx as int]
}

/// The full raster, row-major, of a tilemap of `w` by `h` tiles.
pub open spec fn compose_pixels(
    p: Seq<Seq<NclrColor>>,
    t: Seq<Seq<u8>>,
    m: Seq<NscrTile>,
    w: int,
    h: int,
) -> Seq<NclrColor> {
    Seq::new((64 * w * h) as nat, |k: int| compose_pixel(p, t, m, w, k % (8 * w), k / (8 * w)))
}

proof fn lemma_compose_err_iff(p: Seq<Seq<NclrColor>>, t: Seq<Seq<u8>>, m: Seq<NscrTile>, i: int)
    requires
        0 <= i <= m.len(),
    ensures
        (compose_err_from(p, t, m, i) is None) <==> (forall|k: int|
            i <= k < m.len() ==> cell_ok(p, t, m, k)),
    decreases m.len() - i,
{
    if i < m.len() {
        lemma_compose_err_iff(p, t, m, i + 1);
        if m[i].id < t.len() && m[i].palette < p.len() && !(exists|j: int|
            0 <= j < t[m[i].id as int].len() && t[m[i].id as int][j]
                >= p[m[i].palette as int].len()) {
            assert forall|j: int| 0 <= j < t[m[i].id as int].len() implies #[trigger] (t[m[i].id as int][j])
                < p[m[i].palette as int].len() by {
                assert(!(0 <= j < t[m[i].id as int].len() && t[m[i].id as int][j]
                    >= p[m[i].palette as int].len()));
            }
            assert(cell_ok(p, t, m, i));
        } else {
            assert(compose_err_from(p, t, m, i) is Some);
            if m[i].id < t.len() && m[i].palette < p.len() {
                let j = choose|j: int|
                    0 <= j < t[m[i].id as int].len() && t[m[i].id as int][j]
                        >= p[m[i].palette as int].len();
                assert(t[m[i].id as int][j] >= p[m[i].palette as int].len());
                assert(!cell_ok(p, t, m, i));
            } else {
                assert(!cell_ok(p, t, m, i));
            }
        }
    }
}

/// Law: composing succeeds exactly when every tile reference of the map
/// names a tile of the tileset and a color table of the palette, and every
/// pixel index of each referenced tile names an entry of its chosen table;
/// any out-of-range reference makes composing fail.
pub proof fn lemma_compose_checks_references(
    p: Seq<Seq<NclrColor>>,
    t: Seq<Seq<u8>>,
    m: Seq<NscrTile>,
)
    ensures
        (compose_err_from(p, t, m, 0) is None) <==> (forall|k: int|
            0 <= k < m.len() ==> cell_ok(p, t, m, k)),
{
    lemma_compose_err_iff(p, t, m, 0);
}

/// Law: the composed raster is a function of the palette, tileset and
/// tilemap alone, so composing the same triple twice yields rasters of the
/// same dimensions with identical pixels.
pub proof fn lemma_compose_deterministic(
    r1: RasterImage,
    r2: RasterImage,
    p: Seq<Seq<NclrColor>>,
    t: Seq<Seq<u8>>,
    m: Seq<NscrTile>,
    w: int,
    h: int,
)
    requires
        r1.width == 8 * w && r1.height == 8 * h && r1.pixels@ == compose_pixels(p, t, m, w, h),
        r2.width == 8 * w && r2.height == 8 * h && r2.pixels@ == compose_pixels(p, t, m, w, h),
    ensures
        r1.width == r2.width,
        r1.height == r2.height,
        r1.pixels@ == r2.pixels@,
{
}

/// Checks that every cell of the map resolves, in map order.
fn compose_validate(nclr: &Nclr, ncgr: &Ncgr, nscr: &Nscr) -> (r: Option<NtrError>)
    requires
        forall|i: int| 0 <= i < ncgr.tiles@.len() ==> (#[trigger] ncgr.tiles@[i]@).len() == 64,
    ensures
        r == compose_err_from(palette_tables(nclr), tileset_tiles(ncgr), nscr.map@, 0),
{
    let ghost pv = palette_tables(nclr);
    let ghost tv = tileset_tiles(ncgr);
    let ghost mv = nscr.map@;
    let mu = nscr.map.len();
    let mut i: usize = 0;
    while i < mu
        invariant
            i <= mu,
            mu == mv.len(),
            pv == palette_tables(nclr),
            tv == tileset_tiles(ncgr),
            mv == nscr.map@,
            forall|k: int| 0 <= k < tv.len() ==> (#[trigger] tv[k]).len() == 64,
            compose_err_from(pv, tv, mv, 0) == compose_err_from(pv, tv, mv, i as int),
        decreases mu - i,
    {
        let cell = nscr.map[i];
        if cell.id as usize >= ncgr.tiles.len() {
            return Some(NtrError::TileOutOfRange);
        }
        if cell.palette as usize >= nclr.palettes.len() {
            return Some(NtrError::PaletteOutOfRange);
        }
        let tile = &ncgr.tiles[cell.id as usize];
        let table_len = nclr.palettes[cell.palette as usize].len();
        let mut j: usize = 0;
        while j < 64
            invariant
                j <= 64,
                i < mu,
                mu == mv.len(),
                pv == palette_tables(nclr),
                tv == tileset_tiles(ncgr),
                mv == nscr.map@,
                cell == mv[i as int],
                cell.id < tv.len(),
                cell.palette < pv.len(),
                compose_err_from(pv, tv, mv, 0) == compose_err_from(pv, tv, mv, i as int),
                tile@ == tv[cell.id as int],
                tile@.len() == 64,
                table_len == pv[cell.palette as int].len(),
                forall|u: int| 0 <= u < j ==> #[trigger] tv[cell.id as int][u] < table_len,
            decreases 64 - j,
        {
            if tile[j] as usize >= table_len {
                proof {
                    assert((j as int) < tv[cell.id as int].len() && tv[cell.id as int][j as int]
                        >= pv[cell.palette as int].len());
                    assert(exists|u: int|
                        0 <= u < tv[cell.id as int].len() && tv[cell.id as int][u]
                            >= pv[cell.palette as int].len());
                }
                return Some(NtrError::ColorOutOfRange);
            }
            j = j + 1;
        }
        proof {
            assert(!(exists|u: int|
                0 <= u < tv[cell.id as int].len() && tv[cell.id as int][u]
                    >= pv[cell.palette as int].len()));
        }
        i = i + 1;
    }
    None
}

/// Composes a palette, tileset and tilemap into one raster image of
/// `8 * width` by `8 * height` pixels. Succeeds exactly when every cell of
/// the map resolves, and then every output pixel is the color that its
/// cell's tile and color table give it; fails on the first out-of-range
/// tile id, color-table index or pixel index, in map order.
pub fn compose(nclr: &Nclr, ncgr: &Ncgr, nscr: &Nscr) -> (r: Result<RasterImage, NtrError>)
    requires
        nscr.map@.len() == nscr.width * nscr.height,
        nscr.width <= 8191,
        nscr.height <= 8191,
        forall|i: int| 0 <= i < ncgr.tiles@.len() ==> (#[trigger] ncgr.tiles@[i]@).len() == 64,
        64 * (nscr.width as int) * (nscr.height as int) <= usize::MAX,
    ensures
        (r is Ok) <==> (compose_err_from(
            palette_tables(nclr),
            tileset_tiles(ncgr),
            nscr.map@,
            0,
        ) is None),
        r is Err ==> Some(r->Err_0) == compose_err_from(
            palette_tables(nclr),
            tileset_tiles(ncgr),
            nscr.map@,
            0,
        ),
        r is Ok ==> r->Ok_0.width == 8 * nscr.width && r->Ok_0.height == 8 * nscr.height,
        r is Ok ==> r->Ok_0.pixels@ == compose_pixels(
            palette_tables(nclr),
            tileset_tiles(ncgr),
            nscr.map@,
            nscr.width as int,
            nscr.height as int,
        ),
{
    let ghost pv = palette_tables(nclr);
    let ghost tv = tileset_tiles(ncgr);
    let ghost mv = nscr.map@;
    match compose_validate(nclr, ncgr, nscr) {
        Some(e) => {
            return Err(e);
        },
        None => {},
    }
    proof {
        lemma_compose_err_iff(pv, tv, mv, 0);
    }
    let wu = nscr.width as usize;
    let hu = nscr.height as usize;
    let mu = nscr.map.len();
    let w8 = 8 * wu;
    let h8 = 8 * hu;
    proof {
        assert(8 * wu * (8 * hu) == 64 * wu * hu) by (nonlinear_arith);
        assert(64 * wu * hu <= usize::MAX);
    }
    let mut pixels: Vec<NclrColor> = Vec::new();
    let mut py: usize = 0;
    while py < h8
        invariant
            py <= h8,
            w8 == 8 * wu,
            h8 == 8 * hu,
            wu == nscr.width,
            hu == nscr.height,
            wu <= 8191,
            hu <= 8191,
            64 * wu * hu <= usize::MAX,
            w8 * h8 == 64 * wu * hu,
            pv == palette_tables(nclr),
            tv == tileset_tiles(ncgr),
            mv == nscr.map@,
            mv.len() == wu * hu,
            mu == mv.len(),
            forall|k: int| 0 <= k < tv.len() ==> (#[trigger] tv[k]).len() == 64,
            forall|k: int| 0 <= k < mv.len() ==> cell_ok(pv, tv, mv, k),
            compose_err_from(pv, tv, mv, 0) is None,
            pixels@.len() == py * w8,
            forall|k: int|
                0 <= k < py * w8 ==> #[trigger] pixels@[k] == compose_pixel(
                    pv,
                    tv,
                    mv,
                    wu as int,
                    k % (w8 as int),
                    k / (w8 as int),
                ),
        decreases h8 - py,
    {
        let mut px: usize = 0;
        proof {
            assert(py * w8 + w8 <= h8 * w8) by (nonlinear_arith)
                requires
                    py + 1 <= h8,
                    0 <= w8,
            ;
        }
        while px < w8
            invariant
                px <= w8,
                py < h8,
                w8 == 8 * wu,
                h8 == 8 * hu,
                wu == nscr.width,
                hu == nscr.height,
                wu <= 8191,
                hu <= 8191,
                64 * wu * hu <= usize::MAX,
                w8 * h8 == 64 * wu * hu,
                py * w8 + w8 <= h8 * w8,
                pv == palette_tables(nclr),
                tv == tileset_tiles(ncgr),
                mv == nscr.map@,
                mv.len() == wu * hu,
                mu == mv.len(),
                forall|k: int| 0 <= k < tv.len() ==> (#[trigger] tv[k]).len() == 64,
                forall|k: int| 0 <= k < mv.len() ==> cell_ok(pv, tv, mv, k),
                compose_err_from(pv, tv, mv, 0) is None,
                pixels@.len() == py * w8 + px,
                forall|k: int|
                    0 <= k < py * w8 + px ==> #[trigger] pixels@[k] == compose_pixel(
                        pv,
                        tv,
                        mv,
                        wu as int,
                        k % (w8 as int),
                        k / (w8 as int),
                    ),
            decreases w8 - px,
        {
            let ty = py / 8;
            let tx = px / 8;
            proof {
                assert(ty < hu && tx < wu);
                assert(ty * wu + tx < hu * wu) by (nonlinear_arith)
                    requires
                        0 <= tx < wu,
                        0 <= ty,
                        ty + 1 <= hu,
                ;
                assert(hu * wu == wu * hu) by (nonlinear_arith);
                assert(ty * wu + tx < mu);
                assert(cell_ok(pv, tv, mv, ty * wu + tx));
            }
            let cell = nscr.map[ty * wu + tx];
            proof {
                assert(cell == mv[ty * wu + tx]);
                assert(cell.id < tv.len() && cell.palette < pv.len());
                assert(tv[cell.id as int] == ncgr.tiles@[cell.id as int]@);
                assert(tv[cell.id as int].len() == 64);
                assert(pv[cell.palette as int] == nclr.palettes@[cell.palette as int]@);
            }
            let tile = &ncgr.tiles[cell.id as usize];
            let idx = tile[(py % 8) * 8 + px % 8];
            proof {
                assert(idx == tv[cell.id as int][(py % 8) * 8 + px % 8]);
                assert(idx < pv[cell.palette as int].len());
            }
            let colour = nclr.palettes[cell.palette as usize][idx as usize];
            pixels.push(colour);
            proof {
                let k = py * w8 + px;
                lemma_fundamental_div_mod_converse(k as int, w8 as int, py as int, px as int);
                assert((py as int) / 8 * (wu as int) + (px as int) / 8 == ty * wu + tx);
                assert(pixels@[k as int] == compose_pixel(
                    pv,
                    tv,
                    mv,
                    wu as int,
                    k as int % (w8 as int),
                    k as int / (w8 as int),
                ));
            }
            px = px + 1;
        }
        py = py + 1;
        proof {
            assert(py * w8 == (py - 1) * w8 + w8) by (nonlinear_arith);
        }
    }
    proof {
        assert(pixels@.len() == h8 * w8);
        assert(h8 * w8 == 64 * wu * hu) by (nonlinear_arith)
            requires
                w8 == 8 * wu,
                h8 == 8 * hu,
        ;
        assert(pixels@ =~= compose_pixels(pv, tv, mv, wu as int, hu as int));
    }
    Ok(
        RasterImage {
            width: 8 * nscr.width,
            height: 8 * nscr.height,
            pixels,
        },
    )
}

} // verus!
