//! The tileset assembler and the screen renderer.
//!
//! A room's layers are painted into RGBA images: screen-grid tiles reference
//! 16x16 composite tiles of the merged tileset, background descriptor blocks
//! reference 8x8 bitmaps directly, and texel 0 is transparent — it leaves
//! the destination byte untouched, alpha included.

use vstd::prelude::*;
use vstd::arithmetic::div_mod::lemma_fundamental_div_mod;
use vstd::string::StringExecFns;

use crate::Error;
use crate::file_system::FileSystem;
use crate::numerals::{format_decimal, format_hex2, spec_decimal};
use crate::smart_xml::{BGData, BGDataData, Room, RoomState, Screen};
use crate::tile::{
    decode_16x16_tile, decode_8x8_tile, decode_8x8_tile_data_4bpp, decode_color, spec_decode_16x16_tile,
    spec_decode_8x8, spec_decode_8x8_tile, spec_decode_color, spec_word_le, Color, Gfx8x8, Tile16x16,
    Tile8x8,
};

verus! {

/// An RGBA raster: pixel `(x, y)` occupies the four bytes starting at
/// `(y * width + x) * 4`.  Alpha 0 marks a pixel no paint touched; alpha 255
/// a painted one.
#[derive(Clone, Debug)]
pub struct Image {
    pub width: usize,
    pub height: usize,
    pub pixels: Vec<u8>,
}

/// The images of every state of a room: one label and one image per layer
/// per state, all lists of the same length.
#[derive(Clone, Debug)]
pub struct RoomImages {
    pub room_state_names: Vec<String>,
    pub layer1: Vec<Image>,
    pub layer2: Vec<Image>,
}

/// The common tileset, shared by every room: bitmaps and composite tiles,
/// no palette of its own.
#[derive(Clone, Debug)]
pub struct CRETileset {
    pub gfx: Vec<Gfx8x8>,
    pub tiles: Vec<Tile16x16>,
}

/// A merged per-state tileset: the state's palette, its bitmaps followed by
/// the common ones, and the common composite tiles followed by its own.
#[derive(Clone, Debug)]
pub struct SCETileset {
    pub palette: Vec<Color>,
    pub gfx: Vec<Gfx8x8>,
    pub tiles: Vec<Tile16x16>,
}

/// First byte of pixel `(x, y)` in a raster `width` pixels wide.
pub open spec fn pix_base(width: int, x: int, y: int) -> int {
    (y * width + x) * 4
}

/// An all-transparent pixel buffer for a `width` by `height` raster.
pub open spec fn spec_blank(width: int, height: int) -> Seq<u8> {
    Seq::new((width * height * 4) as nat, |i: int| 0u8)
}

/// The RGB bytes of pixel `(x, y)`.
pub open spec fn spec_get_pixel(p: Seq<u8>, width: int, x: int, y: int) -> Color {
    Color {
        r: p[pix_base(width, x, y)],
        g: p[pix_base(width, x, y) + 1],
        b: p[pix_base(width, x, y) + 2],
    }
}

/// Whether pixel `(x, y)` is untouched (alpha 0).
pub open spec fn spec_transparent(p: Seq<u8>, width: int, x: int, y: int) -> bool {
    p[pix_base(width, x, y) + 3] == 0
}

/// The buffer after painting pixel `(x, y)` with `c`, fully opaque.
pub open spec fn spec_set_pixel(p: Seq<u8>, width: int, x: int, y: int, c: Color) -> Seq<u8> {
    Seq::new(
        p.len(),
        |i: int|
            if pix_base(width, x, y) <= i < pix_base(width, x, y) + 4 {
                if i == pix_base(width, x, y) {
                    c.r
                } else if i == pix_base(width, x, y) + 1 {
                    c.g
                } else if i == pix_base(width, x, y) + 2 {
                    c.b
                } else {
                    255u8
                }
            } else {
                p[i]
            },
    )
}

impl Image {
    /// The pixel buffer holds exactly four bytes per pixel.
    pub open spec fn wf(&self) -> bool {
        self.pixels@.len() == self.width * self.height * 4
    }

    /// A fresh, all-transparent image.
    pub fn new(width: usize, height: usize) -> (img: Image)
        requires
            width * height * 4 <= usize::MAX,
        ensures
            img.wf(),
            img.width == width,
            img.height == height,
            img.pixels@ == spec_blank(width as int, height as int),
    {
        let n = (width * height) * 4;
        let mut pixels: Vec<u8> = Vec::new();
        let mut i: usize = 0;
        while i < n
            invariant
                i <= n,
                pixels@.len() == i,
                forall|j: int| 0 <= j < i ==> pixels@[j] == 0u8,
            decreases n - i,
        {
            pixels.push(0);
            i = i + 1;
        }
        let img = Image { width, height, pixels };
        proof {
            assert(img.pixels@ =~= spec_blank(width as int, height as int));
        }
        img
    }

    /// The RGB bytes of pixel `(x, y)`.
    pub fn get_pixel(&self, x: usize, y: usize) -> (c: Color)
        requires
            self.wf(),
            x < self.width,
            y < self.height,
        ensures
            c == spec_get_pixel(self.pixels@, self.width as int, x as int, y as int),
    {
        proof {
            lemma_pix_base_bounds(
                self.width as int,
                self.height as int,
                x as int,
                y as int,
            );
        }
        // Reading the buffer length puts its usize bound in scope for the
        // index arithmetic.
        let _buffer_len = self.pixels.len();
        let i = (y * self.width + x) * 4;
        Color { r: self.pixels[i], g: self.pixels[i + 1], b: self.pixels[i + 2] }
    }

    /// Whether pixel `(x, y)` is untouched.
    pub fn get_transparent(&self, x: usize, y: usize) -> (b: bool)
        requires
            self.wf(),
            x < self.width,
            y < self.height,
        ensures
            b == spec_transparent(self.pixels@, self.width as int, x as int, y as int),
    {
        proof {
            lemma_pix_base_bounds(
                self.width as int,
                self.height as int,
                x as int,
                y as int,
            );
        }
        let _buffer_len = self.pixels.len();
        let i = (y * self.width + x) * 4;
        self.pixels[i + 3] == 0
    }

    /// Paint pixel `(x, y)` with `color`, fully opaque.
    pub fn set_pixel(&mut self, x: usize, y: usize, color: Color)
        requires
            old(self).wf(),
            x < old(self).width,
            y < old(self).height,
        ensures
            final(self).wf(),
            final(self).width == old(self).width,
            final(self).height == old(self).height,
            final(self).pixels@ == spec_set_pixel(
                old(self).pixels@,
                old(self).width as int,
                x as int,
                y as int,
                color,
            ),
    {
        proof {
            lemma_pix_base_bounds(
                self.width as int,
                self.height as int,
                x as int,
                y as int,
            );
        }
        let _buffer_len = self.pixels.len();
        let i = (y * self.width + x) * 4;
        self.pixels[i] = color.r;
        self.pixels[i + 1] = color.g;
        self.pixels[i + 2] = color.b;
        self.pixels[i + 3] = 255;
        proof {
            assert(self.pixels@ =~= spec_set_pixel(
                old(self).pixels@,
                old(self).width as int,
                x as int,
                y as int,
                color,
            ));
        }
    }
}

/// A pixel's four bytes sit inside the buffer.
proof fn lemma_pix_base_bounds(width: int, height: int, x: int, y: int)
    requires
        0 <= x < width,
        0 <= y < height,
    ensures
        0 <= pix_base(width, x, y),
        pix_base(width, x, y) + 4 <= width * height * 4,
        y * width + x < width * height,
{
    assert(0 <= (y * width + x) * 4 && (y * width + x) * 4 + 4 <= width * height * 4 && y * width
        + x < width * height) by (nonlinear_arith)
        requires
            0 <= x < width,
            0 <= y < height,
    ;
}

/// Byte `i` of a buffer decomposes uniquely into a pixel and a channel.
pub(crate) proof fn lemma_byte_decomp(width: int, height: int, i: int)
    requires
        0 < width,
        0 < height,
        0 <= i < width * height * 4,
    ensures
        0 <= (i / 4) % width < width,
        0 <= (i / 4) / width < height,
        0 <= i % 4 < 4,
        i == pix_base(width, (i / 4) % width, (i / 4) / width) + i % 4,
{
    lemma_fundamental_div_mod(i, 4);
    lemma_fundamental_div_mod(i / 4, width);
    assert(0 <= i / 4 < width * height) by (nonlinear_arith)
        requires
            0 <= i < width * height * 4,
            i / 4 == (i - i % 4) / 4,
            0 <= i % 4 < 4,
            i == 4 * (i / 4) + i % 4,
    ;
    assert(0 <= (i / 4) / width < height) by (nonlinear_arith)
        requires
            0 < width,
            0 <= i / 4 < width * height,
            i / 4 == width * ((i / 4) / width) + (i / 4) % width,
            0 <= (i / 4) % width < width,
    ;
    assert(i == ((i / 4) / width * width + (i / 4) % width) * 4 + i % 4) by (nonlinear_arith)
        requires
            i == 4 * (i / 4) + i % 4,
            i / 4 == width * ((i / 4) / width) + (i / 4) % width,
    ;
}

/// The bytes of pixel `(x, y)` decompose back onto `(x, y)`.
pub(crate) proof fn lemma_base_decomp(width: int, height: int, x: int, y: int, k: int)
    requires
        0 <= x < width,
        0 <= y < height,
        0 <= k < 4,
    ensures
        (pix_base(width, x, y) + k) / 4 == y * width + x,
        (pix_base(width, x, y) + k) % 4 == k,
        ((pix_base(width, x, y) + k) / 4) % width == x,
        ((pix_base(width, x, y) + k) / 4) / width == y,
{
    let b = (y * width + x) * 4 + k;
    assert(b / 4 == y * width + x && b % 4 == k) by (nonlinear_arith)
        requires
            b == (y * width + x) * 4 + k,
            0 <= k < 4,
            0 <= y * width + x,
    ;
    assert((y * width + x) % width == x && (y * width + x) / width == y) by (nonlinear_arith)
        requires
            0 <= x < width,
            0 <= y,
    ;
}

/// The source texel of an 8x8 tile reference at local position `(lx, ly)`,
/// after the tile's own flips.
pub open spec fn spec_tile8_src(tile: Tile8x8, gfx: Seq<u8>, lx: int, ly: int) -> u8 {
    gfx[(if tile.flip_y {
        7 - ly
    } else {
        ly
    }) * 8 + (if tile.flip_x {
        7 - lx
    } else {
        lx
    })]
}

/// Byte `i` of the buffer after painting the first `n` texels (row-major) of
/// an 8x8 tile whose pixel origin is `(x0, y0)`.
pub open spec fn spec_tile8_byte(
    p: Seq<u8>,
    width: int,
    x0: int,
    y0: int,
    tile: Tile8x8,
    gfx: Seq<u8>,
    palette: Seq<Color>,
    n: int,
    i: int,
) -> u8 {
    let px = (i / 4) % width;
    let py = (i / 4) / width;
    let k = i % 4;
    let lx = px - x0;
    let ly = py - y0;
    if 0 <= lx < 8 && 0 <= ly < 8 && ly * 8 + lx < n && spec_tile8_src(tile, gfx, lx, ly) != 0 {
        let c = palette[tile.palette * 16 + spec_tile8_src(tile, gfx, lx, ly)];
        if k == 0 {
            c.r
        } else if k == 1 {
            c.g
        } else if k == 2 {
            c.b
        } else {
            255u8
        }
    } else {
        p[i]
    }
}

/// The buffer after painting the first `n` texels of an 8x8 tile.
pub open spec fn spec_paint_tile8_upto(
    p: Seq<u8>,
    width: int,
    x0: int,
    y0: int,
    tile: Tile8x8,
    gfx: Seq<u8>,
    palette: Seq<Color>,
    n: int,
) -> Seq<u8> {
    Seq::new(p.len(), |i: int| spec_tile8_byte(p, width, x0, y0, tile, gfx, palette, n, i))
}

/// The buffer after painting a whole 8x8 tile: opaque texels overwrite their
/// pixel, texel 0 leaves it untouched.
pub open spec fn spec_paint_tile8(
    p: Seq<u8>,
    width: int,
    x0: int,
    y0: int,
    tile: Tile8x8,
    gfx: Seq<u8>,
    palette: Seq<Color>,
) -> Seq<u8> {
    spec_paint_tile8_upto(p, width, x0, y0, tile, gfx, palette, 64)
}

/// `spec_paint_tile8` with the bitmap and palette taken from a tileset.
pub open spec fn spec_paint_tile8_ts(
    p: Seq<u8>,
    width: int,
    x0: int,
    y0: int,
    tile: Tile8x8,
    ts: SCETileset,
) -> Seq<u8> {
    spec_paint_tile8(p, width, x0, y0, tile, ts.gfx@[tile.idx as int].px@, ts.palette@)
}

/// The buffer after painting a 16x16 composite tile: its four quadrants at
/// `(0,0)`, `(+8,0)`, `(0,+8)` and `(+8,+8)` from the tile's pixel origin.
pub open spec fn spec_paint_tile16(
    p: Seq<u8>,
    width: int,
    x0: int,
    y0: int,
    tile: Tile16x16,
    ts: SCETileset,
) -> Seq<u8> {
    spec_paint_tile8_ts(
        spec_paint_tile8_ts(
            spec_paint_tile8_ts(
                spec_paint_tile8_ts(p, width, x0, y0, tile.top_left, ts),
                width,
                x0 + 8,
                y0,
                tile.top_right,
                ts,
            ),
            width,
            x0,
            y0 + 8,
            tile.bottom_left,
            ts,
        ),
        width,
        x0 + 8,
        y0 + 8,
        tile.bottom_right,
        ts,
    )
}

/// Whether an 8x8 tile reference points inside a tileset with `ngfx`
/// bitmaps.
pub open spec fn spec_tile8_ref_ok(t: Tile8x8, ngfx: int) -> bool {
    t.idx < ngfx && t.palette < 8
}

/// Whether all four quadrants of a composite tile point inside the tileset.
pub open spec fn spec_tile16_refs_ok(t: Tile16x16, ngfx: int) -> bool {
    &&& spec_tile8_ref_ok(t.top_left, ngfx)
    &&& spec_tile8_ref_ok(t.top_right, ngfx)
    &&& spec_tile8_ref_ok(t.bottom_left, ngfx)
    &&& spec_tile8_ref_ok(t.bottom_right, ngfx)
}

impl SCETileset {
    /// The palette covers all eight banks, every bitmap is a well-formed
    /// 8x8 matrix of 4-bit texels, and every composite tile points inside
    /// the bitmap list.
    pub open spec fn wf(&self) -> bool {
        &&& self.palette@.len() >= 128
        &&& forall|g: int| 0 <= g < self.gfx@.len() ==> (#[trigger] self.gfx@[g]).wf()
        &&& forall|t: int|
            0 <= t < self.tiles@.len() ==> spec_tile16_refs_ok(
                #[trigger] self.tiles@[t],
                self.gfx@.len() as int,
            )
    }
}

/// Paint one 8x8 tile into `image` at pixel origin `(x0, y0)`: flips mirror
/// the source coordinate, texel 0 is skipped, and an opaque texel takes the
/// color at palette slot `palette_bank * 16 + texel`.
pub fn render_tile_8x8(image: &mut Image, x0: usize, y0: usize, tile: Tile8x8, tileset: &SCETileset)
    requires
        old(image).wf(),
        x0 + 8 <= old(image).width,
        y0 + 8 <= old(image).height,
        tileset.wf(),
        tile.idx < tileset.gfx@.len(),
        tile.palette < 8,
    ensures
        final(image).wf(),
        final(image).width == old(image).width,
        final(image).height == old(image).height,
        final(image).pixels@ == spec_paint_tile8_ts(
            old(image).pixels@,
            old(image).width as int,
            x0 as int,
            y0 as int,
            tile,
            *tileset,
        ),
{
    let ghost p0 = image.pixels@;
    let ghost w = image.width as int;
    let ghost h = image.height as int;
    let gfx = &tileset.gfx[tile.idx];
    let palette_base = tile.palette * 16;
    proof {
        assert(image.pixels@ =~= spec_paint_tile8_upto(
            p0,
            w,
            x0 as int,
            y0 as int,
            tile,
            gfx.px@,
            tileset.palette@,
            0,
        ));
    }
    let mut y: usize = 0;
    while y < 8
        invariant
            y <= 8,
            image.wf(),
            image.width == old(image).width,
            image.height == old(image).height,
            w == image.width as int,
            h == image.height as int,
            p0.len() == w * h * 4,
            x0 + 8 <= image.width,
            y0 + 8 <= image.height,
            tileset.wf(),
            tile.idx < tileset.gfx@.len(),
            tile.palette < 8,
            palette_base == tile.palette * 16,
            gfx == &tileset.gfx@[tile.idx as int],
            image.pixels@ == spec_paint_tile8_upto(
                p0,
                w,
                x0 as int,
                y0 as int,
                tile,
                gfx.px@,
                tileset.palette@,
                y * 8,
            ),
        decreases 8 - y,
    {
        let mut x: usize = 0;
        while x < 8
            invariant
                x <= 8,
                y < 8,
                image.wf(),
                image.width == old(image).width,
                image.height == old(image).height,
                w == image.width as int,
                h == image.height as int,
                p0.len() == w * h * 4,
                x0 + 8 <= image.width,
                y0 + 8 <= image.height,
                tileset.wf(),
                tile.idx < tileset.gfx@.len(),
                tile.palette < 8,
                palette_base == tile.palette * 16,
                gfx == &tileset.gfx@[tile.idx as int],
                image.pixels@ == spec_paint_tile8_upto(
                    p0,
                    w,
                    x0 as int,
                    y0 as int,
                    tile,
                    gfx.px@,
                    tileset.palette@,
                    y * 8 + x,
                ),
            decreases 8 - x,
        {
            let ghost n = (y * 8 + x) as int;
            let ghost pn = image.pixels@;
            let x1 = if tile.flip_x {
                7 - x
            } else {
                x
            };
            let y1 = if tile.flip_y {
                7 - y
            } else {
                y
            };
            let texel = gfx.px[y1 * 8 + x1];
            proof {
                assert(texel == spec_tile8_src(tile, gfx.px@, x as int, y as int));
                assert(texel < 16);
            }
            if texel != 0 {
                let color_idx = palette_base + texel as usize;
                let color = tileset.palette[color_idx];
                image.set_pixel(x0 + x, y0 + y, color);
                proof {
                    lemma_paint_tile8_step(
                        p0,
                        pn,
                        w,
                        h,
                        x0 as int,
                        y0 as int,
                        tile,
                        gfx.px@,
                        tileset.palette@,
                        x as int,
                        y as int,
                        image.pixels@,
                    );
                }
            } else {
                proof {
                    lemma_paint_tile8_skip(
                        p0,
                        w,
                        x0 as int,
                        y0 as int,
                        tile,
                        gfx.px@,
                        tileset.palette@,
                        x as int,
                        y as int,
                    );
                }
            }
            x = x + 1;
        }
        y = y + 1;
    }
}

/// One painted texel advances the pointwise paint specification by one.
proof fn lemma_paint_tile8_step(
    p0: Seq<u8>,
    pn: Seq<u8>,
    width: int,
    height: int,
    x0: int,
    y0: int,
    tile: Tile8x8,
    gfx: Seq<u8>,
    palette: Seq<Color>,
    x: int,
    y: int,
    after: Seq<u8>,
)
    requires
        0 <= x < 8,
        0 <= y < 8,
        0 < width,
        0 < height,
        x0 + 8 <= width,
        y0 + 8 <= height,
        0 <= x0,
        0 <= y0,
        p0.len() == width * height * 4,
        pn == spec_paint_tile8_upto(p0, width, x0, y0, tile, gfx, palette, y * 8 + x),
        spec_tile8_src(tile, gfx, x, y) != 0,
        0 <= tile.palette * 16 + spec_tile8_src(tile, gfx, x, y) < palette.len(),
        after == spec_set_pixel(
            pn,
            width,
            x0 + x,
            y0 + y,
            palette[tile.palette * 16 + spec_tile8_src(tile, gfx, x, y)],
        ),
    ensures
        after == spec_paint_tile8_upto(p0, width, x0, y0, tile, gfx, palette, y * 8 + x + 1),
{
    let n = y * 8 + x;
    let target = spec_paint_tile8_upto(p0, width, x0, y0, tile, gfx, palette, n + 1);
    assert(after.len() == p0.len());
    assert forall|i: int| 0 <= i < p0.len() implies after[i] == target[i] by {
        lemma_byte_decomp(width, height, i);
        let px = (i / 4) % width;
        let py = (i / 4) / width;
        let k = i % 4;
        lemma_base_decomp(width, height, x0 + x, y0 + y, k);
        if px == x0 + x && py == y0 + y {
            assert(i == pix_base(width, x0 + x, y0 + y) + k);
        } else {
            assert(!(pix_base(width, x0 + x, y0 + y) <= i < pix_base(width, x0 + x, y0 + y)
                + 4)) by {
                if pix_base(width, x0 + x, y0 + y) <= i < pix_base(width, x0 + x, y0 + y) + 4 {
                    lemma_base_decomp(width, height, x0 + x, y0 + y, i - pix_base(
                        width,
                        x0 + x,
                        y0 + y,
                    ));
                }
            }
        }
    }
    assert(after =~= target);
}

/// A transparent texel leaves the buffer at the next paint step unchanged.
proof fn lemma_paint_tile8_skip(
    p0: Seq<u8>,
    width: int,
    x0: int,
    y0: int,
    tile: Tile8x8,
    gfx: Seq<u8>,
    palette: Seq<Color>,
    x: int,
    y: int,
)
    requires
        0 <= x < 8,
        0 <= y < 8,
        spec_tile8_src(tile, gfx, x, y) == 0,
    ensures
        spec_paint_tile8_upto(p0, width, x0, y0, tile, gfx, palette, y * 8 + x) == spec_paint_tile8_upto(
            p0,
            width,
            x0,
            y0,
            tile,
            gfx,
            palette,
            y * 8 + x + 1,
        ),
{
    let n = y * 8 + x;
    let a = spec_paint_tile8_upto(p0, width, x0, y0, tile, gfx, palette, n);
    let b = spec_paint_tile8_upto(p0, width, x0, y0, tile, gfx, palette, n + 1);
    assert forall|i: int| 0 <= i < p0.len() implies a[i] == b[i] by {
        let px = (i / 4) % width;
        let py = (i / 4) / width;
        let lx = px - x0;
        let ly = py - y0;
        if 0 <= lx < 8 && 0 <= ly < 8 && ly * 8 + lx == n {
            assert(lx == x && ly == y);
        }
    }
    assert(a =~= b);
}

/// Paint a 16x16 composite tile: four 8x8 quadrant paints.
pub fn render_tile_16x16(
    image: &mut Image,
    x0: usize,
    y0: usize,
    tile: Tile16x16,
    tileset: &SCETileset,
)
    requires
        old(image).wf(),
        x0 + 16 <= old(image).width,
        y0 + 16 <= old(image).height,
        tileset.wf(),
        spec_tile16_refs_ok(tile, tileset.gfx@.len() as int),
    ensures
        final(image).wf(),
        final(image).width == old(image).width,
        final(image).height == old(image).height,
        final(image).pixels@ == spec_paint_tile16(
            old(image).pixels@,
            old(image).width as int,
            x0 as int,
            y0 as int,
            tile,
            *tileset,
        ),
{
    render_tile_8x8(image, x0, y0, tile.top_left, tileset);
    render_tile_8x8(image, x0 + 8, y0, tile.top_right, tileset);
    render_tile_8x8(image, x0, y0 + 8, tile.bottom_left, tileset);
    render_tile_8x8(image, x0 + 8, y0 + 8, tile.bottom_right, tileset);
}

/// The colors of a palette file: one RGB555 little-endian word per color.
pub open spec fn spec_palette_of(bytes: Seq<u8>) -> Seq<Color> {
    Seq::new(
        (bytes.len() / 2) as nat,
        |i: int| spec_decode_color(spec_word_le(bytes[2 * i], bytes[2 * i + 1])),
    )
}

/// How a decoded bitmap list relates to a graphics file: one bitmap per
/// 32-byte record.
pub open spec fn spec_gfx_matches(bytes: Seq<u8>, gfx: Seq<Gfx8x8>) -> bool {
    &&& gfx.len() == bytes.len() / 32
    &&& forall|k: int|
        0 <= k < gfx.len() ==> (#[trigger] gfx[k]).px@ == spec_decode_8x8(
            bytes.subrange(32 * k, 32 * k + 32),
        )
}

/// How a decoded composite tile list relates to a tile table file: one tile
/// per 8-byte record.
pub open spec fn spec_ttb_matches(bytes: Seq<u8>, tiles: Seq<Tile16x16>) -> bool {
    &&& tiles.len() == bytes.len() / 8
    &&& forall|k: int|
        0 <= k < tiles.len() ==> #[trigger] tiles[k] == spec_decode_16x16_tile(
            bytes.subrange(8 * k, 8 * k + 8),
        )
}

/// Decode a palette file: concatenated 2-byte little-endian RGB555 words.
/// Fails when the file is not a whole number of words.
pub fn decode_palette(bytes: &[u8]) -> (r: Result<Vec<Color>, Error>)
    ensures
        r is Ok <==> bytes@.len() % 2 == 0,
        r matches Ok(v) ==> v@ == spec_palette_of(bytes@),
        r matches Err(e) ==> e == Error::UnsupportedAssetShape,
{
    if bytes.len() % 2 != 0 {
        return Err(Error::UnsupportedAssetShape);
    }
    let n = bytes.len() / 2;
    let mut palette: Vec<Color> = Vec::new();
    let mut k: usize = 0;
    while k < n
        invariant
            k <= n,
            n == bytes@.len() / 2,
            bytes@.len() % 2 == 0,
            bytes@.len() <= usize::MAX,
            palette@.len() == k,
            forall|j: int|
                0 <= j < k ==> #[trigger] palette@[j] == spec_decode_color(
                    spec_word_le(bytes@[2 * j], bytes@[2 * j + 1]),
                ),
        decreases n - k,
    {
        proof {
            lemma_fundamental_div_mod(bytes@.len() as int, 2);
        }
        let data = (bytes[2 * k] as u16) | ((bytes[2 * k + 1] as u16) << 8);
        let color = decode_color(data);
        palette.push(color);
        k = k + 1;
    }
    proof {
        assert(palette@ =~= spec_palette_of(bytes@));
    }
    Ok(palette)
}

/// Decode an 8x8 graphics file: concatenated 32-byte planar records.  Fails
/// when the file is not a whole number of records.
pub fn decode_gfx(bytes: &[u8]) -> (r: Result<Vec<Gfx8x8>, Error>)
    ensures
        r is Ok <==> bytes@.len() % 32 == 0,
        r matches Ok(v) ==> spec_gfx_matches(bytes@, v@) && forall|k: int|
            0 <= k < v@.len() ==> (#[trigger] v@[k]).wf(),
        r matches Err(e) ==> e == Error::UnsupportedAssetShape,
{
    if bytes.len() % 32 != 0 {
        return Err(Error::UnsupportedAssetShape);
    }
    let n = bytes.len() / 32;
    let mut gfx: Vec<Gfx8x8> = Vec::new();
    let mut k: usize = 0;
    while k < n
        invariant
            k <= n,
            n == bytes@.len() / 32,
            bytes@.len() % 32 == 0,
            bytes@.len() <= usize::MAX,
            gfx@.len() == k,
            forall|j: int|
                0 <= j < k ==> (#[trigger] gfx@[j]).px@ == spec_decode_8x8(
                    bytes@.subrange(32 * j, 32 * j + 32),
                ),
            forall|j: int| 0 <= j < k ==> (#[trigger] gfx@[j]).wf(),
        decreases n - k,
    {
        proof {
            lemma_fundamental_div_mod(bytes@.len() as int, 32);
        }
        let chunk = vstd::slice::slice_subrange(bytes, 32 * k, 32 * k + 32);
        let tile = decode_8x8_tile_data_4bpp(chunk);
        proof {
            assert(chunk@.take(32) =~= bytes@.subrange(32 * k as int, 32 * k as int + 32));
        }
        gfx.push(tile);
        k = k + 1;
    }
    Ok(gfx)
}

/// Decode a 16x16 tile table file: concatenated 8-byte records.  Fails when
/// the file is not a whole number of records.
pub fn decode_ttb(bytes: &[u8]) -> (r: Result<Vec<Tile16x16>, Error>)
    ensures
        r is Ok <==> bytes@.len() % 8 == 0,
        r matches Ok(v) ==> spec_ttb_matches(bytes@, v@) && forall|k: int|
            0 <= k < v@.len() ==> spec_tile16_refs_ok(#[trigger] v@[k], 1024),
        r matches Err(e) ==> e == Error::UnsupportedAssetShape,
{
    if bytes.len() % 8 != 0 {
        return Err(Error::UnsupportedAssetShape);
    }
    let n = bytes.len() / 8;
    let mut tiles: Vec<Tile16x16> = Vec::new();
    let mut k: usize = 0;
    while k < n
        invariant
            k <= n,
            n == bytes@.len() / 8,
            bytes@.len() % 8 == 0,
            bytes@.len() <= usize::MAX,
            tiles@.len() == k,
            forall|j: int|
                0 <= j < k ==> #[trigger] tiles@[j] == spec_decode_16x16_tile(
                    bytes@.subrange(8 * j, 8 * j + 8),
                ),
            forall|j: int| 0 <= j < k ==> spec_tile16_refs_ok(#[trigger] tiles@[j], 1024),
        decreases n - k,
    {
        proof {
            lemma_fundamental_div_mod(bytes@.len() as int, 8);
        }
        let chunk = vstd::slice::slice_subrange(bytes, 8 * k, 8 * k + 8);
        let tile = decode_16x16_tile(chunk);
        proof {
            let d = bytes@.subrange(8 * k as int, 8 * k as int + 8);
            crate::tile::lemma_decode_8x8_tile_bounds(spec_word_le(d[0], d[1]));
            crate::tile::lemma_decode_8x8_tile_bounds(spec_word_le(d[2], d[3]));
            crate::tile::lemma_decode_8x8_tile_bounds(spec_word_le(d[4], d[5]));
            crate::tile::lemma_decode_8x8_tile_bounds(spec_word_le(d[6], d[7]));
        }
        tiles.push(tile);
        k = k + 1;
    }
    Ok(tiles)
}

/// `a`, a separator, then `b`: how one path level is joined to the next.
fn path_join(a: &[u8], b: &[u8]) -> (r: Vec<u8>)
    ensures
        r@ == a@ + seq![crate::file_system::SLASH_BYTE] + b@,
{
    let mut r: Vec<u8> = Vec::new();
    let mut i: usize = 0;
    while i < a.len()
        invariant
            i <= a@.len(),
            r@ =~= a@.take(i as int),
        decreases a@.len() - i,
    {
        r.push(a[i]);
        i = i + 1;
    }
    r.push(crate::file_system::SLASH_BYTE);
    let mut j: usize = 0;
    while j < b.len()
        invariant
            j <= b@.len(),
            r@ =~= a@ + seq![crate::file_system::SLASH_BYTE] + b@.take(j as int),
        decreases b@.len() - j,
    {
        r.push(b[j]);
        j = j + 1;
    }
    proof {
        assert(r@ =~= a@ + seq![crate::file_system::SLASH_BYTE] + b@);
    }
    r
}

/// Load and decode a palette file through a filesystem provider.
pub fn load_palette<T: FileSystem>(palette_path: &[u8], file_system: &T) -> (r: Result<
    Vec<Color>,
    Error,
>)
    ensures
        r matches Ok(v) ==> exists|b: Seq<u8>|
            b.len() % 2 == 0 && v@ == #[trigger] spec_palette_of(b),
{
    match file_system.load(palette_path) {
        Ok(bytes) => {
            let r = decode_palette(bytes.as_slice());
            proof {
                if r is Ok {
                    assert(bytes@.len() % 2 == 0 && r->Ok_0@ == spec_palette_of(bytes@));
                }
            }
            r
        },
        Err(e) => Err(e),
    }
}

/// Load and decode an 8x8 graphics file through a filesystem provider.
pub fn load_8x8_gfx<T: FileSystem>(gfx8x8_path: &[u8], file_system: &T) -> (r: Result<
    Vec<Gfx8x8>,
    Error,
>)
    ensures
        r matches Ok(v) ==> (forall|k: int| 0 <= k < v@.len() ==> (#[trigger] v@[k]).wf())
            && exists|b: Seq<u8>| spec_gfx_matches(b, v@),
{
    match file_system.load(gfx8x8_path) {
        Ok(bytes) => {
            let r = decode_gfx(bytes.as_slice());
            proof {
                if r is Ok {
                    assert(spec_gfx_matches(bytes@, r->Ok_0@));
                }
            }
            r
        },
        Err(e) => Err(e),
    }
}

/// Load and decode a 16x16 tile table file through a filesystem provider.
pub fn load_16x16_gfx<T: FileSystem>(gfx16x16_path: &[u8], file_system: &T) -> (r: Result<
    Vec<Tile16x16>,
    Error,
>)
    ensures
        r matches Ok(v) ==> (forall|k: int|
            0 <= k < v@.len() ==> spec_tile16_refs_ok(#[trigger] v@[k], 1024)) && exists|b: Seq<u8>|
            spec_ttb_matches(b, v@),
{
    match file_system.load(gfx16x16_path) {
        Ok(bytes) => {
            let r = decode_ttb(bytes.as_slice());
            proof {
                if r is Ok {
                    assert(spec_ttb_matches(bytes@, r->Ok_0@));
                }
            }
            r
        },
        Err(e) => Err(e),
    }
}

impl CRETileset {
    /// Every bitmap is well-formed and every composite tile's references
    /// stay below the 10-bit index space.
    pub open spec fn wf(&self) -> bool {
        &&& forall|g: int| 0 <= g < self.gfx@.len() ==> (#[trigger] self.gfx@[g]).wf()
        &&& forall|t: int| 0 <= t < self.tiles@.len() ==> spec_tile16_refs_ok(#[trigger] self.tiles@[t], 1024)
    }
}

/// Load the common tileset: its bitmaps and composite tiles, no palette.
pub fn load_cre_tileset<T: FileSystem>(tileset_path: &[u8], file_system: &T) -> (r: Result<
    CRETileset,
    Error,
>)
    ensures
        r matches Ok(ts) ==> ts.wf(),
{
    let gfx_path = path_join(tileset_path, "8x8tiles.gfx".as_bytes());
    let gfx = match load_8x8_gfx(gfx_path.as_slice(), file_system) {
        Ok(v) => v,
        Err(e) => {
            return Err(e);
        },
    };
    let ttb_path = path_join(tileset_path, "16x16tiles.ttb".as_bytes());
    let tiles = match load_16x16_gfx(ttb_path.as_slice(), file_system) {
        Ok(v) => v,
        Err(e) => {
            return Err(e);
        },
    };
    Ok(CRETileset { gfx, tiles })
}

/// Copy one bitmap.
fn copy_gfx(g: &Gfx8x8) -> (r: Gfx8x8)
    ensures
        r.px@ == g.px@,
{
    let mut px: Vec<u8> = Vec::new();
    let mut i: usize = 0;
    while i < g.px.len()
        invariant
            i <= g.px@.len(),
            px@ =~= g.px@.take(i as int),
        decreases g.px@.len() - i,
    {
        px.push(g.px[i]);
        i = i + 1;
    }
    proof {
        assert(g.px@.take(g.px@.len() as int) =~= g.px@);
    }
    Gfx8x8 { px }
}

/// Load one state's tileset and merge the common tileset into it: the
/// state's bitmaps come first with the common bitmaps appended after them,
/// while the common composite tiles come first with the state's appended
/// after them, as the tile index spaces expect.
pub fn load_sce_tileset<T: FileSystem>(
    tileset_path: &[u8],
    cre_tileset: &CRETileset,
    file_system: &T,
) -> (r: Result<SCETileset, Error>)
    requires
        cre_tileset.wf(),
    ensures
        r matches Ok(ts) ==> ({
            let nsce = ts.gfx@.len() - cre_tileset.gfx@.len();
            &&& ts.gfx@.len() >= cre_tileset.gfx@.len()
            &&& forall|g: int| 0 <= g < ts.gfx@.len() ==> (#[trigger] ts.gfx@[g]).wf()
            &&& forall|g: int|
                nsce <= g < ts.gfx@.len() ==> (#[trigger] ts.gfx@[g]).px@ == cre_tileset.gfx@[g
                    - nsce].px@
            &&& ts.tiles@.len() >= cre_tileset.tiles@.len()
            &&& ts.tiles@.take(cre_tileset.tiles@.len() as int) == cre_tileset.tiles@
            &&& forall|t: int|
                0 <= t < ts.tiles@.len() ==> spec_tile16_refs_ok(#[trigger] ts.tiles@[t], 1024)
            &&& exists|b: Seq<u8>| b.len() % 2 == 0 && ts.palette@ == #[trigger] spec_palette_of(b)
            &&& exists|b: Seq<u8>| spec_gfx_matches(b, ts.gfx@.take(nsce as int))
            &&& exists|b: Seq<u8>| spec_ttb_matches(b, ts.tiles@.skip(cre_tileset.tiles@.len() as int))
        }),
{
    let palette_path = path_join(tileset_path, "palette.snes".as_bytes());
    let palette = match load_palette(palette_path.as_slice(), file_system) {
        Ok(v) => v,
        Err(e) => {
            return Err(e);
        },
    };
    let gfx_path = path_join(tileset_path, "8x8tiles.gfx".as_bytes());
    let mut gfx = match load_8x8_gfx(gfx_path.as_slice(), file_system) {
        Ok(v) => v,
        Err(e) => {
            return Err(e);
        },
    };
    let ttb_path = path_join(tileset_path, "16x16tiles.ttb".as_bytes());
    let sce_tiles = match load_16x16_gfx(ttb_path.as_slice(), file_system) {
        Ok(v) => v,
        Err(e) => {
            return Err(e);
        },
    };
    let ghost sce_gfx = gfx@;
    let ghost sce_len = gfx@.len();
    // Append the common bitmaps after the state's own.
    let mut i: usize = 0;
    while i < cre_tileset.gfx.len()
        invariant
            i <= cre_tileset.gfx@.len(),
            gfx@.len() == sce_len + i,
            gfx@.take(sce_len as int) == sce_gfx,
            forall|g: int| 0 <= g < sce_len ==> (#[trigger] gfx@[g]).wf(),
            forall|g: int|
                sce_len <= g < gfx@.len() ==> (#[trigger] gfx@[g]).px@ == cre_tileset.gfx@[g
                    - sce_len].px@,
            forall|g: int| sce_len <= g < gfx@.len() ==> (#[trigger] gfx@[g]).wf(),
            cre_tileset.wf(),
            forall|g: int| 0 <= g < sce_gfx.len() ==> (#[trigger] sce_gfx[g]).wf(),
        decreases cre_tileset.gfx@.len() - i,
    {
        let copied = copy_gfx(&cre_tileset.gfx[i]);
        proof {
            assert(cre_tileset.gfx@[i as int].wf());
            assert(copied.wf());
            assert((gfx@.push(copied)).take(sce_len as int) =~= gfx@.take(sce_len as int));
        }
        gfx.push(copied);
        i = i + 1;
    }
    // The common composite tiles come first, the state's after them.
    let mut tiles: Vec<Tile16x16> = Vec::new();
    let mut j: usize = 0;
    while j < cre_tileset.tiles.len()
        invariant
            j <= cre_tileset.tiles@.len(),
            tiles@ =~= cre_tileset.tiles@.take(j as int),
        decreases cre_tileset.tiles@.len() - j,
    {
        tiles.push(cre_tileset.tiles[j]);
        j = j + 1;
    }
    proof {
        assert(tiles@ =~= cre_tileset.tiles@);
    }
    let ghost cre_len = tiles@.len();
    let mut k: usize = 0;
    while k < sce_tiles.len()
        invariant
            k <= sce_tiles@.len(),
            tiles@.len() == cre_len + k,
            tiles@.take(cre_len as int) == cre_tileset.tiles@,
            cre_len == cre_tileset.tiles@.len(),
            tiles@.skip(cre_len as int) =~= sce_tiles@.take(k as int),
        decreases sce_tiles@.len() - k,
    {
        proof {
            assert((tiles@.push(sce_tiles@[k as int])).take(cre_len as int) =~= tiles@.take(
                cre_len as int,
            ));
            assert((tiles@.push(sce_tiles@[k as int])).skip(cre_len as int) =~= tiles@.skip(
                cre_len as int,
            ).push(sce_tiles@[k as int]));
            assert(sce_tiles@.take(k as int).push(sce_tiles@[k as int]) =~= sce_tiles@.take(
                k as int + 1,
            ));
        }
        tiles.push(sce_tiles[k]);
        k = k + 1;
    }
    let ts = SCETileset { palette, gfx, tiles };
    proof {
        assert(ts.tiles@.skip(cre_len as int) =~= sce_tiles@.take(sce_tiles@.len() as int));
        assert(sce_tiles@.take(sce_tiles@.len() as int) =~= sce_tiles@);
        assert(ts.tiles@.skip(cre_len as int) == sce_tiles@);
        assert(ts.gfx@.take(sce_len as int) == sce_gfx);
        assert forall|t: int| 0 <= t < ts.tiles@.len() implies spec_tile16_refs_ok(
            #[trigger] ts.tiles@[t],
            1024,
        ) by {
            if t < cre_len {
                assert(ts.tiles@[t] == ts.tiles@.take(cre_len as int)[t]);
            } else {
                assert(ts.tiles@[t] == ts.tiles@.skip(cre_len as int)[t - cre_len]);
            }
        }
    }
    Ok(ts)
}

/// An 8x8 tile reference with its horizontal flip inverted.
pub open spec fn spec_apply_flip8x(t: Tile8x8) -> Tile8x8 {
    Tile8x8 {
        idx: t.idx,
        palette: t.palette,
        flip_x: !t.flip_x,
        flip_y: t.flip_y,
        _priority: t._priority,
    }
}

/// An 8x8 tile reference with its vertical flip inverted.
pub open spec fn spec_apply_flip8y(t: Tile8x8) -> Tile8x8 {
    Tile8x8 {
        idx: t.idx,
        palette: t.palette,
        flip_x: t.flip_x,
        flip_y: !t.flip_y,
        _priority: t._priority,
    }
}

/// A screen-level flip applied on top of a composite tile's own quadrant
/// flips: a horizontal flip swaps the left and right quadrant pairs and
/// inverts each quadrant's own horizontal flip; a vertical flip does the
/// same for top and bottom.
pub open spec fn spec_apply_screen_flip(t: Tile16x16, fx: bool, fy: bool) -> Tile16x16 {
    let t1 = if fx {
        Tile16x16 {
            top_left: spec_apply_flip8x(t.top_right),
            top_right: spec_apply_flip8x(t.top_left),
            bottom_left: spec_apply_flip8x(t.bottom_right),
            bottom_right: spec_apply_flip8x(t.bottom_left),
        }
    } else {
        t
    };
    if fy {
        Tile16x16 {
            top_left: spec_apply_flip8y(t1.bottom_left),
            top_right: spec_apply_flip8y(t1.bottom_right),
            bottom_left: spec_apply_flip8y(t1.top_left),
            bottom_right: spec_apply_flip8y(t1.top_right),
        }
    } else {
        t1
    }
}

/// Apply a screen-level flip to a composite tile.
pub fn apply_screen_flip(t: Tile16x16, fx: bool, fy: bool) -> (r: Tile16x16)
    ensures
        r == spec_apply_screen_flip(t, fx, fy),
{
    let mut tile = t;
    if fx {
        tile = Tile16x16 {
            top_left: Tile8x8 { flip_x: !tile.top_right.flip_x, ..tile.top_right },
            top_right: Tile8x8 { flip_x: !tile.top_left.flip_x, ..tile.top_left },
            bottom_left: Tile8x8 { flip_x: !tile.bottom_right.flip_x, ..tile.bottom_right },
            bottom_right: Tile8x8 { flip_x: !tile.bottom_left.flip_x, ..tile.bottom_left },
        };
    }
    if fy {
        tile = Tile16x16 {
            top_left: Tile8x8 { flip_y: !tile.bottom_left.flip_y, ..tile.bottom_left },
            top_right: Tile8x8 { flip_y: !tile.bottom_right.flip_y, ..tile.bottom_right },
            bottom_left: Tile8x8 { flip_y: !tile.top_left.flip_y, ..tile.top_left },
            bottom_right: Tile8x8 { flip_y: !tile.top_right.flip_y, ..tile.top_right },
        };
    }
    tile
}

/// A screen-level flip keeps every quadrant's bitmap index and palette bank.
proof fn lemma_flip_refs_ok(t: Tile16x16, fx: bool, fy: bool, ngfx: int)
    requires
        spec_tile16_refs_ok(t, ngfx),
    ensures
        spec_tile16_refs_ok(spec_apply_screen_flip(t, fx, fy), ngfx),
{
}

/// The composite tile a screen word selects: its low 10 bits index the tile
/// table, bits 10 and 11 add a screen-level flip.
pub open spec fn spec_screen_word_tile(ts: SCETileset, w: u16) -> Tile16x16 {
    spec_apply_screen_flip(ts.tiles@[(w & 0x3FF) as int], (w & 0x400) != 0, (w & 0x800) != 0)
}

/// The buffer after painting word `i` of a screen: the selected composite
/// tile at column `i % 16`, row `i / 16` of the screen's grid position.
pub open spec fn spec_paint_screen_word(
    p: Seq<u8>,
    width: int,
    s: Screen,
    i: int,
    ts: SCETileset,
) -> Seq<u8> {
    spec_paint_tile16(
        p,
        width,
        ((i % 16) + s.x * 16) * 16,
        ((i / 16) + s.y * 16) * 16,
        spec_screen_word_tile(ts, s.data@[i]),
        ts,
    )
}

/// The buffer after painting the first `n` words of a screen, in order.
pub open spec fn spec_paint_screen_words(
    p: Seq<u8>,
    width: int,
    s: Screen,
    n: int,
    ts: SCETileset,
) -> Seq<u8>
    decreases n,
{
    if n <= 0 {
        p
    } else {
        spec_paint_screen_word(spec_paint_screen_words(p, width, s, n - 1, ts), width, s, n - 1, ts)
    }
}

/// The buffer after painting the first `n` screens of a layer, in order.
pub open spec fn spec_paint_screens(
    p: Seq<u8>,
    width: int,
    screens: Seq<Screen>,
    n: int,
    ts: SCETileset,
) -> Seq<u8>
    decreases n,
{
    if n <= 0 {
        p
    } else {
        spec_paint_screen_words(
            spec_paint_screens(p, width, screens, n - 1, ts),
            width,
            screens[n - 1],
            screens[n - 1].data@.len() as int,
            ts,
        )
    }
}

/// Whether word `i` of a screen names a tile inside the table and lands its
/// 16x16 pixels inside a `width` by `height` raster.
pub open spec fn spec_screen_word_fits(
    s: Screen,
    i: int,
    width: int,
    height: int,
    ntiles: int,
) -> bool {
    &&& (s.data@[i] & 0x3FF) < ntiles
    &&& (((i % 16) + s.x * 16) + 1) * 16 <= width
    &&& (((i / 16) + s.y * 16) + 1) * 16 <= height
}

/// Whether every word of a screen fits.
pub open spec fn spec_screen_fits(s: Screen, width: int, height: int, ntiles: int) -> bool {
    forall|i: int| 0 <= i < s.data@.len() ==> spec_screen_word_fits(s, i, width, height, ntiles)
}

/// Whether every screen of a layer fits.
pub open spec fn spec_screens_fit(
    screens: Seq<Screen>,
    width: int,
    height: int,
    ntiles: int,
) -> bool {
    forall|k: int|
        0 <= k < screens.len() ==> spec_screen_fits(#[trigger] screens[k], width, height, ntiles)
}

/// Paint a layer's screen-grid tiles: each screen's 16x16-tile grid at its
/// grid position, word by word, later paints overwriting earlier ones.
pub fn render_screens(screens: &[Screen], image: &mut Image, tileset: &SCETileset)
    requires
        old(image).wf(),
        tileset.wf(),
        spec_screens_fit(
            screens@,
            old(image).width as int,
            old(image).height as int,
            tileset.tiles@.len() as int,
        ),
    ensures
        final(image).wf(),
        final(image).width == old(image).width,
        final(image).height == old(image).height,
        final(image).pixels@ == spec_paint_screens(
            old(image).pixels@,
            old(image).width as int,
            screens@,
            screens@.len() as int,
            *tileset,
        ),
{
    let ghost p0 = image.pixels@;
    let ghost w = image.width as int;
    let ghost h = image.height as int;
    let mut k: usize = 0;
    while k < screens.len()
        invariant
            k <= screens@.len(),
            image.wf(),
            image.width == old(image).width,
            image.height == old(image).height,
            w == image.width as int,
            h == image.height as int,
            tileset.wf(),
            spec_screens_fit(screens@, w, h, tileset.tiles@.len() as int),
            image.pixels@ == spec_paint_screens(p0, w, screens@, k as int, *tileset),
        decreases screens@.len() - k,
    {
        let screen = &screens[k];
        let ghost pk = image.pixels@;
        let mut i: usize = 0;
        while i < screen.data.len()
            invariant
                i <= screen.data@.len(),
                image.wf(),
                image.width == old(image).width,
                image.height == old(image).height,
                w == image.width as int,
                h == image.height as int,
                tileset.wf(),
                *screen == screens@[k as int],
                k < screens@.len(),
                spec_screens_fit(screens@, w, h, tileset.tiles@.len() as int),
                image.pixels@ == spec_paint_screen_words(pk, w, *screen, i as int, *tileset),
            decreases screen.data@.len() - i,
        {
            proof {
                assert(spec_screen_fits(screens@[k as int], w, h, tileset.tiles@.len() as int));
                assert(spec_screen_word_fits(
                    *screen,
                    i as int,
                    w,
                    h,
                    tileset.tiles@.len() as int,
                ));
            }
            let word = screen.data[i];
            let tile_idx = (word & 0x3FF) as usize;
            let tile_flip_x = (word & 0x400) != 0;
            let tile_flip_y = (word & 0x800) != 0;
            let tile = apply_screen_flip(tileset.tiles[tile_idx], tile_flip_x, tile_flip_y);
            proof {
                lemma_flip_refs_ok(
                    tileset.tiles@[tile_idx as int],
                    tile_flip_x,
                    tile_flip_y,
                    tileset.gfx@.len() as int,
                );
            }
            let x = (i % 16) + screen.x * 16;
            let y = (i / 16) + screen.y * 16;
            render_tile_16x16(image, x * 16, y * 16, tile, tileset);
            i = i + 1;
        }
        proof {
            assert(image.pixels@ == spec_paint_screens(p0, w, screens@, k as int + 1, *tileset));
        }
        k = k + 1;
    }
}

/// The label of the background blocks that contribute tile words.
pub open spec fn spec_decomp_label() -> Seq<char> {
    "DECOMP"@
}

/// The buffer after painting the first `n` words of a 1024-word background
/// block into the 256x256 region at screen cell `(sx, sy)`: word `i` is an
/// 8x8 tile at column `i % 32`, row `i / 32`.
pub open spec fn spec_paint_bg1_tiles(
    p: Seq<u8>,
    width: int,
    words: Seq<u32>,
    sx: int,
    sy: int,
    n: int,
    ts: SCETileset,
) -> Seq<u8>
    decreases n,
{
    if n <= 0 {
        p
    } else {
        spec_paint_tile8_ts(
            spec_paint_bg1_tiles(p, width, words, sx, sy, n - 1, ts),
            width,
            sx * 256 + ((n - 1) % 32) * 8,
            sy * 256 + ((n - 1) / 32) * 8,
            spec_decode_8x8_tile(words[n - 1] as u16),
            ts,
        )
    }
}

/// The block tiled across the first `nx` 256-pixel columns of row `sy`.
pub open spec fn spec_paint_bg1_cols(
    p: Seq<u8>,
    width: int,
    words: Seq<u32>,
    sy: int,
    nx: int,
    ts: SCETileset,
) -> Seq<u8>
    decreases nx,
{
    if nx <= 0 {
        p
    } else {
        spec_paint_bg1_tiles(
            spec_paint_bg1_cols(p, width, words, sy, nx - 1, ts),
            width,
            words,
            nx - 1,
            sy,
            1024,
            ts,
        )
    }
}

/// The block tiled across the first `ny` 256-pixel rows.
pub open spec fn spec_paint_bg1_rows(
    p: Seq<u8>,
    width: int,
    words: Seq<u32>,
    ny: int,
    nx: int,
    ts: SCETileset,
) -> Seq<u8>
    decreases ny,
{
    if ny <= 0 {
        p
    } else {
        spec_paint_bg1_cols(spec_paint_bg1_rows(p, width, words, ny - 1, nx, ts), width, words, ny
            - 1, nx, ts)
    }
}

/// The pixel column of word `i` of a 2048-word double-screen block at
/// double-screen cell `sx2`: the first 1024 words fill the left half, the
/// rest the right half.
pub open spec fn spec_bg2_x(sx2: int, i: int) -> int {
    if i < 1024 {
        sx2 * 512 + (i % 32) * 8
    } else {
        sx2 * 512 + 256 + (i % 32) * 8
    }
}

/// The pixel row of word `i` of a 2048-word double-screen block.
pub open spec fn spec_bg2_y(sy: int, i: int) -> int {
    if i < 1024 {
        sy * 256 + (i / 32) * 8
    } else {
        sy * 256 + ((i - 1024) / 32) * 8
    }
}

/// The buffer after painting the first `n` words of a 2048-word block.
pub open spec fn spec_paint_bg2_tiles(
    p: Seq<u8>,
    width: int,
    words: Seq<u32>,
    sx2: int,
    sy: int,
    n: int,
    ts: SCETileset,
) -> Seq<u8>
    decreases n,
{
    if n <= 0 {
        p
    } else {
        spec_paint_tile8_ts(
            spec_paint_bg2_tiles(p, width, words, sx2, sy, n - 1, ts),
            width,
            spec_bg2_x(sx2, n - 1),
            spec_bg2_y(sy, n - 1),
            spec_decode_8x8_tile(words[n - 1] as u16),
            ts,
        )
    }
}

/// The double-screen block tiled across the first `nx2` 512-pixel columns.
pub open spec fn spec_paint_bg2_cols(
    p: Seq<u8>,
    width: int,
    words: Seq<u32>,
    sy: int,
    nx2: int,
    ts: SCETileset,
) -> Seq<u8>
    decreases nx2,
{
    if nx2 <= 0 {
        p
    } else {
        spec_paint_bg2_tiles(
            spec_paint_bg2_cols(p, width, words, sy, nx2 - 1, ts),
            width,
            words,
            nx2 - 1,
            sy,
            2048,
            ts,
        )
    }
}

/// The double-screen block tiled across the first `ny` 256-pixel rows.
pub open spec fn spec_paint_bg2_rows(
    p: Seq<u8>,
    width: int,
    words: Seq<u32>,
    ny: int,
    nx2: int,
    ts: SCETileset,
) -> Seq<u8>
    decreases ny,
{
    if ny <= 0 {
        p
    } else {
        spec_paint_bg2_cols(spec_paint_bg2_rows(p, width, words, ny - 1, nx2, ts), width, words, ny
            - 1, nx2, ts)
    }
}

/// The buffer after one background block: only `DECOMP` blocks of exactly
/// 1024 or 2048 words paint; any other block leaves the buffer unchanged.
pub open spec fn spec_paint_bg_block(
    p: Seq<u8>,
    width: int,
    height: int,
    block: BGDataData,
    ts: SCETileset,
) -> Seq<u8> {
    if block.type_@ == spec_decomp_label() {
        if block.source@.len() == 1024 {
            spec_paint_bg1_rows(p, width, block.source@, height / 256, width / 256, ts)
        } else if block.source@.len() == 2048 {
            spec_paint_bg2_rows(p, width, block.source@, height / 256, width / 512, ts)
        } else {
            p
        }
    } else {
        p
    }
}

/// The buffer after the first `n` background blocks, in order.
pub open spec fn spec_paint_bgdata(
    p: Seq<u8>,
    width: int,
    height: int,
    blocks: Seq<BGDataData>,
    n: int,
    ts: SCETileset,
) -> Seq<u8>
    decreases n,
{
    if n <= 0 {
        p
    } else {
        spec_paint_bg_block(
            spec_paint_bgdata(p, width, height, blocks, n - 1, ts),
            width,
            height,
            blocks[n - 1],
            ts,
        )
    }
}

/// Whether a background block's words all name bitmaps inside the tileset,
/// for blocks that paint at all.
pub open spec fn spec_bg_block_fits(block: BGDataData, ngfx: int) -> bool {
    (block.type_@ == spec_decomp_label() && (block.source@.len() == 1024 || block.source@.len()
        == 2048)) ==> forall|i: int|
        0 <= i < block.source@.len() ==> ((#[trigger] block.source@[i]) as u16 & 0x3FF) < ngfx
}

/// Whether every background block fits.
pub open spec fn spec_bgdata_fits(blocks: Seq<BGDataData>, ngfx: int) -> bool {
    forall|d: int| 0 <= d < blocks.len() ==> spec_bg_block_fits(#[trigger] blocks[d], ngfx)
}

/// Paint a 1024-word block across every 256x256 region of the image.
fn render_bg_block_1024(words: &Vec<u32>, image: &mut Image, tileset: &SCETileset)
    requires
        old(image).wf(),
        tileset.wf(),
        words@.len() == 1024,
        forall|i: int| 0 <= i < 1024 ==> ((#[trigger] words@[i]) as u16 & 0x3FF)
            < tileset.gfx@.len(),
    ensures
        final(image).wf(),
        final(image).width == old(image).width,
        final(image).height == old(image).height,
        final(image).pixels@ == spec_paint_bg1_rows(
            old(image).pixels@,
            old(image).width as int,
            words@,
            old(image).height as int / 256,
            old(image).width as int / 256,
            *tileset,
        ),
{
    let ghost p0 = image.pixels@;
    let ghost w = image.width as int;
    let ghost h = image.height as int;
    let ny = image.height / 256;
    let nx = image.width / 256;
    proof {
        lemma_fundamental_div_mod(w, 256);
        lemma_fundamental_div_mod(h, 256);
    }
    let mut sy: usize = 0;
    while sy < ny
        invariant
            sy <= ny,
            image.wf(),
            image.width == old(image).width,
            image.height == old(image).height,
            w == image.width as int,
            h == image.height as int,
            ny == h / 256,
            nx == w / 256,
            256 * ny <= h,
            256 * nx <= w,
            tileset.wf(),
            words@.len() == 1024,
            forall|i: int| 0 <= i < 1024 ==> ((#[trigger] words@[i]) as u16 & 0x3FF)
                < tileset.gfx@.len(),
            image.pixels@ == spec_paint_bg1_rows(p0, w, words@, sy as int, nx as int, *tileset),
        decreases ny - sy,
    {
        let ghost prow = image.pixels@;
        let mut sx: usize = 0;
        while sx < nx
            invariant
                sx <= nx,
                sy < ny,
                image.wf(),
                image.width == old(image).width,
                image.height == old(image).height,
                w == image.width as int,
                h == image.height as int,
                ny == h / 256,
                nx == w / 256,
                256 * ny <= h,
                256 * nx <= w,
                tileset.wf(),
                words@.len() == 1024,
                forall|i: int| 0 <= i < 1024 ==> ((#[trigger] words@[i]) as u16 & 0x3FF)
                    < tileset.gfx@.len(),
                image.pixels@ == spec_paint_bg1_cols(prow, w, words@, sy as int, sx as int, *tileset),
            decreases nx - sx,
        {
            let ghost pcol = image.pixels@;
            let mut i: usize = 0;
            while i < 1024
                invariant
                    i <= 1024,
                    sx < nx,
                    sy < ny,
                    image.wf(),
                    image.width == old(image).width,
                    image.height == old(image).height,
                    w == image.width as int,
                    h == image.height as int,
                    ny == h / 256,
                    nx == w / 256,
                    256 * ny <= h,
                    256 * nx <= w,
                    tileset.wf(),
                    words@.len() == 1024,
                    forall|j: int| 0 <= j < 1024 ==> ((#[trigger] words@[j]) as u16 & 0x3FF)
                        < tileset.gfx@.len(),
                    image.pixels@ == spec_paint_bg1_tiles(
                        pcol,
                        w,
                        words@,
                        sx as int,
                        sy as int,
                        i as int,
                        *tileset,
                    ),
                decreases 1024 - i,
            {
                let tile = decode_8x8_tile(words[i] as u16);
                let x = sx * 256 + (i % 32) * 8;
                let y = sy * 256 + (i / 32) * 8;
                render_tile_8x8(image, x, y, tile, tileset);
                i = i + 1;
            }
            proof {
                assert(image.pixels@ == spec_paint_bg1_cols(
                    prow,
                    w,
                    words@,
                    sy as int,
                    sx as int + 1,
                    *tileset,
                ));
            }
            sx = sx + 1;
        }
        proof {
            assert(image.pixels@ == spec_paint_bg1_rows(
                p0,
                w,
                words@,
                sy as int + 1,
                nx as int,
                *tileset,
            ));
        }
        sy = sy + 1;
    }
}

/// Paint a 2048-word double-screen block across every 512x256 region.
fn render_bg_block_2048(words: &Vec<u32>, image: &mut Image, tileset: &SCETileset)
    requires
        old(image).wf(),
        tileset.wf(),
        words@.len() == 2048,
        forall|i: int| 0 <= i < 2048 ==> ((#[trigger] words@[i]) as u16 & 0x3FF)
            < tileset.gfx@.len(),
    ensures
        final(image).wf(),
        final(image).width == old(image).width,
        final(image).height == old(image).height,
        final(image).pixels@ == spec_paint_bg2_rows(
            old(image).pixels@,
            old(image).width as int,
            words@,
            old(image).height as int / 256,
            old(image).width as int / 512,
            *tileset,
        ),
{
    let ghost p0 = image.pixels@;
    let ghost w = image.width as int;
    let ghost h = image.height as int;
    let ny = image.height / 256;
    let nx2 = image.width / 512;
    proof {
        lemma_fundamental_div_mod(w, 512);
        lemma_fundamental_div_mod(h, 256);
    }
    let mut sy: usize = 0;
    while sy < ny
        invariant
            sy <= ny,
            image.wf(),
            image.width == old(image).width,
            image.height == old(image).height,
            w == image.width as int,
            h == image.height as int,
            ny == h / 256,
            nx2 == w / 512,
            512 * nx2 <= w,
            256 * ny <= h,
            tileset.wf(),
            words@.len() == 2048,
            forall|i: int| 0 <= i < 2048 ==> ((#[trigger] words@[i]) as u16 & 0x3FF)
                < tileset.gfx@.len(),
            image.pixels@ == spec_paint_bg2_rows(p0, w, words@, sy as int, nx2 as int, *tileset),
        decreases ny - sy,
    {
        let ghost prow = image.pixels@;
        let mut sx2: usize = 0;
        while sx2 < nx2
            invariant
                sx2 <= nx2,
                sy < ny,
                image.wf(),
                image.width == old(image).width,
                image.height == old(image).height,
                w == image.width as int,
                h == image.height as int,
                ny == h / 256,
                nx2 == w / 512,
                512 * nx2 <= w,
                256 * ny <= h,
                tileset.wf(),
                words@.len() == 2048,
                forall|i: int| 0 <= i < 2048 ==> ((#[trigger] words@[i]) as u16 & 0x3FF)
                    < tileset.gfx@.len(),
                image.pixels@ == spec_paint_bg2_cols(
                    prow,
                    w,
                    words@,
                    sy as int,
                    sx2 as int,
                    *tileset,
                ),
            decreases nx2 - sx2,
        {
            let ghost pcol = image.pixels@;
            let mut i: usize = 0;
            while i < 2048
                invariant
                    i <= 2048,
                    sx2 < nx2,
                    sy < ny,
                    image.wf(),
                    image.width == old(image).width,
                    image.height == old(image).height,
                    w == image.width as int,
                    h == image.height as int,
                    ny == h / 256,
                    nx2 == w / 512,
                    512 * nx2 <= w,
                    256 * ny <= h,
                    tileset.wf(),
                    words@.len() == 2048,
                    forall|j: int| 0 <= j < 2048 ==> ((#[trigger] words@[j]) as u16 & 0x3FF)
                        < tileset.gfx@.len(),
                    image.pixels@ == spec_paint_bg2_tiles(
                        pcol,
                        w,
                        words@,
                        sx2 as int,
                        sy as int,
                        i as int,
                        *tileset,
                    ),
                decreases 2048 - i,
            {
                let tile = decode_8x8_tile(words[i] as u16);
                let x = if i < 1024 {
                    sx2 * 512 + (i % 32) * 8
                } else {
                    sx2 * 512 + 256 + (i % 32) * 8
                };
                let y = if i < 1024 {
                    sy * 256 + (i / 32) * 8
                } else {
                    sy * 256 + ((i - 1024) / 32) * 8
                };
                proof {
                    assert(x as int == spec_bg2_x(sx2 as int, i as int));
                    assert(y as int == spec_bg2_y(sy as int, i as int));
                }
                render_tile_8x8(image, x, y, tile, tileset);
                i = i + 1;
            }
            proof {
                assert(image.pixels@ == spec_paint_bg2_cols(
                    prow,
                    w,
                    words@,
                    sy as int,
                    sx2 as int + 1,
                    *tileset,
                ));
            }
            sx2 = sx2 + 1;
        }
        proof {
            assert(image.pixels@ == spec_paint_bg2_rows(
                p0,
                w,
                words@,
                sy as int + 1,
                nx2 as int,
                *tileset,
            ));
        }
        sy = sy + 1;
    }
}

/// Paint a background descriptor: each `DECOMP` block of exactly 1024 words
/// tiles one full screen across the image, one of exactly 2048 words tiles a
/// double-wide screen; blocks of any other type or length are skipped.
pub fn render_bgdata(bgdata: &BGData, image: &mut Image, tileset: &SCETileset)
    requires
        old(image).wf(),
        tileset.wf(),
        spec_bgdata_fits(bgdata.data@, tileset.gfx@.len() as int),
    ensures
        final(image).wf(),
        final(image).width == old(image).width,
        final(image).height == old(image).height,
        final(image).pixels@ == spec_paint_bgdata(
            old(image).pixels@,
            old(image).width as int,
            old(image).height as int,
            bgdata.data@,
            bgdata.data@.len() as int,
            *tileset,
        ),
{
    let ghost p0 = image.pixels@;
    let ghost w = image.width as int;
    let ghost h = image.height as int;
    let mut d: usize = 0;
    while d < bgdata.data.len()
        invariant
            d <= bgdata.data@.len(),
            image.wf(),
            image.width == old(image).width,
            image.height == old(image).height,
            w == image.width as int,
            h == image.height as int,
            tileset.wf(),
            spec_bgdata_fits(bgdata.data@, tileset.gfx@.len() as int),
            image.pixels@ == spec_paint_bgdata(p0, w, h, bgdata.data@, d as int, *tileset),
        decreases bgdata.data@.len() - d,
    {
        let block = &bgdata.data[d];
        let decomp: String = "DECOMP".to_owned();
        proof {
            assert(spec_bg_block_fits(bgdata.data@[d as int], tileset.gfx@.len() as int));
        }
        if block.type_ == decomp {
            if block.source.len() == 1024 {
                render_bg_block_1024(&block.source, image, tileset);
            } else if block.source.len() == 2048 {
                render_bg_block_2048(&block.source, image, tileset);
            }
        }
        d = d + 1;
    }
}

/// Runtime check of one bitmap's well-formedness.
fn check_gfx_wf(g: &Gfx8x8) -> (b: bool)
    ensures
        b == g.wf(),
{
    if g.px.len() != 64 {
        return false;
    }
    let mut t: usize = 0;
    while t < 64
        invariant
            t <= 64,
            g.px@.len() == 64,
            forall|j: int| 0 <= j < t ==> (#[trigger] g.px@[j]) < 16,
        decreases 64 - t,
    {
        if g.px[t] >= 16 {
            proof {
                assert(!g.wf()) by {
                    if g.wf() {
                        assert(g.px@[t as int] < 16);
                    }
                }
            }
            return false;
        }
        t = t + 1;
    }
    true
}

/// Runtime check of a merged tileset's well-formedness.
pub fn validate_tileset(tileset: &SCETileset) -> (b: bool)
    ensures
        b == tileset.wf(),
{
    if tileset.palette.len() < 128 {
        return false;
    }
    let mut g: usize = 0;
    while g < tileset.gfx.len()
        invariant
            g <= tileset.gfx@.len(),
            tileset.palette@.len() >= 128,
            forall|j: int| 0 <= j < g ==> (#[trigger] tileset.gfx@[j]).wf(),
        decreases tileset.gfx@.len() - g,
    {
        if !check_gfx_wf(&tileset.gfx[g]) {
            proof {
                assert(!tileset.wf()) by {
                    if tileset.wf() {
                        assert(tileset.gfx@[g as int].wf());
                    }
                }
            }
            return false;
        }
        g = g + 1;
    }
    let ngfx = tileset.gfx.len();
    let mut t: usize = 0;
    while t < tileset.tiles.len()
        invariant
            t <= tileset.tiles@.len(),
            ngfx == tileset.gfx@.len(),
            tileset.palette@.len() >= 128,
            forall|j: int| 0 <= j < tileset.gfx@.len() ==> (#[trigger] tileset.gfx@[j]).wf(),
            forall|j: int|
                0 <= j < t ==> spec_tile16_refs_ok(
                    #[trigger] tileset.tiles@[j],
                    tileset.gfx@.len() as int,
                ),
        decreases tileset.tiles@.len() - t,
    {
        let tile = tileset.tiles[t];
        let ok = tile.top_left.idx < ngfx && tile.top_left.palette < 8 && tile.top_right.idx
            < ngfx && tile.top_right.palette < 8 && tile.bottom_left.idx < ngfx
            && tile.bottom_left.palette < 8 && tile.bottom_right.idx < ngfx
            && tile.bottom_right.palette < 8;
        if !ok {
            proof {
                assert(!tileset.wf()) by {
                    if tileset.wf() {
                        assert(spec_tile16_refs_ok(
                            tileset.tiles@[t as int],
                            tileset.gfx@.len() as int,
                        ));
                    }
                }
            }
            return false;
        }
        t = t + 1;
    }
    true
}

/// Runtime check that every screen of a layer fits an image of the given
/// pixel dimensions and tile table size.
pub fn validate_screens(screens: &[Screen], width: usize, height: usize, ntiles: usize) -> (b:
    bool)
    ensures
        b == spec_screens_fit(screens@, width as int, height as int, ntiles as int),
{
    let mut k: usize = 0;
    while k < screens.len()
        invariant
            k <= screens@.len(),
            forall|j: int|
                0 <= j < k ==> spec_screen_fits(
                    #[trigger] screens@[j],
                    width as int,
                    height as int,
                    ntiles as int,
                ),
        decreases screens@.len() - k,
    {
        let screen = &screens[k];
        let mut i: usize = 0;
        while i < screen.data.len()
            invariant
                i <= screen.data@.len(),
                *screen == screens@[k as int],
                k < screens@.len(),
                forall|j: int|
                    0 <= j < i ==> spec_screen_word_fits(
                        *screen,
                        j,
                        width as int,
                        height as int,
                        ntiles as int,
                    ),
            decreases screen.data@.len() - i,
        {
            let word = screen.data[i];
            let col16: u128 = (((i % 16) as u128) + (screen.x as u128) * 16 + 1) * 16;
            let row16: u128 = (((i / 16) as u128) + (screen.y as u128) * 16 + 1) * 16;
            let ok = ((word & 0x3FF) as usize) < ntiles && col16 <= width as u128 && row16
                <= height as u128;
            if !ok {
                proof {
                    assert(!spec_screen_word_fits(
                        *screen,
                        i as int,
                        width as int,
                        height as int,
                        ntiles as int,
                    ));
                    assert(!spec_screens_fit(
                        screens@,
                        width as int,
                        height as int,
                        ntiles as int,
                    )) by {
                        if spec_screens_fit(screens@, width as int, height as int, ntiles as int) {
                            assert(spec_screen_fits(
                                screens@[k as int],
                                width as int,
                                height as int,
                                ntiles as int,
                            ));
                            assert(spec_screen_word_fits(
                                *screen,
                                i as int,
                                width as int,
                                height as int,
                                ntiles as int,
                            ));
                        }
                    }
                }
                return false;
            }
            i = i + 1;
        }
        k = k + 1;
    }
    true
}

/// Runtime check that every paint-contributing background block's words
/// name bitmaps inside the tileset.
pub fn validate_bgdata(data: &Vec<BGDataData>, ngfx: usize) -> (b: bool)
    ensures
        b == spec_bgdata_fits(data@, ngfx as int),
{
    let mut d: usize = 0;
    while d < data.len()
        invariant
            d <= data@.len(),
            forall|j: int| 0 <= j < d ==> spec_bg_block_fits(#[trigger] data@[j], ngfx as int),
        decreases data@.len() - d,
    {
        let block = &data[d];
        let decomp: String = "DECOMP".to_owned();
        if block.type_ == decomp && (block.source.len() == 1024 || block.source.len() == 2048) {
            let mut i: usize = 0;
            while i < block.source.len()
                invariant
                    i <= block.source@.len(),
                    *block == data@[d as int],
                    d < data@.len(),
                    block.type_@ == spec_decomp_label(),
                    block.source@.len() == 1024 || block.source@.len() == 2048,
                    forall|j: int|
                        0 <= j < i ==> ((#[trigger] block.source@[j]) as u16 & 0x3FF) < ngfx,
                decreases block.source@.len() - i,
            {
                if ((block.source[i] as u16) & 0x3FF) as usize >= ngfx {
                    proof {
                        assert(!spec_bgdata_fits(data@, ngfx as int)) by {
                            if spec_bgdata_fits(data@, ngfx as int) {
                                assert(spec_bg_block_fits(data@[d as int], ngfx as int));
                                assert((block.source@[i as int] as u16 & 0x3FF) < ngfx);
                            }
                        }
                    }
                    return false;
                }
                i = i + 1;
            }
        }
        d = d + 1;
    }
    true
}

/// Whether a room state can be rendered against a tileset at the given
/// pixel dimensions: the tileset is well-formed and every screen word and
/// background word stays inside it and inside the image.
pub open spec fn spec_state_renderable(
    state: RoomState,
    ts: SCETileset,
    wpx: int,
    hpx: int,
) -> bool {
    &&& ts.wf()
    &&& spec_screens_fit(state.level_data.layer_1.screen@, wpx, hpx, ts.tiles@.len() as int)
    &&& spec_screens_fit(state.level_data.layer_2.screen@, wpx, hpx, ts.tiles@.len() as int)
    &&& spec_bgdata_fits(state.bg_data.data@, ts.gfx@.len() as int)
}

/// Render one room state against its merged tileset.
///
/// `width` and `height` are the room's size in screen-grid units, so the
/// images are `width * 256` by `height * 256` pixels.  The first layer is
/// screen-grid tiles only; the second is the background descriptor first
/// with its screen-grid tiles painted on top.  Fails with
/// `UnsupportedAssetShape` exactly when the state references outside the
/// tileset or outside the image, or the tileset itself is malformed.
pub fn render_state(width: usize, height: usize, state: &RoomState, tileset: &SCETileset) -> (r:
    Result<(Image, Image), Error>)
    requires
        width * 256 <= usize::MAX,
        height * 256 <= usize::MAX,
        (width * 256) * (height * 256) * 4 <= usize::MAX,
    ensures
        r is Ok <==> spec_state_renderable(
            *state,
            *tileset,
            (width * 256) as int,
            (height * 256) as int,
        ),
        r matches Ok(pair) ==> ({
            let wpx = (width * 256) as int;
            let hpx = (height * 256) as int;
            &&& pair.0.wf()
            &&& pair.0.width == width * 256
            &&& pair.0.height == height * 256
            &&& pair.0.pixels@ == spec_paint_screens(
                spec_blank(wpx, hpx),
                wpx,
                state.level_data.layer_1.screen@,
                state.level_data.layer_1.screen@.len() as int,
                *tileset,
            )
            &&& pair.1.wf()
            &&& pair.1.width == width * 256
            &&& pair.1.height == height * 256
            &&& pair.1.pixels@ == spec_paint_screens(
                spec_paint_bgdata(
                    spec_blank(wpx, hpx),
                    wpx,
                    hpx,
                    state.bg_data.data@,
                    state.bg_data.data@.len() as int,
                    *tileset,
                ),
                wpx,
                state.level_data.layer_2.screen@,
                state.level_data.layer_2.screen@.len() as int,
                *tileset,
            )
        }),
        r matches Err(e) ==> e == Error::UnsupportedAssetShape,
{
    let wpx = width * 256;
    let hpx = height * 256;
    if !validate_tileset(tileset) {
        return Err(Error::UnsupportedAssetShape);
    }
    let ntiles = tileset.tiles.len();
    let ngfx = tileset.gfx.len();
    if !validate_screens(state.level_data.layer_1.screen.as_slice(), wpx, hpx, ntiles) {
        return Err(Error::UnsupportedAssetShape);
    }
    if !validate_screens(state.level_data.layer_2.screen.as_slice(), wpx, hpx, ntiles) {
        return Err(Error::UnsupportedAssetShape);
    }
    if !validate_bgdata(&state.bg_data.data, ngfx) {
        return Err(Error::UnsupportedAssetShape);
    }
    let mut layer1 = Image::new(wpx, hpx);
    render_screens(state.level_data.layer_1.screen.as_slice(), &mut layer1, tileset);
    let mut layer2 = Image::new(wpx, hpx);
    render_bgdata(&state.bg_data, &mut layer2, tileset);
    render_screens(state.level_data.layer_2.screen.as_slice(), &mut layer2, tileset);
    Ok((layer1, layer2))
}

/// The label of one room state: its condition, a separator, and its
/// argument in decimal.
fn format_room_state_name(condition: &String, arg: usize) -> (r: String)
    ensures
        r@ == condition@ + ": "@ + spec_decimal(arg as nat),
{
    let mut s = condition.clone();
    s.append(": ");
    let d = format_decimal(arg);
    s.append(d.as_str());
    proof {
        assert(s@ =~= condition@ + ": "@ + spec_decimal(arg as nat));
    }
    s
}

/// Render every state of a room, loading the common tileset once and each
/// state's own tileset from `Export/Tileset/` under the project root.
///
/// The result carries one label and one image per layer per state: the
/// label lists are exactly as long as the room's state list, and every
/// image of both layers measures `width * 256` by `height * 256` pixels.
pub fn render_room<F: FileSystem>(room: &Room, project_dir: &[u8], file_system: &F) -> (r: Result<
    RoomImages,
    Error,
>)
    requires
        room.width * 256 <= usize::MAX,
        room.height * 256 <= usize::MAX,
        (room.width * 256) * (room.height * 256) * 4 <= usize::MAX,
    ensures
        r matches Ok(ri) ==> ({
            let nstates = room.states.state@.len();
            &&& ri.room_state_names@.len() == nstates
            &&& ri.layer1@.len() == nstates
            &&& ri.layer2@.len() == nstates
            &&& forall|i: int|
                0 <= i < nstates ==> (#[trigger] ri.layer1@[i]).wf() && ri.layer1@[i].width
                    == room.width * 256 && ri.layer1@[i].height == room.height * 256
            &&& forall|i: int|
                0 <= i < nstates ==> (#[trigger] ri.layer2@[i]).wf() && ri.layer2@[i].width
                    == room.width * 256 && ri.layer2@[i].height == room.height * 256
            &&& forall|i: int|
                0 <= i < nstates ==> (#[trigger] ri.room_state_names@[i])@
                    == room.states.state@[i].condition@ + ": "@ + spec_decimal(
                    room.states.state@[i].arg as nat,
                )
        }),
{
    let cre_dir = path_join(project_dir, "Export/Tileset/CRE/00".as_bytes());
    let cre_tileset = match load_cre_tileset(cre_dir.as_slice(), file_system) {
        Ok(ts) => ts,
        Err(e) => {
            return Err(e);
        },
    };
    let sce_dir = path_join(project_dir, "Export/Tileset/SCE".as_bytes());
    let mut room_state_name_list: Vec<String> = Vec::new();
    let mut layer1_list: Vec<Image> = Vec::new();
    let mut layer2_list: Vec<Image> = Vec::new();
    let nstates = room.states.state.len();
    let mut k: usize = 0;
    while k < nstates
        invariant
            k <= nstates,
            nstates == room.states.state@.len(),
            room.width * 256 <= usize::MAX,
            room.height * 256 <= usize::MAX,
            (room.width * 256) * (room.height * 256) * 4 <= usize::MAX,
            cre_tileset.wf(),
            room_state_name_list@.len() == k,
            layer1_list@.len() == k,
            layer2_list@.len() == k,
            forall|i: int|
                0 <= i < k ==> (#[trigger] layer1_list@[i]).wf() && layer1_list@[i].width
                    == room.width * 256 && layer1_list@[i].height == room.height * 256,
            forall|i: int|
                0 <= i < k ==> (#[trigger] layer2_list@[i]).wf() && layer2_list@[i].width
                    == room.width * 256 && layer2_list@[i].height == room.height * 256,
            forall|i: int|
                0 <= i < k ==> (#[trigger] room_state_name_list@[i])@
                    == room.states.state@[i].condition@ + ": "@ + spec_decimal(
                    room.states.state@[i].arg as nat,
                ),
        decreases nstates - k,
    {
        let state = &room.states.state[k];
        let room_state_name = format_room_state_name(&state.condition, state.arg);
        room_state_name_list.push(room_state_name);
        let gfx_set_dir = format_hex2(state.gfx_set);
        let tileset_path = path_join(sce_dir.as_slice(), gfx_set_dir.as_slice());
        let tileset = match load_sce_tileset(tileset_path.as_slice(), &cre_tileset, file_system) {
            Ok(ts) => ts,
            Err(e) => {
                return Err(e);
            },
        };
        let (layer1, layer2) = match render_state(room.width, room.height, state, &tileset) {
            Ok(pair) => pair,
            Err(e) => {
                return Err(e);
            },
        };
        layer1_list.push(layer1);
        layer2_list.push(layer2);
        k = k + 1;
    }
    Ok(
        RoomImages {
            room_state_names: room_state_name_list,
            layer1: layer1_list,
            layer2: layer2_list,
        },
    )
}

} // verus!
