//! The binary tile and color decoders.
//!
//! An 8x8 bitmap is stored as a 32-byte planar record: 8 rows of 2 bytes,
//! with two further bitplane bytes for the same row 16 bytes later.  A 16x16
//! composite tile is an 8-byte record of four little-endian words, one per
//! quadrant.  A palette color is a little-endian RGB555 word whose 5-bit
//! channels scale to 8 bits by multiplying by 8.

use vstd::prelude::*;

verus! {

/// An RGB color, 8 bits per channel.
#[derive(Clone, Copy, Debug, PartialEq, Eq, Structural)]
pub struct Color {
    pub r: u8,
    pub g: u8,
    pub b: u8,
}

/// A decoded 8x8 bitmap: 64 4-bit color indices in row-major order, so the
/// texel at column `x` of row `y` is `px[y * 8 + x]`.  Index 0 is
/// transparent.
#[derive(Clone, Debug)]
pub struct Gfx8x8 {
    pub px: Vec<u8>,
}

/// One 8x8 tile reference: a bitmap index, a palette bank, two flips, and a
/// priority flag that takes no part in pixel output.
#[derive(Clone, Copy, Debug)]
pub struct Tile8x8 {
    pub idx: usize,
    pub palette: usize,
    pub flip_x: bool,
    pub flip_y: bool,
    pub _priority: bool,
}

/// A 16x16 composite tile: four 8x8 tile references, one per quadrant.
#[derive(Clone, Copy, Debug)]
pub struct Tile16x16 {
    pub top_left: Tile8x8,
    pub top_right: Tile8x8,
    pub bottom_left: Tile8x8,
    pub bottom_right: Tile8x8,
}

impl Gfx8x8 {
    /// 64 texels, each a 4-bit value.
    pub open spec fn wf(&self) -> bool {
        &&& self.px@.len() == 64
        &&& forall|t: int| 0 <= t < 64 ==> (#[trigger] self.px@[t]) < 16
    }
}

/// The RGB555 word `data` decoded to RGB888: each 5-bit channel scaled by 8,
/// so channels span 0 to 248.
pub open spec fn spec_decode_color(data: u16) -> Color {
    Color {
        r: ((data & 0x1f) * 8) as u8,
        g: (((data >> 5) & 0x1f) * 8) as u8,
        b: (((data >> 10) & 0x1f) * 8) as u8,
    }
}

/// The 16-bit word `x` unpacked into an 8x8 tile reference: bits 0-9 the
/// bitmap index, 10-12 the palette bank, 13 priority, 14 horizontal flip,
/// 15 vertical flip.
pub open spec fn spec_decode_8x8_tile(x: u16) -> Tile8x8 {
    Tile8x8 {
        idx: (x & 0x3FF) as usize,
        palette: ((x >> 10) & 7) as usize,
        _priority: ((x >> 13) & 1) == 1,
        flip_x: ((x >> 14) & 1) == 1,
        flip_y: ((x >> 15) & 1) == 1,
    }
}

/// The little-endian 16-bit word with low byte `b0` and high byte `b1`.
pub open spec fn spec_word_le(b0: u8, b1: u8) -> u16 {
    (b0 as u16) | ((b1 as u16) << 8)
}

/// An 8-byte 16x16 tile record decoded quadrant by quadrant.
pub open spec fn spec_decode_16x16_tile(d: Seq<u8>) -> Tile16x16 {
    Tile16x16 {
        top_left: spec_decode_8x8_tile(spec_word_le(d[0], d[1])),
        top_right: spec_decode_8x8_tile(spec_word_le(d[2], d[3])),
        bottom_left: spec_decode_8x8_tile(spec_word_le(d[4], d[5])),
        bottom_right: spec_decode_8x8_tile(spec_word_le(d[6], d[7])),
    }
}

/// The 4-bit color index assembled from one bit of each of four bitplane
/// bytes, all at bit position `s`.
pub open spec fn spec_pix_bits(d0: u8, d1: u8, d2: u8, d3: u8, s: u8) -> u8 {
    ((d0 >> s) & 1) | (((d1 >> s) & 1) << 1) | (((d2 >> s) & 1) << 2) | (((d3 >> s) & 1) << 3)
}

/// The color index of the texel at column `x` of row `y` of a 32-byte planar
/// tile record.
pub open spec fn spec_tile_pixel(data: Seq<u8>, x: int, y: int) -> u8 {
    spec_pix_bits(data[y * 2], data[y * 2 + 1], data[y * 2 + 16], data[y * 2 + 17], (7 - x) as u8)
}

/// The 64 texels of a 32-byte planar tile record, row-major.
pub open spec fn spec_decode_8x8(data: Seq<u8>) -> Seq<u8> {
    Seq::new(64, |t: int| spec_tile_pixel(data, t % 8, t / 8))
}

/// One byte of the planar re-encoding: bit `7 - x` holds bit `p` of the
/// texel at column `x` of row `y`.
pub open spec fn spec_encode_plane_byte(m: Seq<u8>, y: int, p: u8) -> u8 {
    (((m[y * 8] >> p) & 1) << 7) | (((m[y * 8 + 1] >> p) & 1) << 6) | (((m[y * 8 + 2] >> p) & 1)
        << 5) | (((m[y * 8 + 3] >> p) & 1) << 4) | (((m[y * 8 + 4] >> p) & 1) << 3) | (((m[y * 8
        + 5] >> p) & 1) << 2) | (((m[y * 8 + 6] >> p) & 1) << 1) | ((m[y * 8 + 7] >> p) & 1)
}

/// A 64-texel matrix packed back into the 32-byte planar layout.
pub open spec fn spec_encode_8x8(m: Seq<u8>) -> Seq<u8> {
    Seq::new(
        32,
        |a: int|
            if a < 16 {
                spec_encode_plane_byte(m, a / 2, (a % 2) as u8)
            } else {
                spec_encode_plane_byte(m, (a - 16) / 2, (2 + (a - 16) % 2) as u8)
            },
    )
}

/// Decode an RGB555 color word.
pub fn decode_color(data: u16) -> (c: Color)
    ensures
        c == spec_decode_color(data),
{
    proof {
        assert(data & 0x1f <= 31) by (bit_vector);
        assert((data >> 5) & 0x1f <= 31) by (bit_vector);
        assert((data >> 10) & 0x1f <= 31) by (bit_vector);
    }
    let r = data & 0x1f;
    let g = (data >> 5) & 0x1f;
    let b = (data >> 10) & 0x1f;
    Color { r: (r * 8) as u8, g: (g * 8) as u8, b: (b * 8) as u8 }
}

/// Per channel, decoding an RGB555 word is monotonic in the channel's 5-bit
/// value.
pub proof fn lemma_decode_color_monotonic(d1: u16, d2: u16)
    requires
        d1 & 0x1f <= d2 & 0x1f,
        (d1 >> 5) & 0x1f <= (d2 >> 5) & 0x1f,
        (d1 >> 10) & 0x1f <= (d2 >> 10) & 0x1f,
    ensures
        spec_decode_color(d1).r <= spec_decode_color(d2).r,
        spec_decode_color(d1).g <= spec_decode_color(d2).g,
        spec_decode_color(d1).b <= spec_decode_color(d2).b,
{
    assert(d1 & 0x1f <= 31) by (bit_vector);
    assert((d1 >> 5) & 0x1f <= 31) by (bit_vector);
    assert((d1 >> 10) & 0x1f <= 31) by (bit_vector);
    assert(d2 & 0x1f <= 31) by (bit_vector);
    assert((d2 >> 5) & 0x1f <= 31) by (bit_vector);
    assert((d2 >> 10) & 0x1f <= 31) by (bit_vector);
}

/// Unpack a 16-bit tile reference word.
pub fn decode_8x8_tile(x: u16) -> (t: Tile8x8)
    ensures
        t == spec_decode_8x8_tile(x),
        t.idx < 1024,
        t.palette < 8,
{
    proof {
        assert(x & 0x3FF < 1024) by (bit_vector);
        assert((x >> 10) & 7 < 8) by (bit_vector);
    }
    Tile8x8 {
        idx: (x & 0x3FF) as usize,
        palette: ((x >> 10) & 7) as usize,
        _priority: ((x >> 13) & 1) == 1,
        flip_x: ((x >> 14) & 1) == 1,
        flip_y: ((x >> 15) & 1) == 1,
    }
}

/// Every unpacked tile reference has a bitmap index below 1024 and a palette
/// bank below 8.
pub proof fn lemma_decode_8x8_tile_bounds(x: u16)
    ensures
        spec_decode_8x8_tile(x).idx < 1024,
        spec_decode_8x8_tile(x).palette < 8,
{
    assert(x & 0x3FF < 1024) by (bit_vector);
    assert((x >> 10) & 7 < 8) by (bit_vector);
}

/// Decode an 8-byte 16x16 tile record: four little-endian words, one per
/// quadrant.
pub fn decode_16x16_tile(data: &[u8]) -> (t: Tile16x16)
    requires
        data@.len() >= 8,
    ensures
        t == spec_decode_16x16_tile(data@),
{
    Tile16x16 {
        top_left: decode_8x8_tile((data[0] as u16) | ((data[1] as u16) << 8)),
        top_right: decode_8x8_tile((data[2] as u16) | ((data[3] as u16) << 8)),
        bottom_left: decode_8x8_tile((data[4] as u16) | ((data[5] as u16) << 8)),
        bottom_right: decode_8x8_tile((data[6] as u16) | ((data[7] as u16) << 8)),
    }
}

/// The assembled 4-bit index is below 16.
proof fn lemma_pix_bits_bound(d0: u8, d1: u8, d2: u8, d3: u8, s: u8)
    by (bit_vector)
    ensures
        spec_pix_bits(d0, d1, d2, d3, s) < 16,
{
}

/// Decode a 32-byte planar tile record into its 64 texels.
pub fn decode_8x8_tile_data_4bpp(data: &[u8]) -> (g: Gfx8x8)
    requires
        data@.len() >= 32,
    ensures
        g.wf(),
        g.px@ == spec_decode_8x8(data@.take(32)),
{
    let ghost d32 = data@.take(32);
    let mut px: Vec<u8> = Vec::new();
    let mut y: usize = 0;
    while y < 8
        invariant
            y <= 8,
            data@.len() >= 32,
            d32 == data@.take(32),
            px@.len() == y * 8,
            forall|t: int| 0 <= t < px@.len() ==> #[trigger] px@[t] == spec_tile_pixel(d32, t % 8, t / 8),
            forall|t: int| 0 <= t < px@.len() ==> (#[trigger] px@[t]) < 16,
        decreases 8 - y,
    {
        let addr = y * 2;
        let data_0 = data[addr];
        let data_1 = data[addr + 1];
        let data_2 = data[addr + 16];
        let data_3 = data[addr + 17];
        let mut x: usize = 0;
        while x < 8
            invariant
                x <= 8,
                y < 8,
                data@.len() >= 32,
                d32 == data@.take(32),
                data_0 == d32[y * 2],
                data_1 == d32[y * 2 + 1],
                data_2 == d32[y * 2 + 16],
                data_3 == d32[y * 2 + 17],
                px@.len() == y * 8 + x,
                forall|t: int| 0 <= t < px@.len() ==> #[trigger] px@[t] == spec_tile_pixel(d32, t % 8, t / 8),
                forall|t: int| 0 <= t < px@.len() ==> (#[trigger] px@[t]) < 16,
            decreases 8 - x,
        {
            let s = (7 - x) as u8;
            let bit_0 = (data_0 >> s) & 1;
            let bit_1 = (data_1 >> s) & 1;
            let bit_2 = (data_2 >> s) & 1;
            let bit_3 = (data_3 >> s) & 1;
            let c = bit_0 | (bit_1 << 1) | (bit_2 << 2) | (bit_3 << 3);
            proof {
                lemma_pix_bits_bound(data_0, data_1, data_2, data_3, s);
                assert(c == spec_pix_bits(data_0, data_1, data_2, data_3, s));
                assert((y * 8 + x) % 8 == x && (y * 8 + x) / 8 == y) by (nonlinear_arith)
                    requires
                        0 <= x < 8,
                        0 <= y,
                ;
            }
            px.push(c);
            x = x + 1;
        }
        y = y + 1;
    }
    let g = Gfx8x8 { px };
    proof {
        assert(g.px@ =~= spec_decode_8x8(d32));
    }
    g
}

/// One byte of the planar re-encoding.
fn encode_plane_byte(px: &Vec<u8>, y: usize, p: u8) -> (b: u8)
    requires
        px@.len() == 64,
        y < 8,
        p < 4,
    ensures
        b == spec_encode_plane_byte(px@, y as int, p),
{
    let base = y * 8;
    (((px[base] >> p) & 1) << 7) | (((px[base + 1] >> p) & 1) << 6) | (((px[base + 2] >> p) & 1)
        << 5) | (((px[base + 3] >> p) & 1) << 4) | (((px[base + 4] >> p) & 1) << 3) | (((px[base
        + 5] >> p) & 1) << 2) | (((px[base + 6] >> p) & 1) << 1) | ((px[base + 7] >> p) & 1)
}

/// Pack 64 texels back into the 32-byte planar layout: the inverse of
/// `decode_8x8_tile_data_4bpp`, for checking the codec against raw records.
pub fn encode_8x8_tile_data_4bpp(g: &Gfx8x8) -> (r: Vec<u8>)
    requires
        g.px@.len() == 64,
    ensures
        r@ == spec_encode_8x8(g.px@),
{
    let mut r: Vec<u8> = Vec::new();
    let mut y: usize = 0;
    while y < 8
        invariant
            y <= 8,
            g.px@.len() == 64,
            r@.len() == 2 * y,
            forall|a: int| 0 <= a < r@.len() ==> #[trigger] r@[a] == spec_encode_8x8(g.px@)[a],
        decreases 8 - y,
    {
        let b0 = encode_plane_byte(&g.px, y, 0);
        let b1 = encode_plane_byte(&g.px, y, 1);
        r.push(b0);
        r.push(b1);
        y = y + 1;
    }
    let mut y2: usize = 0;
    while y2 < 8
        invariant
            y2 <= 8,
            g.px@.len() == 64,
            r@.len() == 16 + 2 * y2,
            forall|a: int| 0 <= a < r@.len() ==> #[trigger] r@[a] == spec_encode_8x8(g.px@)[a],
        decreases 8 - y2,
    {
        let b2 = encode_plane_byte(&g.px, y2, 2);
        let b3 = encode_plane_byte(&g.px, y2, 3);
        r.push(b2);
        r.push(b3);
        y2 = y2 + 1;
    }
    proof {
        assert(r@ =~= spec_encode_8x8(g.px@));
    }
    r
}

/// The bit-level core of the round trip: re-assembling bit `p` of the eight
/// texels of one row gives back bitplane byte `p` of that row.
proof fn lemma_plane_round_trip(d0: u8, d1: u8, d2: u8, d3: u8)
    by (bit_vector)
    ensures
        (((spec_pix_bits(d0, d1, d2, d3, 7) >> 0u8) & 1) << 7) | (((spec_pix_bits(
            d0,
            d1,
            d2,
            d3,
            6,
        ) >> 0u8) & 1) << 6) | (((spec_pix_bits(d0, d1, d2, d3, 5) >> 0u8) & 1) << 5) | (((
        spec_pix_bits(d0, d1, d2, d3, 4) >> 0u8) & 1) << 4) | (((spec_pix_bits(d0, d1, d2, d3, 3)
            >> 0u8) & 1) << 3) | (((spec_pix_bits(d0, d1, d2, d3, 2) >> 0u8) & 1) << 2) | (((
        spec_pix_bits(d0, d1, d2, d3, 1) >> 0u8) & 1) << 1) | ((spec_pix_bits(d0, d1, d2, d3, 0)
            >> 0u8) & 1) == d0,
        (((spec_pix_bits(d0, d1, d2, d3, 7) >> 1u8) & 1) << 7) | (((spec_pix_bits(
            d0,
            d1,
            d2,
            d3,
            6,
        ) >> 1u8) & 1) << 6) | (((spec_pix_bits(d0, d1, d2, d3, 5) >> 1u8) & 1) << 5) | (((
        spec_pix_bits(d0, d1, d2, d3, 4) >> 1u8) & 1) << 4) | (((spec_pix_bits(d0, d1, d2, d3, 3)
            >> 1u8) & 1) << 3) | (((spec_pix_bits(d0, d1, d2, d3, 2) >> 1u8) & 1) << 2) | (((
        spec_pix_bits(d0, d1, d2, d3, 1) >> 1u8) & 1) << 1) | ((spec_pix_bits(d0, d1, d2, d3, 0)
            >> 1u8) & 1) == d1,
        (((spec_pix_bits(d0, d1, d2, d3, 7) >> 2u8) & 1) << 7) | (((spec_pix_bits(
            d0,
            d1,
            d2,
            d3,
            6,
        ) >> 2u8) & 1) << 6) | (((spec_pix_bits(d0, d1, d2, d3, 5) >> 2u8) & 1) << 5) | (((
        spec_pix_bits(d0, d1, d2, d3, 4) >> 2u8) & 1) << 4) | (((spec_pix_bits(d0, d1, d2, d3, 3)
            >> 2u8) & 1) << 3) | (((spec_pix_bits(d0, d1, d2, d3, 2) >> 2u8) & 1) << 2) | (((
        spec_pix_bits(d0, d1, d2, d3, 1) >> 2u8) & 1) << 1) | ((spec_pix_bits(d0, d1, d2, d3, 0)
            >> 2u8) & 1) == d2,
        (((spec_pix_bits(d0, d1, d2, d3, 7) >> 3u8) & 1) << 7) | (((spec_pix_bits(
            d0,
            d1,
            d2,
            d3,
            6,
        ) >> 3u8) & 1) << 6) | (((spec_pix_bits(d0, d1, d2, d3, 5) >> 3u8) & 1) << 5) | (((
        spec_pix_bits(d0, d1, d2, d3, 4) >> 3u8) & 1) << 4) | (((spec_pix_bits(d0, d1, d2, d3, 3)
            >> 3u8) & 1) << 3) | (((spec_pix_bits(d0, d1, d2, d3, 2) >> 3u8) & 1) << 2) | (((
        spec_pix_bits(d0, d1, d2, d3, 1) >> 3u8) & 1) << 1) | ((spec_pix_bits(d0, d1, d2, d3, 0)
            >> 3u8) & 1) == d3,
{
}

/// Decoding a 32-byte planar tile record and re-encoding the texel matrix
/// gives back the record, byte for byte.
#[verifier::rlimit(100)]
pub proof fn lemma_tile_codec_round_trip(data: Seq<u8>)
    requires
        data.len() == 32,
    ensures
        spec_encode_8x8(spec_decode_8x8(data)) == data,
{
    let m = spec_decode_8x8(data);
    assert forall|a: int| 0 <= a < 32 implies spec_encode_8x8(m)[a] == data[a] by {
        let y = if a < 16 {
            a / 2
        } else {
            (a - 16) / 2
        };
        let p: u8 = if a < 16 {
            (a % 2) as u8
        } else {
            (2 + (a - 16) % 2) as u8
        };
        assert(0 <= y < 8);
        let d0 = data[y * 2];
        let d1 = data[y * 2 + 1];
        let d2 = data[y * 2 + 16];
        let d3 = data[y * 2 + 17];
        assert forall|x: int| #![trigger m[y * 8 + x]] 0 <= x < 8 implies m[y * 8 + x] == spec_pix_bits(
            d0,
            d1,
            d2,
            d3,
            (7 - x) as u8,
        ) by {
            assert((y * 8 + x) % 8 == x && (y * 8 + x) / 8 == y) by (nonlinear_arith)
                requires
                    0 <= x < 8,
                    0 <= y < 8,
            ;
        }
        lemma_plane_round_trip(d0, d1, d2, d3);
        if a < 16 {
            assert(a == y * 2 + p);
            if p == 0 {
                assert(spec_encode_8x8(m)[a] == spec_encode_plane_byte(m, y, 0));
                assert(spec_encode_plane_byte(m, y, 0) == d0);
            } else {
                assert(spec_encode_8x8(m)[a] == spec_encode_plane_byte(m, y, 1));
                assert(spec_encode_plane_byte(m, y, 1) == d1);
            }
        } else {
            assert(a == y * 2 + 16 + (p - 2));
            if p == 2 {
                assert(spec_encode_8x8(m)[a] == spec_encode_plane_byte(m, y, 2));
                assert(spec_encode_plane_byte(m, y, 2) == d2);
            } else {
                assert(spec_encode_8x8(m)[a] == spec_encode_plane_byte(m, y, 3));
                assert(spec_encode_plane_byte(m, y, 3) == d3);
            }
        }
    }
    assert(spec_encode_8x8(spec_decode_8x8(data)) =~= data);
}

} // verus!
