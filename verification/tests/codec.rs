use smartdiff::tile::{
    decode_16x16_tile, decode_8x8_tile, decode_8x8_tile_data_4bpp, decode_color,
    encode_8x8_tile_data_4bpp, Gfx8x8,
};

fn sample_block() -> Vec<u8> {
    // An arbitrary but fixed 32-byte planar record.
    (0..32u8).map(|i| i.wrapping_mul(37).wrapping_add(11)).collect()
}

#[test]
fn tile_codec_round_trips_sample_blocks() {
    for seed in 0..8u8 {
        let block: Vec<u8> = sample_block()
            .iter()
            .map(|b| b.wrapping_add(seed.wrapping_mul(101)))
            .collect();
        let decoded = decode_8x8_tile_data_4bpp(&block);
        let encoded = encode_8x8_tile_data_4bpp(&decoded);
        assert_eq!(encoded, block);
    }
}

#[test]
fn tile_decode_extracts_planar_bits() {
    // Row 0: plane bytes 0b1000_0000, 0b0000_0000, 0b1000_0000, 0b0000_0000
    // make texel (0,0) = bit0 | bit2<<2 = 0b0101 = 5.
    let mut block = vec![0u8; 32];
    block[0] = 0x80;
    block[16] = 0x80;
    let g = decode_8x8_tile_data_4bpp(&block);
    assert_eq!(g.px[0], 5);
    for t in 1..64 {
        assert_eq!(g.px[t], 0);
    }
}

#[test]
fn color_decode_endpoints() {
    let black = decode_color(0);
    assert_eq!((black.r, black.g, black.b), (0, 0, 0));
    let white = decode_color(0x7FFF);
    // The format quirk: channels scale by 8, so the maximum is 248, not 255.
    assert_eq!((white.r, white.g, white.b), (248, 248, 248));
}

#[test]
fn color_decode_channels() {
    // r = 3, g = 9, b = 0.
    let c = decode_color(0x0123);
    assert_eq!((c.r, c.g, c.b), (24, 72, 0));
}

#[test]
fn color_decode_is_monotonic_per_channel() {
    let mut last = 0u8;
    for v in 0..32u16 {
        let c = decode_color(v);
        assert!(c.r >= last);
        last = c.r;
    }
}

#[test]
fn tile_reference_word_unpacks() {
    // idx = 5, palette = 2, priority clear, flip_x set, flip_y set.
    let t = decode_8x8_tile(0x0005 | (2 << 10) | (1 << 14) | (1 << 15));
    assert_eq!(t.idx, 5);
    assert_eq!(t.palette, 2);
    assert!(t.flip_x);
    assert!(t.flip_y);
}

#[test]
fn tile16_record_decodes_little_endian() {
    let record = [0x05, 0x08, 0x06, 0x08, 0x07, 0x08, 0x08, 0x08];
    let t = decode_16x16_tile(&record);
    assert_eq!(t.top_left.idx, 5);
    assert_eq!(t.top_right.idx, 6);
    assert_eq!(t.bottom_left.idx, 7);
    assert_eq!(t.bottom_right.idx, 8);
    assert_eq!(t.top_left.palette, 2);
}

#[test]
fn encode_solid_bitmap() {
    let g = Gfx8x8 { px: vec![3u8; 64] };
    let bytes = encode_8x8_tile_data_4bpp(&g);
    // Color index 3 = bits 0 and 1 set: the first two planes are all ones.
    for y in 0..8 {
        assert_eq!(bytes[y * 2], 0xFF);
        assert_eq!(bytes[y * 2 + 1], 0xFF);
        assert_eq!(bytes[y * 2 + 16], 0x00);
        assert_eq!(bytes[y * 2 + 17], 0x00);
    }
    let back = decode_8x8_tile_data_4bpp(&bytes);
    assert_eq!(back.px, vec![3u8; 64]);
}
