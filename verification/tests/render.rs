use smartdiff::file_system::{GitTreeFileSystem, HistEntry, HistNode};
use smartdiff::numerals::{format_decimal, format_hex2};
use smartdiff::room::{
    render_room, render_screens, render_state, Image, SCETileset,
};
use smartdiff::smart_xml::{
    BGData, BGDataData, Layer1, Layer2, LevelData, Room, RoomState, RoomStateList, Screen,
};
use smartdiff::tile::{decode_color, encode_8x8_tile_data_4bpp, Color, Gfx8x8, Tile16x16, Tile8x8};
use smartdiff::Error;

fn graph_blob(nodes: &mut Vec<HistNode>, content: Vec<u8>) -> usize {
    nodes.push(HistNode::Blob { content });
    nodes.len() - 1
}

fn graph_tree(nodes: &mut Vec<HistNode>, entries: Vec<(&str, usize)>) -> usize {
    let entries = entries
        .into_iter()
        .map(|(name, child)| HistEntry {
            name: name.as_bytes().to_vec(),
            is_symlink: false,
            child,
        })
        .collect();
    nodes.push(HistNode::Tree { entries });
    nodes.len() - 1
}

fn solid_bitmap(color_index: u8) -> Vec<u8> {
    encode_8x8_tile_data_4bpp(&Gfx8x8 { px: vec![color_index; 64] })
}

/// A project tree whose common tileset is empty and whose tileset `02`
/// holds six bitmaps (bitmap 5 solid color-index 3), a 128-color palette
/// with slot 35 = RGB555 0x0123, and no composite tiles.
fn project_filesystem() -> GitTreeFileSystem {
    let mut nodes = Vec::new();
    let empty_gfx = graph_blob(&mut nodes, vec![]);
    let empty_ttb = graph_blob(&mut nodes, vec![]);
    let cre00 = graph_tree(
        &mut nodes,
        vec![("8x8tiles.gfx", empty_gfx), ("16x16tiles.ttb", empty_ttb)],
    );
    let cre = graph_tree(&mut nodes, vec![("00", cre00)]);
    let mut sce_gfx_bytes = vec![0u8; 5 * 32];
    sce_gfx_bytes.extend(solid_bitmap(3));
    let sce_gfx = graph_blob(&mut nodes, sce_gfx_bytes);
    let mut palette_bytes = vec![0u8; 256];
    palette_bytes[70] = 0x23;
    palette_bytes[71] = 0x01;
    let palette = graph_blob(&mut nodes, palette_bytes);
    let sce_ttb = graph_blob(&mut nodes, vec![]);
    let sce02 = graph_tree(
        &mut nodes,
        vec![
            ("8x8tiles.gfx", sce_gfx),
            ("16x16tiles.ttb", sce_ttb),
            ("palette.snes", palette),
        ],
    );
    let sce = graph_tree(&mut nodes, vec![("02", sce02)]);
    let tileset = graph_tree(&mut nodes, vec![("CRE", cre), ("SCE", sce)]);
    let export = graph_tree(&mut nodes, vec![("Tileset", tileset)]);
    let proj = graph_tree(&mut nodes, vec![("Export", export)]);
    let root = graph_tree(&mut nodes, vec![("proj", proj)]);
    GitTreeFileSystem { nodes, root }
}

fn background_state(condition: &str, arg: usize) -> RoomState {
    let mut words = vec![0u32; 1024];
    // Word 0: tile index 5, palette bank 2, no flips.
    words[0] = 0x805;
    RoomState {
        condition: condition.to_string(),
        arg,
        gfx_set: 2,
        level_data: LevelData {
            layer_1: Layer1 { screen: vec![] },
            layer_2: Layer2 { screen: vec![] },
        },
        bg_data: BGData {
            data: vec![BGDataData {
                type_: "DECOMP".to_string(),
                source: words,
                dest: "".to_string(),
                size: "".to_string(),
            }],
        },
    }
}

#[test]
fn image_pixels_round_trip() {
    let mut img = Image::new(3, 2);
    assert!(img.get_transparent(2, 1));
    img.set_pixel(2, 1, Color { r: 10, g: 20, b: 30 });
    assert!(!img.get_transparent(2, 1));
    let c = img.get_pixel(2, 1);
    assert_eq!((c.r, c.g, c.b), (10, 20, 30));
    assert!(img.get_transparent(0, 0));
}

#[test]
fn background_block_paints_one_screen() {
    let fs = project_filesystem();
    let room = Room {
        width: 1,
        height: 1,
        states: RoomStateList { state: vec![background_state("Default", 0)] },
    };
    let images = render_room(&room, b"proj", &fs).unwrap();
    assert_eq!(images.room_state_names, vec!["Default: 0".to_string()]);
    let layer2 = &images.layer2[0];
    assert_eq!(layer2.width, 256);
    assert_eq!(layer2.height, 256);
    // The 8x8 region at grid (0,0) carries palette slot 2*16+3 = 35,
    // fully opaque.
    let expected = decode_color(0x0123);
    assert_eq!((expected.r, expected.g, expected.b), (24, 72, 0));
    for y in 0..8 {
        for x in 0..8 {
            assert!(!layer2.get_transparent(x, y));
            let c = layer2.get_pixel(x, y);
            assert_eq!((c.r, c.g, c.b), (expected.r, expected.g, expected.b));
        }
    }
    // Word 1 references bitmap 0, which is fully transparent.
    assert!(layer2.get_transparent(8, 0));
    assert!(layer2.get_transparent(255, 255));
    // Layer 1 has no screens at all.
    assert!(images.layer1[0].get_transparent(0, 0));
}

#[test]
fn image_lists_have_one_entry_per_state() {
    let fs = project_filesystem();
    let room = Room {
        width: 1,
        height: 1,
        states: RoomStateList {
            state: vec![background_state("E5E6", 0), background_state("E612", 3)],
        },
    };
    let images = render_room(&room, b"proj", &fs).unwrap();
    assert_eq!(images.room_state_names.len(), 2);
    assert_eq!(images.layer1.len(), 2);
    assert_eq!(images.layer2.len(), 2);
    assert_eq!(
        images.room_state_names,
        vec!["E5E6: 0".to_string(), "E612: 3".to_string()]
    );
    for i in 0..2 {
        assert_eq!(images.layer1[i].width, 256);
        assert_eq!(images.layer1[i].height, 256);
        assert_eq!(images.layer2[i].width, 256);
        assert_eq!(images.layer2[i].height, 256);
    }
}

#[test]
fn missing_tileset_directory_fails() {
    let fs = project_filesystem();
    let mut state = background_state("Default", 0);
    state.gfx_set = 3;
    let room = Room {
        width: 1,
        height: 1,
        states: RoomStateList { state: vec![state] },
    };
    assert_eq!(render_room(&room, b"proj", &fs).err(), Some(Error::NotFound));
}

fn marker_bitmap(color_index: u8) -> Gfx8x8 {
    let mut px = vec![0u8; 64];
    px[0] = color_index;
    Gfx8x8 { px }
}

fn quadrant(idx: usize) -> Tile8x8 {
    Tile8x8 { idx, palette: 0, flip_x: false, flip_y: false, _priority: false }
}

fn grey(v: u8) -> Color {
    Color { r: v, g: v, b: v }
}

/// A tileset with four marker bitmaps (one dot at their top-left texel) and
/// one composite tile using them as quadrants A, B, C, D.
fn marker_tileset() -> SCETileset {
    let mut palette = vec![grey(0); 128];
    palette[1] = grey(11);
    palette[2] = grey(22);
    palette[3] = grey(33);
    palette[4] = grey(44);
    SCETileset {
        palette,
        gfx: vec![
            marker_bitmap(0),
            marker_bitmap(1),
            marker_bitmap(2),
            marker_bitmap(3),
            marker_bitmap(4),
        ],
        tiles: vec![Tile16x16 {
            top_left: quadrant(1),
            top_right: quadrant(2),
            bottom_left: quadrant(3),
            bottom_right: quadrant(4),
        }],
    }
}

#[test]
fn screen_word_flips_swap_and_mirror_quadrants() {
    let ts = marker_tileset();
    let screen = Screen { x: 0, y: 0, data: vec![0x0C00] };
    let mut img = Image::new(256, 256);
    render_screens(&[screen], &mut img, &ts);
    // With flip_x and flip_y both set, quadrant D lands top-left, C
    // top-right, B bottom-left, A bottom-right, each mirrored in both axes,
    // so each marker dot moves from its quadrant's (0,0) to its (7,7).
    assert_eq!(img.get_pixel(7, 7), grey(44));
    assert!(!img.get_transparent(7, 7));
    assert_eq!(img.get_pixel(15, 7), grey(33));
    assert_eq!(img.get_pixel(7, 15), grey(22));
    assert_eq!(img.get_pixel(15, 15), grey(11));
    // The dots' unflipped positions stay untouched.
    assert!(img.get_transparent(0, 0));
    assert!(img.get_transparent(8, 0));
    assert!(img.get_transparent(0, 8));
    assert!(img.get_transparent(8, 8));
}

#[test]
fn screen_word_without_flips_keeps_quadrants() {
    let ts = marker_tileset();
    let screen = Screen { x: 1, y: 0, data: vec![0x0000] };
    let mut img = Image::new(512, 256);
    render_screens(&[screen], &mut img, &ts);
    // The screen's grid position shifts the tile by 256 pixels.
    assert_eq!(img.get_pixel(256, 0), grey(11));
    assert_eq!(img.get_pixel(264, 0), grey(22));
    assert_eq!(img.get_pixel(256, 8), grey(33));
    assert_eq!(img.get_pixel(264, 8), grey(44));
    assert!(img.get_transparent(0, 0));
}

#[test]
fn render_state_rejects_a_short_palette() {
    let mut ts = marker_tileset();
    ts.palette.truncate(100);
    let state = RoomState {
        condition: "Default".to_string(),
        arg: 0,
        gfx_set: 0,
        level_data: LevelData {
            layer_1: Layer1 { screen: vec![] },
            layer_2: Layer2 { screen: vec![] },
        },
        bg_data: BGData { data: vec![] },
    };
    assert_eq!(
        render_state(1, 1, &state, &ts).err(),
        Some(Error::UnsupportedAssetShape)
    );
}

#[test]
fn render_state_rejects_out_of_range_tile_references() {
    let ts = marker_tileset();
    let state = RoomState {
        condition: "Default".to_string(),
        arg: 0,
        gfx_set: 0,
        level_data: LevelData {
            // Word 1 names tile 1, but the table holds only tile 0.
            layer_1: Layer1 { screen: vec![Screen { x: 0, y: 0, data: vec![1] }] },
            layer_2: Layer2 { screen: vec![] },
        },
        bg_data: BGData { data: vec![] },
    };
    assert_eq!(
        render_state(1, 1, &state, &ts).err(),
        Some(Error::UnsupportedAssetShape)
    );
}

#[test]
fn odd_background_block_lengths_are_skipped() {
    let ts = marker_tileset();
    let state = RoomState {
        condition: "Default".to_string(),
        arg: 0,
        gfx_set: 0,
        level_data: LevelData {
            layer_1: Layer1 { screen: vec![] },
            layer_2: Layer2 { screen: vec![] },
        },
        bg_data: BGData {
            data: vec![BGDataData {
                // Not 1024 or 2048 words: contributes nothing, not an error.
                type_: "DECOMP".to_string(),
                source: vec![0x1; 100],
                dest: "".to_string(),
                size: "".to_string(),
            }],
        },
    };
    let (_, layer2) = render_state(1, 1, &state, &ts).unwrap();
    assert!(layer2.get_transparent(0, 0));
}

#[test]
fn numerals_render() {
    assert_eq!(format_decimal(0), "0".to_string());
    assert_eq!(format_decimal(1234), "1234".to_string());
    assert_eq!(format_hex2(0), vec![0x30, 0x30]);
    assert_eq!(format_hex2(2), vec![0x30, 0x32]);
    assert_eq!(format_hex2(0x1F), vec![0x31, 0x46]);
    assert_eq!(format_hex2(0x123), vec![0x31, 0x32, 0x33]);
}
