use smartdiff::smart_xml::{
    decode_room, from_hex, from_hex_words, from_hex_words_u32, RawBGData, RawBGDataData, RawLayer,
    RawLevelData, RawRoom, RawRoomState, RawScreen,
};
use smartdiff::Error;

#[test]
fn hex_scalars_parse() {
    assert_eq!(from_hex("0"), Ok(0));
    assert_eq!(from_hex("1A"), Ok(26));
    assert_eq!(from_hex("1a"), Ok(26));
    assert_eq!(from_hex("+ff"), Ok(255));
    assert_eq!(from_hex(""), Err(Error::MalformedNumericField));
    assert_eq!(from_hex("xyz"), Err(Error::MalformedNumericField));
    assert_eq!(from_hex("12 34"), Err(Error::MalformedNumericField));
    assert_eq!(
        from_hex("FFFFFFFFFFFFFFFFF"),
        Err(Error::MalformedNumericField)
    );
}

#[test]
fn hex_word_lists_parse() {
    assert_eq!(from_hex_words(""), Ok(vec![]));
    assert_eq!(
        from_hex_words("0005 0800\n0C00\t001F"),
        Ok(vec![0x0005, 0x0800, 0x0C00, 0x001F])
    );
    assert_eq!(from_hex_words("FFFF"), Ok(vec![0xFFFF]));
    // A 16-bit overflow fails the whole field.
    assert_eq!(from_hex_words("10000"), Err(Error::MalformedNumericField));
    assert_eq!(from_hex_words("12 zz"), Err(Error::MalformedNumericField));
}

#[test]
fn hex_word_lists_parse_u32() {
    assert_eq!(
        from_hex_words_u32("DEADBEEF 0"),
        Ok(vec![0xDEAD_BEEF, 0])
    );
    assert_eq!(
        from_hex_words_u32("100000000"),
        Err(Error::MalformedNumericField)
    );
}

fn raw_state(gfx_set: &str) -> RawRoomState {
    RawRoomState {
        condition: "E5E6".to_string(),
        arg: Some("3".to_string()),
        gfx_set: gfx_set.to_string(),
        level_data: RawLevelData {
            layer_1: Some(RawLayer {
                screen: vec![RawScreen {
                    x: "0".to_string(),
                    y: "0".to_string(),
                    data: "0005 0C00".to_string(),
                }],
            }),
            layer_2: None,
        },
        bg_data: RawBGData {
            data: vec![RawBGDataData {
                type_: "DECOMP".to_string(),
                source: Some("805 0".to_string()),
                dest: "".to_string(),
                size: "".to_string(),
            }],
        },
    }
}

fn raw_room() -> RawRoom {
    RawRoom {
        width: "1".to_string(),
        height: "2".to_string(),
        states: vec![raw_state("1F")],
    }
}

#[test]
fn room_decodes() {
    let room = decode_room(&raw_room()).unwrap();
    assert_eq!(room.width, 1);
    assert_eq!(room.height, 2);
    assert_eq!(room.states.state.len(), 1);
    let st = &room.states.state[0];
    assert_eq!(st.condition, "E5E6".to_string());
    assert_eq!(st.arg, 3);
    assert_eq!(st.gfx_set, 0x1F);
    assert_eq!(st.level_data.layer_1.screen.len(), 1);
    assert_eq!(st.level_data.layer_1.screen[0].data, vec![0x0005, 0x0C00]);
    // A missing second layer decodes to a blank layer.
    assert_eq!(st.level_data.layer_2.screen.len(), 0);
    assert_eq!(st.bg_data.data.len(), 1);
    assert_eq!(st.bg_data.data[0].type_, "DECOMP".to_string());
    assert_eq!(st.bg_data.data[0].source, vec![0x805, 0]);
}

#[test]
fn room_with_no_state_is_rejected() {
    let raw = RawRoom {
        width: "1".to_string(),
        height: "1".to_string(),
        states: vec![],
    };
    assert!(matches!(decode_room(&raw), Err(Error::EmptyRoomStateList)));
}

#[test]
fn room_with_bad_number_is_rejected() {
    let mut raw = raw_room();
    raw.width = "one".to_string();
    assert!(matches!(
        decode_room(&raw),
        Err(Error::MalformedNumericField)
    ));
    let mut raw = raw_room();
    raw.states[0].gfx_set = "".to_string();
    assert!(matches!(
        decode_room(&raw),
        Err(Error::MalformedNumericField)
    ));
    let mut raw = raw_room();
    raw.states[0].level_data.layer_1.as_mut().unwrap().screen[0].data = "12 qq".to_string();
    assert!(matches!(
        decode_room(&raw),
        Err(Error::MalformedNumericField)
    ));
}

#[test]
fn room_without_first_layer_is_rejected() {
    let mut raw = raw_room();
    raw.states[0].level_data.layer_1 = None;
    assert!(matches!(decode_room(&raw), Err(Error::MalformedDocument)));
}

#[test]
fn missing_argument_counts_as_zero() {
    let mut raw = raw_room();
    raw.states[0].arg = None;
    let room = decode_room(&raw).unwrap();
    assert_eq!(room.states.state[0].arg, 0);
}
