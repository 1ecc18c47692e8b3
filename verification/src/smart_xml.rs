//! The room description model and its metadata decoder.
//!
//! A room document carries its numbers as hexadecimal strings and its tile
//! data as whitespace-separated hexadecimal words.  The embedding
//! application parses the document's element structure into the `Raw*`
//! mirror types, all plain strings; `decode_room` then decodes every scalar
//! and checks the structural contract, yielding the typed [`Room`] model the
//! renderer consumes.

use vstd::prelude::*;
use vstd::arithmetic::div_mod::lemma_fundamental_div_mod;
use vstd::string::StringSliceAdditionalSpecFns;

use crate::Error;
use crate::file_system::views;

verus! {

/// Which source feeds a room's second layer.
#[derive(Clone, Copy, Debug, PartialEq, Eq, Structural)]
pub enum Layer2Type {
    Layer2,
    BGData,
}

/// One 256x256-pixel region of a layer: a grid position in screen units and
/// its tile reference words.
#[derive(Clone, Debug)]
pub struct Screen {
    pub x: usize,
    pub y: usize,
    pub data: Vec<u16>,
}

/// The screens of a room's first layer.
#[derive(Clone, Debug)]
pub struct Layer1 {
    pub screen: Vec<Screen>,
}

/// The screens of a room's second layer.
#[derive(Clone, Debug)]
pub struct Layer2 {
    pub screen: Vec<Screen>,
}

/// A room state's screen-grid tile placement, one set of screens per layer.
#[derive(Clone, Debug)]
pub struct LevelData {
    pub layer_1: Layer1,
    pub layer_2: Layer2,
}

/// One typed data block of a background descriptor.  Only blocks whose type
/// is `DECOMP` contribute tile words to the rendering.
#[derive(Clone, Debug)]
pub struct BGDataData {
    pub type_: String,
    pub source: Vec<u32>,
    pub dest: String,
    pub size: String,
}

/// A room state's background descriptor: a list of typed data blocks.
#[derive(Clone, Debug)]
pub struct BGData {
    pub data: Vec<BGDataData>,
}

/// One rendering variant of a room.
#[derive(Clone, Debug)]
pub struct RoomState {
    pub condition: String,
    pub arg: usize,
    pub gfx_set: usize,
    pub level_data: LevelData,
    pub bg_data: BGData,
}

/// The non-empty list of a room's states.
#[derive(Clone, Debug)]
pub struct RoomStateList {
    pub state: Vec<RoomState>,
}

/// A room: its size in screen-grid units and its states.
#[derive(Clone, Debug)]
pub struct Room {
    pub width: usize,
    pub height: usize,
    pub states: RoomStateList,
}

/// A screen as it stands in the document: grid position and tile words as
/// hexadecimal text.
#[derive(Clone, Debug)]
pub struct RawScreen {
    pub x: String,
    pub y: String,
    pub data: String,
}

/// A layer as it stands in the document.
#[derive(Clone, Debug)]
pub struct RawLayer {
    pub screen: Vec<RawScreen>,
}

/// Level data as it stands in the document.  The first layer is required;
/// a missing second layer renders blank.
#[derive(Clone, Debug)]
pub struct RawLevelData {
    pub layer_1: Option<RawLayer>,
    pub layer_2: Option<RawLayer>,
}

/// A background data block as it stands in the document.
#[derive(Clone, Debug)]
pub struct RawBGDataData {
    pub type_: String,
    pub source: Option<String>,
    pub dest: String,
    pub size: String,
}

/// A background descriptor as it stands in the document.
#[derive(Clone, Debug)]
pub struct RawBGData {
    pub data: Vec<RawBGDataData>,
}

/// A room state as it stands in the document.  A missing argument counts
/// as zero.
#[derive(Clone, Debug)]
pub struct RawRoomState {
    pub condition: String,
    pub arg: Option<String>,
    pub gfx_set: String,
    pub level_data: RawLevelData,
    pub bg_data: RawBGData,
}

/// A room as it stands in the document.
#[derive(Clone, Debug)]
pub struct RawRoom {
    pub width: String,
    pub height: String,
    pub states: Vec<RawRoomState>,
}

/// Whether `b` is an ASCII hexadecimal digit.
pub open spec fn spec_is_hex_digit(b: u8) -> bool {
    (48 <= b && b <= 57) || (97 <= b && b <= 102) || (65 <= b && b <= 70)
}

/// The value of an ASCII hexadecimal digit.
pub open spec fn spec_hex_digit_val(b: u8) -> nat {
    if 48 <= b && b <= 57 {
        (b - 48) as nat
    } else if 97 <= b && b <= 102 {
        (b - 87) as nat
    } else if 65 <= b && b <= 70 {
        (b - 55) as nat
    } else {
        0
    }
}

/// Base-16 parsing of a digit run, accumulating onto `acc`; `None` when a
/// non-digit appears.
pub open spec fn spec_parse_hex_digits(b: Seq<u8>, acc: nat) -> Option<nat>
    decreases b.len(),
{
    if b.len() == 0 {
        Some(acc)
    } else if spec_is_hex_digit(b[0]) {
        spec_parse_hex_digits(b.drop_first(), acc * 16 + spec_hex_digit_val(b[0]))
    } else {
        None
    }
}

/// Base-16 integer parsing of a whole field: an optional leading `+`, then
/// one or more hexadecimal digits.
pub open spec fn spec_parse_hex(b: Seq<u8>) -> Option<nat> {
    let digits = if b.len() > 0 && b[0] == 43 {
        b.drop_first()
    } else {
        b
    };
    if digits.len() == 0 {
        None
    } else {
        spec_parse_hex_digits(digits, 0)
    }
}

/// The parsed value of a field, zero when it does not parse.
pub open spec fn spec_hex_val(b: Seq<u8>) -> nat {
    match spec_parse_hex(b) {
        Some(n) => n,
        None => 0,
    }
}

/// Whether a field parses to a value no greater than `max`.
pub open spec fn spec_hex_ok(b: Seq<u8>, max: nat) -> bool {
    spec_parse_hex(b) matches Some(n) && n <= max
}

/// Whether `b` is an ASCII whitespace byte.
pub open spec fn spec_is_ws(b: u8) -> bool {
    b == 32 || b == 9 || b == 10 || b == 12 || b == 13
}

/// Splitting helper for whitespace-separated tokens.
pub open spec fn spec_split_ws_acc(p: Seq<u8>, cur: Seq<u8>, acc: Seq<Seq<u8>>) -> Seq<Seq<u8>>
    decreases p.len(),
{
    if p.len() == 0 {
        if cur.len() > 0 {
            acc.push(cur)
        } else {
            acc
        }
    } else if spec_is_ws(p[0]) {
        spec_split_ws_acc(
            p.drop_first(),
            Seq::empty(),
            if cur.len() > 0 {
                acc.push(cur)
            } else {
                acc
            },
        )
    } else {
        spec_split_ws_acc(p.drop_first(), cur.push(p[0]), acc)
    }
}

/// The whitespace-separated tokens of a field, in order.
pub open spec fn spec_tokens(b: Seq<u8>) -> Seq<Seq<u8>> {
    spec_split_ws_acc(b, Seq::empty(), Seq::empty())
}

/// Whether every token of a word-list field parses to at most `max`.
pub open spec fn spec_hex_words_ok(b: Seq<u8>, max: nat) -> bool {
    forall|i: int|
        0 <= i < spec_tokens(b).len() ==> spec_hex_ok(#[trigger] spec_tokens(b)[i], max)
}

/// The 16-bit values of a word-list field.
pub open spec fn spec_words_vals_u16(b: Seq<u8>) -> Seq<u16> {
    Seq::new(spec_tokens(b).len(), |i: int| spec_hex_val(spec_tokens(b)[i]) as u16)
}

/// The 32-bit values of a word-list field.
pub open spec fn spec_words_vals_u32(b: Seq<u8>) -> Seq<u32> {
    Seq::new(spec_tokens(b).len(), |i: int| spec_hex_val(spec_tokens(b)[i]) as u32)
}

/// A digit run parses to at least its accumulator.
proof fn lemma_hex_digits_lower_bound(b: Seq<u8>, acc: nat)
    ensures
        spec_parse_hex_digits(b, acc) matches Some(n) ==> n >= acc,
    decreases b.len(),
{
    if b.len() > 0 && spec_is_hex_digit(b[0]) {
        lemma_hex_digits_lower_bound(b.drop_first(), acc * 16 + spec_hex_digit_val(b[0]));
    }
}

/// The value of one hexadecimal digit byte, or `None`.
fn hex_digit_val(b: u8) -> (r: Option<u8>)
    ensures
        r is Some <==> spec_is_hex_digit(b),
        r matches Some(d) ==> d as nat == spec_hex_digit_val(b) && d < 16,
{
    if 48 <= b && b <= 57 {
        Some(b - 48)
    } else if 97 <= b && b <= 102 {
        Some(b - 87)
    } else if 65 <= b && b <= 70 {
        Some(b - 55)
    } else {
        None
    }
}

/// Parse a hexadecimal field, accepting only values up to `max`.
fn parse_hex_value(b: &[u8], max: u128) -> (r: Option<u128>)
    ensures
        match r {
            Some(v) => spec_parse_hex(b@) == Some(v as nat) && v <= max,
            None => !spec_hex_ok(b@, max as nat),
        },
{
    let n = b.len();
    let start: usize = if n > 0 && b[0] == 43 {
        1
    } else {
        0
    };
    if start >= n {
        return None;
    }
    let ghost digits = b@.skip(start as int);
    proof {
        if start == 1 {
            assert(b@.drop_first() =~= b@.skip(1));
        } else {
            assert(b@.skip(0) =~= b@);
        }
        assert(digits.len() > 0);
        assert(spec_parse_hex(b@) == spec_parse_hex_digits(digits, 0));
    }
    let mut acc: u128 = 0;
    let mut i: usize = start;
    while i < n
        invariant
            start <= i <= n,
            n == b@.len(),
            acc <= max,
            spec_parse_hex(b@) == spec_parse_hex_digits(b@.skip(i as int), acc as nat),
        decreases n - i,
    {
        proof {
            assert(b@.skip(i as int).drop_first() =~= b@.skip(i as int + 1));
            assert(b@.skip(i as int)[0] == b@[i as int]);
        }
        match hex_digit_val(b[i]) {
            None => {
                return None;
            },
            Some(d) => {
                if (d as u128) > max || acc > (max - d as u128) / 16 {
                    proof {
                        let a16 = (acc as nat) * 16 + spec_hex_digit_val(b@[i as int]);
                        if (d as u128) <= max {
                            let q = (max - d as u128) as int;
                            lemma_fundamental_div_mod(q, 16);
                            assert(a16 > max);
                        } else {
                            assert(a16 > max);
                        }
                        lemma_hex_digits_lower_bound(b@.skip(i as int + 1), a16);
                    }
                    return None;
                }
                proof {
                    let q = (max - d as u128) as int;
                    lemma_fundamental_div_mod(q, 16);
                    assert((acc as nat) * 16 + (d as nat) <= max);
                }
                acc = acc * 16 + d as u128;
            },
        }
        i = i + 1;
    }
    proof {
        assert(b@.skip(n as int) =~= Seq::<u8>::empty());
    }
    Some(acc)
}

/// Whether `b` is ASCII whitespace.
fn is_ws(b: u8) -> (r: bool)
    ensures
        r == spec_is_ws(b),
{
    b == 32 || b == 9 || b == 10 || b == 12 || b == 13
}

/// Split a field into its whitespace-separated tokens.
fn tokenize(b: &[u8]) -> (r: Vec<Vec<u8>>)
    ensures
        views(r@) == spec_tokens(b@),
{
    let mut out: Vec<Vec<u8>> = Vec::new();
    let mut cur: Vec<u8> = Vec::new();
    let mut i: usize = 0;
    proof {
        assert(b@.skip(0) =~= b@);
        assert(views(out@) =~= Seq::<Seq<u8>>::empty());
    }
    while i < b.len()
        invariant
            i <= b@.len(),
            spec_tokens(b@) == spec_split_ws_acc(b@.skip(i as int), cur@, views(out@)),
        decreases b@.len() - i,
    {
        proof {
            assert(b@.skip(i as int).drop_first() =~= b@.skip(i as int + 1));
            assert(b@.skip(i as int)[0] == b@[i as int]);
        }
        let ghost acc_pre = views(out@);
        let ghost cur_pre = cur@;
        if is_ws(b[i]) {
            if cur.len() > 0 {
                out.push(cur);
                proof {
                    assert(views(out@) =~= acc_pre.push(cur_pre));
                }
            }
            cur = Vec::new();
        } else {
            cur.push(b[i]);
        }
        i = i + 1;
    }
    proof {
        assert(b@.skip(b@.len() as int) =~= Seq::<u8>::empty());
    }
    let ghost acc_end = views(out@);
    let ghost cur_end = cur@;
    if cur.len() > 0 {
        out.push(cur);
        proof {
            assert(views(out@) =~= acc_end.push(cur_end));
        }
    }
    out
}

/// Decode a hexadecimal scalar field, as the document carries widths,
/// heights, state arguments and graphics-set ids.
pub fn from_hex(s: &str) -> (r: Result<usize, Error>)
    ensures
        r is Ok <==> spec_hex_ok(s.spec_bytes(), usize::MAX as nat),
        r matches Ok(v) ==> v as nat == spec_hex_val(s.spec_bytes()),
        r matches Err(e) ==> e == Error::MalformedNumericField,
{
    match parse_hex_value(s.as_bytes(), usize::MAX as u128) {
        Some(v) => Ok(v as usize),
        None => Err(Error::MalformedNumericField),
    }
}

/// Decode a whitespace-separated list of 16-bit hexadecimal words.
pub fn from_hex_words(s: &str) -> (r: Result<Vec<u16>, Error>)
    ensures
        r is Ok <==> spec_hex_words_ok(s.spec_bytes(), u16::MAX as nat),
        r matches Ok(v) ==> v@ == spec_words_vals_u16(s.spec_bytes()),
        r matches Err(e) ==> e == Error::MalformedNumericField,
{
    let b = s.as_bytes();
    let toks = tokenize(b);
    let ghost tb = spec_tokens(s.spec_bytes());
    let mut out: Vec<u16> = Vec::new();
    let mut j: usize = 0;
    while j < toks.len()
        invariant
            j <= toks@.len(),
            views(toks@) == tb,
            tb == spec_tokens(s.spec_bytes()),
            out@.len() == j,
            forall|k: int| 0 <= k < j ==> spec_hex_ok(#[trigger] tb[k], u16::MAX as nat),
            forall|k: int|
                0 <= k < j ==> out@[k] as nat == spec_hex_val(#[trigger] tb[k]),
        decreases toks@.len() - j,
    {
        match parse_hex_value(toks[j].as_slice(), 0xFFFF) {
            Some(v) => {
                out.push(v as u16);
            },
            None => {
                proof {
                    assert(!spec_hex_words_ok(s.spec_bytes(), u16::MAX as nat)) by {
                        if spec_hex_words_ok(s.spec_bytes(), u16::MAX as nat) {
                            assert(spec_hex_ok(tb[j as int], u16::MAX as nat));
                        }
                    }
                }
                return Err(Error::MalformedNumericField);
            },
        }
        j = j + 1;
    }
    proof {
        assert(out@ =~= spec_words_vals_u16(s.spec_bytes()));
    }
    Ok(out)
}

/// Decode a whitespace-separated list of 32-bit hexadecimal words.
pub fn from_hex_words_u32(s: &str) -> (r: Result<Vec<u32>, Error>)
    ensures
        r is Ok <==> spec_hex_words_ok(s.spec_bytes(), u32::MAX as nat),
        r matches Ok(v) ==> v@ == spec_words_vals_u32(s.spec_bytes()),
        r matches Err(e) ==> e == Error::MalformedNumericField,
{
    let b = s.as_bytes();
    let toks = tokenize(b);
    let ghost tb = spec_tokens(s.spec_bytes());
    let mut out: Vec<u32> = Vec::new();
    let mut j: usize = 0;
    while j < toks.len()
        invariant
            j <= toks@.len(),
            views(toks@) == tb,
            tb == spec_tokens(s.spec_bytes()),
            out@.len() == j,
            forall|k: int| 0 <= k < j ==> spec_hex_ok(#[trigger] tb[k], u32::MAX as nat),
            forall|k: int|
                0 <= k < j ==> out@[k] as nat == spec_hex_val(#[trigger] tb[k]),
        decreases toks@.len() - j,
    {
        match parse_hex_value(toks[j].as_slice(), 0xFFFF_FFFF) {
            Some(v) => {
                out.push(v as u32);
            },
            None => {
                proof {
                    assert(!spec_hex_words_ok(s.spec_bytes(), u32::MAX as nat)) by {
                        if spec_hex_words_ok(s.spec_bytes(), u32::MAX as nat) {
                            assert(spec_hex_ok(tb[j as int], u32::MAX as nat));
                        }
                    }
                }
                return Err(Error::MalformedNumericField);
            },
        }
        j = j + 1;
    }
    proof {
        assert(out@ =~= spec_words_vals_u32(s.spec_bytes()));
    }
    Ok(out)
}

/// The UTF-8 bytes of an owned string field.
pub open spec fn spec_str_bytes(s: String) -> Seq<u8> {
    vstd::utf8::encode_utf8(s@)
}

/// Whether a raw screen's fields all decode.
pub open spec fn spec_screen_ok(raw: RawScreen) -> bool {
    &&& spec_hex_ok(spec_str_bytes(raw.x), usize::MAX as nat)
    &&& spec_hex_ok(spec_str_bytes(raw.y), usize::MAX as nat)
    &&& spec_hex_words_ok(spec_str_bytes(raw.data), u16::MAX as nat)
}

/// How a decoded screen relates to its raw form.
pub open spec fn spec_screen_matches(raw: RawScreen, s: Screen) -> bool {
    &&& s.x as nat == spec_hex_val(spec_str_bytes(raw.x))
    &&& s.y as nat == spec_hex_val(spec_str_bytes(raw.y))
    &&& s.data@ == spec_words_vals_u16(spec_str_bytes(raw.data))
}

/// Whether every screen of a raw layer decodes.
pub open spec fn spec_layer_ok(raw: RawLayer) -> bool {
    forall|i: int| 0 <= i < raw.screen@.len() ==> spec_screen_ok(#[trigger] raw.screen@[i])
}

/// How a decoded screen list relates to its raw layer.
pub open spec fn spec_layer_matches(raw: RawLayer, screens: Seq<Screen>) -> bool {
    &&& screens.len() == raw.screen@.len()
    &&& forall|i: int|
        0 <= i < screens.len() ==> spec_screen_matches(raw.screen@[i], #[trigger] screens[i])
}

/// Whether a raw background block decodes.
pub open spec fn spec_block_ok(raw: RawBGDataData) -> bool {
    raw.source matches Some(s) ==> spec_hex_words_ok(spec_str_bytes(s), u32::MAX as nat)
}

/// How a decoded background block relates to its raw form.
pub open spec fn spec_block_matches(raw: RawBGDataData, b: BGDataData) -> bool {
    &&& b.type_@ == raw.type_@
    &&& b.dest@ == raw.dest@
    &&& b.size@ == raw.size@
    &&& b.source@ == (match raw.source {
        Some(s) => spec_words_vals_u32(spec_str_bytes(s)),
        None => Seq::<u32>::empty(),
    })
}

/// Whether every scalar field of a raw room state decodes.
pub open spec fn spec_state_fields_ok(raw: RawRoomState) -> bool {
    &&& (raw.arg matches Some(a) ==> spec_hex_ok(spec_str_bytes(a), usize::MAX as nat))
    &&& spec_hex_ok(spec_str_bytes(raw.gfx_set), usize::MAX as nat)
    &&& (raw.level_data.layer_1 matches Some(l) ==> spec_layer_ok(l))
    &&& (raw.level_data.layer_2 matches Some(l) ==> spec_layer_ok(l))
    &&& forall|i: int|
        0 <= i < raw.bg_data.data@.len() ==> spec_block_ok(#[trigger] raw.bg_data.data@[i])
}

/// Whether a raw room state decodes: its first layer must be present and
/// every field must parse.
pub open spec fn spec_state_ok(raw: RawRoomState) -> bool {
    raw.level_data.layer_1 is Some && spec_state_fields_ok(raw)
}

/// How a decoded room state relates to its raw form.
pub open spec fn spec_state_matches(raw: RawRoomState, st: RoomState) -> bool {
    &&& st.condition@ == raw.condition@
    &&& st.arg as nat == (match raw.arg {
        Some(a) => spec_hex_val(spec_str_bytes(a)),
        None => 0,
    })
    &&& st.gfx_set as nat == spec_hex_val(spec_str_bytes(raw.gfx_set))
    &&& (raw.level_data.layer_1 matches Some(l) && spec_layer_matches(
        l,
        st.level_data.layer_1.screen@,
    ))
    &&& (match raw.level_data.layer_2 {
        Some(l) => spec_layer_matches(l, st.level_data.layer_2.screen@),
        None => st.level_data.layer_2.screen@.len() == 0,
    })
    &&& st.bg_data.data@.len() == raw.bg_data.data@.len()
    &&& forall|i: int|
        0 <= i < st.bg_data.data@.len() ==> spec_block_matches(
            raw.bg_data.data@[i],
            #[trigger] st.bg_data.data@[i],
        )
}

/// Whether every field of a raw room decodes.
pub open spec fn spec_room_fields_ok(raw: RawRoom) -> bool {
    &&& spec_hex_ok(spec_str_bytes(raw.width), usize::MAX as nat)
    &&& spec_hex_ok(spec_str_bytes(raw.height), usize::MAX as nat)
    &&& forall|i: int| 0 <= i < raw.states@.len() ==> spec_state_ok(#[trigger] raw.states@[i])
}

/// Whether a raw room decodes: every field parses and there is at least one
/// state.
pub open spec fn spec_room_ok(raw: RawRoom) -> bool {
    spec_room_fields_ok(raw) && raw.states@.len() >= 1
}

/// How a decoded room relates to its raw form.
pub open spec fn spec_room_matches(raw: RawRoom, room: Room) -> bool {
    &&& room.width as nat == spec_hex_val(spec_str_bytes(raw.width))
    &&& room.height as nat == spec_hex_val(spec_str_bytes(raw.height))
    &&& room.states.state@.len() == raw.states@.len()
    &&& forall|i: int|
        0 <= i < raw.states@.len() ==> spec_state_matches(
            raw.states@[i],
            #[trigger] room.states.state@[i],
        )
}

/// Decode one screen of a layer.
pub fn decode_screen(raw: &RawScreen) -> (r: Result<Screen, Error>)
    ensures
        r is Ok <==> spec_screen_ok(*raw),
        r matches Ok(s) ==> spec_screen_matches(*raw, s),
        r matches Err(e) ==> e == Error::MalformedNumericField,
{
    let x = match from_hex(raw.x.as_str()) {
        Ok(v) => v,
        Err(e) => {
            return Err(e);
        },
    };
    let y = match from_hex(raw.y.as_str()) {
        Ok(v) => v,
        Err(e) => {
            return Err(e);
        },
    };
    let data = match from_hex_words(raw.data.as_str()) {
        Ok(v) => v,
        Err(e) => {
            return Err(e);
        },
    };
    Ok(Screen { x, y, data })
}

/// Decode the screens of one layer.
pub fn decode_layer(raw: &RawLayer) -> (r: Result<Vec<Screen>, Error>)
    ensures
        r is Ok <==> spec_layer_ok(*raw),
        r matches Ok(v) ==> spec_layer_matches(*raw, v@),
        r matches Err(e) ==> e == Error::MalformedNumericField,
{
    let mut screens: Vec<Screen> = Vec::new();
    let mut i: usize = 0;
    while i < raw.screen.len()
        invariant
            i <= raw.screen@.len(),
            screens@.len() == i,
            forall|k: int| 0 <= k < i ==> spec_screen_ok(#[trigger] raw.screen@[k]),
            forall|k: int|
                0 <= k < i ==> spec_screen_matches(raw.screen@[k], #[trigger] screens@[k]),
        decreases raw.screen@.len() - i,
    {
        match decode_screen(&raw.screen[i]) {
            Ok(s) => {
                screens.push(s);
            },
            Err(e) => {
                proof {
                    assert(!spec_layer_ok(*raw)) by {
                        if spec_layer_ok(*raw) {
                            assert(spec_screen_ok(raw.screen@[i as int]));
                        }
                    }
                }
                return Err(e);
            },
        }
        i = i + 1;
    }
    Ok(screens)
}

/// Decode one background data block.
pub fn decode_bg_block(raw: &RawBGDataData) -> (r: Result<BGDataData, Error>)
    ensures
        r is Ok <==> spec_block_ok(*raw),
        r matches Ok(b) ==> spec_block_matches(*raw, b),
        r matches Err(e) ==> e == Error::MalformedNumericField,
{
    let source: Vec<u32> = match &raw.source {
        Some(s) => match from_hex_words_u32(s.as_str()) {
            Ok(v) => v,
            Err(e) => {
                return Err(e);
            },
        },
        None => Vec::new(),
    };
    Ok(
        BGDataData {
            type_: raw.type_.clone(),
            source,
            dest: raw.dest.clone(),
            size: raw.size.clone(),
        },
    )
}

/// Decode one room state.
pub fn decode_state(raw: &RawRoomState) -> (r: Result<RoomState, Error>)
    ensures
        r is Ok <==> spec_state_ok(*raw),
        r matches Ok(st) ==> spec_state_matches(*raw, st),
        r matches Err(e) ==> e == if raw.level_data.layer_1 is None {
            Error::MalformedDocument
        } else {
            Error::MalformedNumericField
        },
{
    let layer_1_screens = match &raw.level_data.layer_1 {
        None => {
            return Err(Error::MalformedDocument);
        },
        Some(l1) => match decode_layer(l1) {
            Ok(v) => v,
            Err(e) => {
                return Err(e);
            },
        },
    };
    let arg = match &raw.arg {
        Some(a) => match from_hex(a.as_str()) {
            Ok(v) => v,
            Err(e) => {
                return Err(e);
            },
        },
        None => 0,
    };
    let gfx_set = match from_hex(raw.gfx_set.as_str()) {
        Ok(v) => v,
        Err(e) => {
            return Err(e);
        },
    };
    let layer_2_screens = match &raw.level_data.layer_2 {
        Some(l2) => match decode_layer(l2) {
            Ok(v) => v,
            Err(e) => {
                return Err(e);
            },
        },
        None => Vec::new(),
    };
    let mut blocks: Vec<BGDataData> = Vec::new();
    let mut i: usize = 0;
    while i < raw.bg_data.data.len()
        invariant
            i <= raw.bg_data.data@.len(),
            raw.level_data.layer_1 is Some,
            blocks@.len() == i,
            forall|k: int| 0 <= k < i ==> spec_block_ok(#[trigger] raw.bg_data.data@[k]),
            forall|k: int|
                0 <= k < i ==> spec_block_matches(raw.bg_data.data@[k], #[trigger] blocks@[k]),
        decreases raw.bg_data.data@.len() - i,
    {
        match decode_bg_block(&raw.bg_data.data[i]) {
            Ok(b) => {
                blocks.push(b);
            },
            Err(e) => {
                proof {
                    assert(!spec_state_fields_ok(*raw)) by {
                        if spec_state_fields_ok(*raw) {
                            assert(spec_block_ok(raw.bg_data.data@[i as int]));
                        }
                    }
                }
                return Err(e);
            },
        }
        i = i + 1;
    }
    Ok(
        RoomState {
            condition: raw.condition.clone(),
            arg,
            gfx_set,
            level_data: LevelData {
                layer_1: Layer1 { screen: layer_1_screens },
                layer_2: Layer2 { screen: layer_2_screens },
            },
            bg_data: BGData { data: blocks },
        },
    )
}

/// Decode a whole raw room document into the typed room model.
///
/// Succeeds exactly when every hexadecimal field parses, every state has its
/// first layer, and there is at least one state.
pub fn decode_room(raw: &RawRoom) -> (r: Result<Room, Error>)
    ensures
        r is Ok <==> spec_room_ok(*raw),
        r matches Ok(room) ==> spec_room_matches(*raw, room),
        r matches Err(e) ==> (e == Error::MalformedNumericField || e == Error::MalformedDocument
            || e == Error::EmptyRoomStateList),
        r == Err::<Room, Error>(Error::EmptyRoomStateList) <==> (spec_room_fields_ok(*raw)
            && raw.states@.len() == 0),
{
    let width = match from_hex(raw.width.as_str()) {
        Ok(v) => v,
        Err(e) => {
            return Err(e);
        },
    };
    let height = match from_hex(raw.height.as_str()) {
        Ok(v) => v,
        Err(e) => {
            return Err(e);
        },
    };
    let mut states: Vec<RoomState> = Vec::new();
    let mut i: usize = 0;
    while i < raw.states.len()
        invariant
            i <= raw.states@.len(),
            states@.len() == i,
            forall|k: int| 0 <= k < i ==> spec_state_ok(#[trigger] raw.states@[k]),
            forall|k: int|
                0 <= k < i ==> spec_state_matches(raw.states@[k], #[trigger] states@[k]),
        decreases raw.states@.len() - i,
    {
        match decode_state(&raw.states[i]) {
            Ok(st) => {
                states.push(st);
            },
            Err(e) => {
                proof {
                    assert(!spec_room_fields_ok(*raw)) by {
                        if spec_room_fields_ok(*raw) {
                            assert(spec_state_ok(raw.states@[i as int]));
                        }
                    }
                }
                return Err(e);
            },
        }
        i = i + 1;
    }
    if states.len() == 0 {
        return Err(Error::EmptyRoomStateList);
    }
    Ok(Room { width, height, states: RoomStateList { state: states } })
}

} // verus!
