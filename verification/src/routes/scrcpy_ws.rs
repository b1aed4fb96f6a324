use vstd::prelude::*;

use crate::json::{entries_of, json_as_str, json_get, Json, JsonNumber, JsonValue};

verus! {

/// A control message from the browser, as the scrcpy session takes it.
#[derive(PartialEq, Eq, Structural, Clone, Copy, Debug)]
pub enum ControlMessage {
    /// A touch: action, position, screen size and pressure.
    Touch { action: u8, x: u32, y: u32, width: u16, height: u16, pressure: u16 },
    /// A key: action and Android key code.
    Key { action: u8, keycode: u32 },
    /// Anything else, which is passed over.
    Ignored,
}

/// The big-endian `u32` at offset `o` of `d`.
pub open spec fn be_u32_at(d: Seq<u8>, o: int) -> int {
    d[o] * 16777216 + d[o + 1] * 65536 + d[o + 2] * 256 + d[o + 3]
}

/// The big-endian `u16` at offset `o` of `d`.
pub open spec fn be_u16_at(d: Seq<u8>, o: int) -> int {
    d[o] * 256 + d[o + 1]
}

/// What a binary message from the browser asks for: type 2 with at least 28
/// bytes is a touch, type 0 with at least 14 bytes is a key.
pub open spec fn decode_spec(d: Seq<u8>) -> ControlMessage {
    if d.len() >= 2 && d[0] == 2 && d.len() >= 28 {
        ControlMessage::Touch {
            action: d[1],
            x: be_u32_at(d, 10) as u32,
            y: be_u32_at(d, 14) as u32,
            width: be_u16_at(d, 18) as u16,
            height: be_u16_at(d, 20) as u16,
            pressure: be_u16_at(d, 22) as u16,
        }
    } else if d.len() >= 2 && d[0] == 0 && d.len() >= 14 {
        ControlMessage::Key { action: d[1], keycode: be_u32_at(d, 2) as u32 }
    } else {
        ControlMessage::Ignored
    }
}

/// The four big-endian bytes of `n`.
pub open spec fn be32(n: u32) -> Seq<u8> {
    seq![(n / 16777216) as u8, ((n / 65536) % 256) as u8, ((n / 256) % 256) as u8, (n % 256) as u8]
}

/// The binary message that carries a video frame: a flags byte (1 for codec
/// configuration, 2 for a key frame), the size of the data as four
/// big-endian bytes (the length taken modulo 2^32), then the data.
pub open spec fn frame_message(is_config: bool, is_key: bool, data: Seq<u8>) -> Seq<u8> {
    let flags: u8 = ((if is_config { 1int } else { 0int }) + (if is_key { 2int } else { 0int })) as u8;
    seq![flags] + be32(data.len() as u32) + data
}

/// The serial of a device record: its `serial` string, or the empty string.
pub open spec fn serial_spec(device: Json) -> Seq<char> {
    match json_get(device, "serial"@) {
        Some(v) => match json_as_str(v) {
            Some(s) => s,
            None => Seq::empty(),
        },
        None => Seq::empty(),
    }
}

/// The answer to a status request: whether scrcpy can be used for a device.
pub open spec fn status_spec(device: Option<Json>, jar_available: bool) -> Json {
    match device {
        None => Json::Object(seq![("available"@, Json::Bool(false)), ("reason"@, Json::Str("device not found"@))]),
        Some(d) => if serial_spec(d).len() == 0 {
            Json::Object(seq![("available"@, Json::Bool(false)), ("reason"@, Json::Str("no serial"@))])
        } else {
            Json::Object(seq![("available"@, Json::Bool(jar_available)), ("serial"@, Json::Str(serial_spec(d)))])
        },
    }
}

/// The error message sent to the browser.
pub open spec fn error_spec(message: Seq<char>) -> Json {
    Json::Object(seq![("type"@, Json::Str("error"@)), ("message"@, Json::Str(message))])
}

/// Reads a binary control message from the browser.
pub fn decode_control(data: &[u8]) -> (r: ControlMessage)
    ensures
        r == decode_spec(data@),
{
    let n = data.len();
    if n >= 2 && data[0] == 2 && n >= 28 {
        ControlMessage::Touch {
            action: data[1],
            x: be_u32(data, 10),
            y: be_u32(data, 14),
            width: be_u16(data, 18),
            height: be_u16(data, 20),
            pressure: be_u16(data, 22),
        }
    } else if n >= 2 && data[0] == 0 && n >= 14 {
        ControlMessage::Key { action: data[1], keycode: be_u32(data, 2) }
    } else {
        ControlMessage::Ignored
    }
}

/// The big-endian `u32` at `o` (`u32::from_be_bytes`).
fn be_u32(d: &[u8], o: usize) -> (r: u32)
    requires
        o + 4 <= d@.len(),
    ensures
        r as int == be_u32_at(d@, o as int),
{
    (d[o] as u32) * 16777216 + (d[o + 1] as u32) * 65536 + (d[o + 2] as u32) * 256 + (d[o + 3] as u32)
}

/// The big-endian `u16` at `o` (`u16::from_be_bytes`).
fn be_u16(d: &[u8], o: usize) -> (r: u16)
    requires
        o + 2 <= d@.len(),
    ensures
        r as int == be_u16_at(d@, o as int),
{
    (d[o] as u16) * 256 + (d[o + 1] as u16)
}

/// Builds the binary message that carries a video frame.
pub fn encode_frame(is_config: bool, is_key: bool, data: &[u8]) -> (r: Vec<u8>)
    ensures
        r@ == frame_message(is_config, is_key, data@),
{
    let flags: u8 = (if is_config { 1u8 } else { 0u8 }) + (if is_key { 2u8 } else { 0u8 });
    let size: u32 = data.len() as u32;
    let mut msg: Vec<u8> = Vec::new();
    msg.push(flags);
    msg.push((size / 16777216) as u8);
    msg.push(((size / 65536) % 256) as u8);
    msg.push(((size / 256) % 256) as u8);
    msg.push((size % 256) as u8);
    let ghost head = seq![flags] + be32(data@.len() as u32);
    assert(msg@ =~= head);
    let mut i: usize = 0;
    while i < data.len()
        invariant
            i <= data@.len(),
            msg@ == head + data@.take(i as int),
        decreases data@.len() - i,
    {
        msg.push(data[i]);
        i = i + 1;
        assert(msg@ =~= head + data@.take(i as int));
    }
    assert(data@.take(data@.len() as int) =~= data@);
    msg
}

/// The serial of a device record.
pub fn device_serial(device: &JsonValue) -> (r: String)
    ensures
        r@ == serial_spec(device@),
{
    match device.get("serial") {
        Some(v) => match v.as_str() {
            Some(s) => s.to_string(),
            None => String::new(),
        },
        None => String::new(),
    }
}

/// The answer to a status request, for the device record found (if any)
/// and whether the scrcpy server is at hand.
pub fn status_body(device: Option<&JsonValue>, jar_available: bool) -> (r: JsonValue)
    ensures
        r@ == status_spec(
            match device {
                Some(d) => Some(d@),
                None => None,
            },
            jar_available,
        ),
{
    let mut obj: Vec<(String, JsonValue)> = Vec::new();
    match device {
        None => {
            obj.push(("available".to_string(), JsonValue::Bool(false)));
            obj.push(("reason".to_string(), JsonValue::String("device not found".to_string())));
        },
        Some(d) => {
            let serial = device_serial(d);
            if serial.as_str().is_empty() {
                obj.push(("available".to_string(), JsonValue::Bool(false)));
                obj.push(("reason".to_string(), JsonValue::String("no serial".to_string())));
            } else {
                obj.push(("available".to_string(), JsonValue::Bool(jar_available)));
                obj.push(("serial".to_string(), JsonValue::String(serial)));
            }
        },
    }
    let r = JsonValue::Object(obj);
    assert(entries_of(obj@) =~= match status_spec(
        match device {
            Some(d) => Some(d@),
            None => None,
        },
        jar_available,
    ) {
        Json::Object(e) => e,
        _ => Seq::empty(),
    });
    r
}

/// The error message sent to the browser: `{"type": "error", "message": ...}`.
pub fn error_message(message: &str) -> (r: JsonValue)
    ensures
        r@ == error_spec(message@),
{
    let mut obj: Vec<(String, JsonValue)> = Vec::new();
    obj.push(("type".to_string(), JsonValue::String("error".to_string())));
    obj.push(("message".to_string(), JsonValue::String(message.to_string())));
    let r = JsonValue::Object(obj);
    assert(entries_of(obj@) =~= seq![("type"@, Json::Str("error"@)), ("message"@, Json::Str(message@))]);
    r
}

/// The first message of a session: the codec and the screen's size and name.
pub fn init_message(width: u64, height: u64, device_name: &str) -> (r: JsonValue)
    ensures
        r@ == Json::Object(
            seq![
                ("type"@, Json::Str("init"@)),
                ("codec"@, Json::Str("h264"@)),
                ("width"@, Json::Number(JsonNumber::PosInt(width))),
                ("height"@, Json::Number(JsonNumber::PosInt(height))),
                ("deviceName"@, Json::Str(device_name@)),
            ],
        ),
{
    let mut obj: Vec<(String, JsonValue)> = Vec::new();
    obj.push(("type".to_string(), JsonValue::String("init".to_string())));
    obj.push(("codec".to_string(), JsonValue::String("h264".to_string())));
    obj.push(("width".to_string(), JsonValue::Number(JsonNumber::PosInt(width))));
    obj.push(("height".to_string(), JsonValue::Number(JsonNumber::PosInt(height))));
    obj.push(("deviceName".to_string(), JsonValue::String(device_name.to_string())));
    let r = JsonValue::Object(obj);
    assert(entries_of(obj@) =~= seq![
        ("type"@, Json::Str("init"@)),
        ("codec"@, Json::Str("h264"@)),
        ("width"@, Json::Number(JsonNumber::PosInt(width))),
        ("height"@, Json::Number(JsonNumber::PosInt(height))),
        ("deviceName"@, Json::Str(device_name@)),
    ]);
    r
}

/// The size field of a video frame message, read back as a big-endian
/// `u32` (the way the control channel reads its fields), gives the length of
/// the frame's data (modulo 2^32), and the data follows it unchanged.
pub proof fn lemma_frame_size_readable(is_config: bool, is_key: bool, data: Seq<u8>)
    ensures
        frame_message(is_config, is_key, data).len() == data.len() + 5,
        be_u32_at(frame_message(is_config, is_key, data), 1) == (data.len() as u32) as int,
        frame_message(is_config, is_key, data).subrange(5, data.len() as int + 5) == data,
{
    let m = frame_message(is_config, is_key, data);
    let n: u32 = data.len() as u32;
    assert(m[1] == (n / 16777216) as u8);
    assert(m[2] == ((n / 65536) % 256) as u8);
    assert(m[3] == ((n / 256) % 256) as u8);
    assert(m[4] == (n % 256) as u8);
    assert((n / 16777216) < 256) by (nonlinear_arith);
    assert(((n / 16777216) as u8) as int * 16777216 + (((n / 65536) % 256) as u8) as int * 65536 + (((n / 256) % 256) as u8) as int * 256 + ((n % 256) as u8) as int == n as int) by (bit_vector);
    assert(m.subrange(5, data.len() as int + 5) =~= data);
}

/// A key message from the browser (type byte 0, at least 14 bytes) is sent
/// on with byte 1 as the key action (0 for down, 1 for up, ...) and bytes 2
/// to 5, big-endian, as the Android key code; a touch message (type byte 2,
/// at least 28 bytes) with byte 1 as its action, its position at bytes 10
/// to 13 and 14 to 17, the screen size at 18 to 21 and the pressure at 22
/// and 23; anything else is passed over.
pub proof fn lemma_control_fields(d: Seq<u8>)
    ensures
        d.len() >= 14 && d[0] == 0 ==> (decode_spec(d) matches ControlMessage::Key { action, keycode } && action
            == d[1] && keycode as int == ((d[2] as int * 256 + d[3] as int) * 256 + d[4] as int) * 256 + d[5] as int),
        d.len() >= 28 && d[0] == 2 ==> (decode_spec(d) matches ControlMessage::Touch {
            action,
            x,
            y,
            width,
            height,
            pressure,
        } && action == d[1] && x as int == ((d[10] as int * 256 + d[11] as int) * 256 + d[12] as int) * 256
            + d[13] as int && y as int == ((d[14] as int * 256 + d[15] as int) * 256 + d[16] as int) * 256
            + d[17] as int && width as int == d[18] as int * 256 + d[19] as int && height as int == d[20] as int
            * 256 + d[21] as int && pressure as int == d[22] as int * 256 + d[23] as int),
        d.len() < 14 || (d[0] != 0 && d[0] != 2) ==> decode_spec(d) == ControlMessage::Ignored,
{
    if d.len() >= 14 && d[0] == 0 {
        let v = ((d[2] as int * 256 + d[3] as int) * 256 + d[4] as int) * 256 + d[5] as int;
        assert(0 <= v < 0x1_0000_0000) by (nonlinear_arith)
            requires
                0 <= d[2] < 256,
                0 <= d[3] < 256,
                0 <= d[4] < 256,
                0 <= d[5] < 256,
                v == ((d[2] as int * 256 + d[3] as int) * 256 + d[4] as int) * 256 + d[5] as int,
        ;
        assert(be_u32_at(d, 2) == v);
    }
    if d.len() >= 28 && d[0] == 2 {
        let x = ((d[10] as int * 256 + d[11] as int) * 256 + d[12] as int) * 256 + d[13] as int;
        let y = ((d[14] as int * 256 + d[15] as int) * 256 + d[16] as int) * 256 + d[17] as int;
        assert(0 <= x < 0x1_0000_0000) by (nonlinear_arith)
            requires
                0 <= d[10] < 256,
                0 <= d[11] < 256,
                0 <= d[12] < 256,
                0 <= d[13] < 256,
                x == ((d[10] as int * 256 + d[11] as int) * 256 + d[12] as int) * 256 + d[13] as int,
        ;
        assert(0 <= y < 0x1_0000_0000) by (nonlinear_arith)
            requires
                0 <= d[14] < 256,
                0 <= d[15] < 256,
                0 <= d[16] < 256,
                0 <= d[17] < 256,
                y == ((d[14] as int * 256 + d[15] as int) * 256 + d[16] as int) * 256 + d[17] as int,
        ;
        assert(be_u32_at(d, 10) == x);
        assert(be_u32_at(d, 14) == y);
        assert(0 <= be_u16_at(d, 18) < 0x10000 && 0 <= be_u16_at(d, 20) < 0x10000 && 0 <= be_u16_at(d, 22)
            < 0x10000);
    }
}

} // verus!
