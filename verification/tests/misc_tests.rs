use cloudcontrol::config::{default_db_name, default_db_type, default_port, DbConfig, ServerConfig};
use cloudcontrol::json::{JsonNumber, JsonValue};
use cloudcontrol::pool::batch_processor::{
    collect_step, dispatch, group_by_event_type, no_handler_error, reply_plan, CollectAction, Collected, Dispatch,
};
use cloudcontrol::services::scrcpy_manager::{PushedDevices, ReadyStep};
use cloudcontrol::routes::scrcpy_ws::{
    decode_control, device_serial, encode_frame, error_message, init_message, status_body, ControlMessage,
};
use cloudcontrol::services::file_service::install_file_record;

#[test]
fn config_defaults() {
    assert_eq!(default_port(), 8000);
    assert_eq!(ServerConfig::default().port, 8000);
    let db = DbConfig::default();
    assert_eq!(db.db_name, "cloudcontrol.db");
    assert_eq!(db.db_type, "sqlite");
    assert!(db.user.is_none() && db.passwd.is_none() && db.db_name1.is_none());
    assert_eq!(default_db_type(), "sqlite");
    assert_eq!(default_db_name(), "cloudcontrol.db");
}

fn strings(v: &[&str]) -> Vec<String> {
    v.iter().map(|x| x.to_string()).collect()
}

#[test]
fn batch_grouping_by_first_appearance() {
    let groups = group_by_event_type(&strings(&["b", "a", "b", "c", "a", "b"]));
    assert_eq!(
        groups,
        vec![
            ("b".to_string(), vec![0, 2, 5]),
            ("a".to_string(), vec![1, 4]),
            ("c".to_string(), vec![3]),
        ]
    );
    assert!(group_by_event_type(&vec![]).is_empty());
}

#[test]
fn batch_collecting_decisions() {
    assert_eq!(collect_step(0, 10, Collected::Nothing), CollectAction::Receive);
    assert_eq!(collect_step(10, 10, Collected::Item), CollectAction::Process);
    assert_eq!(collect_step(3, 10, Collected::TimedOut), CollectAction::Process);
    assert_eq!(collect_step(0, 10, Collected::TimedOut), CollectAction::Restart);
    assert_eq!(collect_step(3, 10, Collected::Closed), CollectAction::Stop);
    assert_eq!(collect_step(0, 0, Collected::Nothing), CollectAction::Restart);
    assert_eq!(no_handler_error("unknown_event"), "No handler for event: unknown_event");
    assert!(no_handler_error("x").contains("No handler"));
}

#[test]
fn control_messages_decoded() {
    let mut touch = vec![0u8; 28];
    touch[0] = 2;
    touch[1] = 1;
    touch[10..14].copy_from_slice(&300u32.to_be_bytes());
    touch[14..18].copy_from_slice(&70000u32.to_be_bytes());
    touch[18..20].copy_from_slice(&1080u16.to_be_bytes());
    touch[20..22].copy_from_slice(&1920u16.to_be_bytes());
    touch[22..24].copy_from_slice(&0xffffu16.to_be_bytes());
    assert_eq!(
        decode_control(&touch),
        ControlMessage::Touch { action: 1, x: 300, y: 70000, width: 1080, height: 1920, pressure: 0xffff }
    );
    assert_eq!(decode_control(&touch[..27]), ControlMessage::Ignored);
    let mut key = vec![0u8; 14];
    key[1] = 0;
    key[2..6].copy_from_slice(&66u32.to_be_bytes());
    assert_eq!(decode_control(&key), ControlMessage::Key { action: 0, keycode: 66 });
    assert_eq!(decode_control(&[5, 1, 2, 3]), ControlMessage::Ignored);
    assert_eq!(decode_control(&[2]), ControlMessage::Ignored);
}

#[test]
fn video_frames_encoded() {
    assert_eq!(encode_frame(true, false, &[9, 8]), vec![1, 0, 0, 0, 2, 9, 8]);
    assert_eq!(encode_frame(false, true, &[]), vec![2, 0, 0, 0, 0]);
    assert_eq!(encode_frame(true, true, &[0; 300])[..5], [3, 0, 0, 1, 44]);
}

fn obj(entries: Vec<(&str, JsonValue)>) -> JsonValue {
    JsonValue::Object(entries.into_iter().map(|(k, v)| (k.to_string(), v)).collect())
}

fn s(v: &str) -> JsonValue {
    JsonValue::String(v.to_string())
}

#[test]
fn scrcpy_status_answers() {
    assert_eq!(
        status_body(None, true),
        obj(vec![("available", JsonValue::Bool(false)), ("reason", s("device not found"))])
    );
    let no_serial = obj(vec![("udid", s("u")), ("serial", JsonValue::Null)]);
    assert_eq!(
        status_body(Some(&no_serial), true),
        obj(vec![("available", JsonValue::Bool(false)), ("reason", s("no serial"))])
    );
    let dev = obj(vec![("serial", s("S1"))]);
    assert_eq!(
        status_body(Some(&dev), false),
        obj(vec![("available", JsonValue::Bool(false)), ("serial", s("S1"))])
    );
    assert_eq!(device_serial(&dev), "S1");
    assert_eq!(device_serial(&JsonValue::Null), "");
    assert_eq!(
        error_message("Device not found"),
        obj(vec![("type", s("error")), ("message", s("Device not found"))])
    );
    assert_eq!(
        init_message(1080, 2400, "Pixel"),
        obj(vec![
            ("type", s("init")),
            ("codec", s("h264")),
            ("width", JsonValue::Number(JsonNumber::PosInt(1080))),
            ("height", JsonValue::Number(JsonNumber::PosInt(2400))),
            ("deviceName", s("Pixel")),
        ])
    );
}

#[test]
fn install_file_record_fields() {
    let file = obj(vec![
        ("filename", s("test.apk")),
        ("filesize", JsonValue::Number(JsonNumber::PosInt(2048))),
        ("group", s("0")),
        ("upload_time", s("2024-01-01 12:00:00")),
        ("who", s("admin")),
    ]);
    let r = install_file_record(&file);
    assert_eq!(r.group, "0");
    assert_eq!(r.filename, "test.apk");
    assert_eq!(r.filesize, Some(2048));
    assert_eq!(r.upload_time, "2024-01-01 12:00:00");
    assert_eq!(r.who, "admin");
    assert!(r.extra.is_none());
}

#[test]
fn install_file_record_numeric_group_and_extra() {
    let file = obj(vec![
        ("group", JsonValue::Number(JsonNumber::PosInt(5))),
        ("md5", s("abc")),
        ("filename", JsonValue::Bool(true)),
        ("tags", JsonValue::Array(vec![])),
    ]);
    let r = install_file_record(&file);
    assert_eq!(r.group, "0");
    assert_eq!(r.filename, "");
    assert_eq!(r.filesize, None);
    assert_eq!(r.who, "");
    assert_eq!(
        r.extra,
        Some(vec![("md5".to_string(), s("abc")), ("tags".to_string(), JsonValue::Array(vec![]))])
    );
    let not_object = install_file_record(&JsonValue::Null);
    assert_eq!(not_object.group, "");
    assert!(not_object.extra.is_none());
    let other_group = install_file_record(&obj(vec![("group", JsonValue::Bool(false))]));
    assert_eq!(other_group.group, "");
}

#[test]
fn frame_size_field_reads_back() {
    for len in [0usize, 1, 255, 256, 70000] {
        let data = vec![7u8; len];
        let msg = encode_frame(false, false, &data);
        assert_eq!(msg.len(), len + 5);
        assert_eq!(u32::from_be_bytes([msg[1], msg[2], msg[3], msg[4]]) as usize, len);
        assert_eq!(&msg[5..], &data[..]);
    }
}

#[test]
fn every_event_grouped_once() {
    let types = strings(&["x", "y", "x", "z", "z", "x"]);
    let groups = group_by_event_type(&types);
    let mut seen = vec![0; types.len()];
    for (t, positions) in &groups {
        for &p in positions {
            assert_eq!(&types[p], t);
            seen[p] += 1;
        }
    }
    assert!(seen.iter().all(|&c| c == 1));
}

#[test]
fn dispatch_by_handler() {
    let handled = strings(&["tap", "swipe"]);
    assert_eq!(dispatch("tap", &handled), Dispatch::CallHandler);
    assert_eq!(dispatch("key", &handled), Dispatch::Reply("No handler for event: key".to_string()));
    assert_eq!(dispatch("tap", &vec![]), Dispatch::Reply("No handler for event: tap".to_string()));
}

#[test]
fn reply_plan_answers_every_event_once() {
    let types = strings(&["b", "a", "b", "c", "a", "b"]);
    let plan = reply_plan(&types, &strings(&["a", "b"]));
    let positions: Vec<usize> = plan.iter().map(|e| e.0).collect();
    assert_eq!(positions, vec![0, 2, 5, 1, 4, 3]);
    for (p, d) in &plan {
        if types[*p] == "c" {
            assert_eq!(*d, Dispatch::Reply("No handler for event: c".to_string()));
        } else {
            assert_eq!(*d, Dispatch::CallHandler);
        }
    }
    assert!(reply_plan(&vec![], &strings(&["a"])).is_empty());
}

#[test]
fn scrcpy_pushed_once_per_session() {
    let mut pushed = PushedDevices::new();
    assert_eq!(pushed.ready_step("S1", true), ReadyStep::Push);
    assert_eq!(
        pushed.ready_step("S1", false),
        ReadyStep::MissingJar("scrcpy-server.jar not found locally".to_string())
    );
    pushed.record_pushed("S1");
    assert_eq!(pushed.ready_step("S1", true), ReadyStep::AlreadyPushed);
    assert_eq!(pushed.ready_step("S1", false), ReadyStep::AlreadyPushed);
    assert_eq!(pushed.ready_step("S2", true), ReadyStep::Push);
    pushed.remove_device("S1");
    assert_eq!(pushed.ready_step("S1", true), ReadyStep::Push);
}
