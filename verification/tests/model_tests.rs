use cloudcontrol::json::{JsonNumber, JsonValue};
use cloudcontrol::models::device::Device;
use cloudcontrol::models::file::InstalledFile;

fn e(k: &str, v: JsonValue) -> (String, JsonValue) {
    (k.to_string(), v)
}

fn s(v: &str) -> JsonValue {
    JsonValue::String(v.to_string())
}

fn n(v: u64) -> JsonValue {
    JsonValue::Number(JsonNumber::PosInt(v))
}

#[test]
fn test_device_default() {
    let d = Device::default();
    assert_eq!(d.udid, "");
    assert!(!d.present);
    assert!(!d.ready);
    assert!(!d.using_device);
    assert!(!d.is_server);
    assert!(!d.is_mock);
    assert!(d.serial.is_none());
    assert!(d.ip.is_none());
    assert!(d.model.is_none());
    assert!(d.memory.is_none());
}

#[test]
fn test_device_from_map_complete() {
    let map = vec![
        e("udid", s("test-device-1")),
        e("serial", s("ABC123")),
        e("ip", s("192.168.1.100")),
        e("port", n(7912)),
        e("present", JsonValue::Bool(true)),
        e("ready", JsonValue::Bool(true)),
        e("using", JsonValue::Bool(false)),
        e("is_mock", JsonValue::Bool(false)),
        e("model", s("Pixel 5")),
        e("brand", s("Google")),
        e("version", s("12")),
        e("sdk", n(31)),
        e("memory", JsonValue::Object(vec![e("total", n(8192))])),
        e("agentVersion", s("0.10.0")),
        e("createdAt", s("2024-01-01")),
    ];

    let d = Device::from_map(&map);
    assert_eq!(d.udid, "test-device-1");
    assert_eq!(d.serial, Some("ABC123".into()));
    assert_eq!(d.ip, Some("192.168.1.100".into()));
    assert_eq!(d.port, Some(7912));
    assert!(d.present);
    assert!(d.ready);
    assert!(!d.using_device);
    assert_eq!(d.model, Some("Pixel 5".into()));
    assert_eq!(d.brand, Some("Google".into()));
    assert_eq!(d.sdk, Some(31));
    assert_eq!(d.agent_version, Some("0.10.0".into()));
    assert_eq!(d.created_at, Some("2024-01-01".into()));
    assert!(d.memory.is_some());
}

#[test]
fn test_device_from_map_minimal() {
    let map = vec![e("udid", s("minimal-device"))];

    let d = Device::from_map(&map);
    assert_eq!(d.udid, "minimal-device");
    assert!(!d.present);
    assert!(d.serial.is_none());
    assert!(d.model.is_none());
}

#[test]
fn device_from_map_alternate_keys_and_types() {
    let map = vec![
        e("agent_version", s("1.2")),
        e("created_at", s("c")),
        e("updatedAt", s("u1")),
        e("updated_at", s("u2")),
        e("port", s("7912")),
        e("present", s("true")),
        e("sdk", JsonValue::Number(JsonNumber::NegInt(-3))),
        e("extra_data", JsonValue::Array(vec![JsonValue::Null])),
        e("udid", n(5)),
    ];
    let d = Device::from_map(&map);
    assert_eq!(d.agent_version, Some("1.2".into()));
    assert_eq!(d.created_at, Some("c".into()));
    assert_eq!(d.updated_at, Some("u1".into()));
    assert_eq!(d.port, None);
    assert!(!d.present);
    assert_eq!(d.sdk, Some(-3));
    assert_eq!(d.extra_data, Some(JsonValue::Array(vec![JsonValue::Null])));
    assert_eq!(d.udid, "");
    let big = vec![e("port", n(u64::MAX))];
    assert_eq!(Device::from_map(&big).port, None);
}

#[test]
fn test_installed_file_defaults() {
    let f = InstalledFile::default();
    assert_eq!(f.group_name, "");
    assert_eq!(f.filename, "");
    assert!(f.filesize.is_none());
    assert!(f.upload_time.is_none());
    assert!(f.who.is_none());
    assert!(f.extra_data.is_none());
}

#[test]
fn models_clone() {
    let d = Device::default();
    let c = d.clone();
    assert_eq!(c.udid, d.udid);
    assert_eq!(c.present, d.present);
    let f = InstalledFile::default();
    let g = f.clone();
    assert_eq!(format!("{:?}", g), format!("{:?}", f));
    let v = JsonValue::Array(vec![JsonValue::Bool(true)]);
    assert_eq!(v.clone(), v);
}
