use vstd::prelude::*;

use crate::json::{entries_of, find_key, json_as_bool, json_as_i64, json_as_str, obj_get, Json, JsonValue};

verus! {

/// A row of the `devices` table. Its JSON form names `using_device` `using`,
/// `agent_version` `agentVersion`, `created_at` `createdAt` and `updated_at`
/// `updatedAt`.
#[derive(Debug, Clone)]
pub struct Device {
    pub udid: String,
    pub serial: Option<String>,
    pub ip: Option<String>,
    pub port: Option<i64>,
    pub present: bool,
    pub ready: bool,
    pub using_device: bool,
    pub is_server: bool,
    pub is_mock: bool,
    pub update_time: Option<String>,
    pub model: Option<String>,
    pub brand: Option<String>,
    pub version: Option<String>,
    pub sdk: Option<i64>,
    pub memory: Option<JsonValue>,
    pub cpu: Option<JsonValue>,
    pub battery: Option<JsonValue>,
    pub display: Option<JsonValue>,
    pub owner: Option<String>,
    pub provider: Option<String>,
    pub agent_version: Option<String>,
    pub hwaddr: Option<String>,
    pub created_at: Option<String>,
    pub updated_at: Option<String>,
    pub extra_data: Option<JsonValue>,
}

/// The string under `k`, if the value there is one.
pub open spec fn get_str(m: Seq<(Seq<char>, Json)>, k: Seq<char>) -> Option<Seq<char>> {
    match obj_get(m, k) {
        Some(v) => json_as_str(v),
        None => None,
    }
}

/// The integer under `k`, if the value there is one that fits an `i64`.
pub open spec fn get_i64(m: Seq<(Seq<char>, Json)>, k: Seq<char>) -> Option<i64> {
    match obj_get(m, k) {
        Some(v) => json_as_i64(v),
        None => None,
    }
}

/// The boolean under `k`; false when there is none.
pub open spec fn get_bool(m: Seq<(Seq<char>, Json)>, k: Seq<char>) -> bool {
    match obj_get(m, k) {
        Some(v) => match json_as_bool(v) {
            Some(b) => b,
            None => false,
        },
        None => false,
    }
}

/// The first of two optional values that is there.
pub open spec fn or_else<T>(a: Option<T>, b: Option<T>) -> Option<T> {
    match a {
        Some(x) => Some(x),
        None => b,
    }
}

pub open spec fn opt_string_view(o: Option<String>) -> Option<Seq<char>> {
    match o {
        Some(s) => Some(s@),
        None => None,
    }
}

pub open spec fn opt_json_view(o: Option<JsonValue>) -> Option<Json> {
    match o {
        Some(v) => Some(v@),
        None => None,
    }
}

impl Default for Device {
    fn default() -> (r: Self)
        ensures
            r.udid@.len() == 0,
            r.serial is None && r.ip is None && r.port is None,
            !r.present && !r.ready && !r.using_device && !r.is_server && !r.is_mock,
            r.update_time is None && r.model is None && r.brand is None && r.version is None,
            r.sdk is None,
            r.memory is None && r.cpu is None && r.battery is None && r.display is None,
            r.owner is None && r.provider is None && r.agent_version is None && r.hwaddr is None,
            r.created_at is None && r.updated_at is None && r.extra_data is None,
    {
        Device {
            udid: String::new(),
            serial: None,
            ip: None,
            port: None,
            present: false,
            ready: false,
            using_device: false,
            is_server: false,
            is_mock: false,
            update_time: None,
            model: None,
            brand: None,
            version: None,
            sdk: None,
            memory: None,
            cpu: None,
            battery: None,
            display: None,
            owner: None,
            provider: None,
            agent_version: None,
            hwaddr: None,
            created_at: None,
            updated_at: None,
            extra_data: None,
        }
    }
}

/// The string under `key`, copied.
fn map_str(map: &Vec<(String, JsonValue)>, key: &str) -> (r: Option<String>)
    ensures
        opt_string_view(r) == get_str(entries_of(map@), key@),
{
    match find_key(map, key) {
        Some(i) => {
            assert(entries_of(map@)[i as int].1 == map@[i as int].1@);
            match map[i].1.as_str() {
                Some(s) => Some(s.to_string()),
                None => None,
            }
        },
        None => None,
    }
}

/// The integer under `key`.
fn map_i64(map: &Vec<(String, JsonValue)>, key: &str) -> (r: Option<i64>)
    ensures
        r == get_i64(entries_of(map@), key@),
{
    match find_key(map, key) {
        Some(i) => {
            assert(entries_of(map@)[i as int].1 == map@[i as int].1@);
            map[i].1.as_i64()
        },
        None => None,
    }
}

/// The boolean under `key`, false when there is none.
fn map_bool(map: &Vec<(String, JsonValue)>, key: &str) -> (r: bool)
    ensures
        r == get_bool(entries_of(map@), key@),
{
    match find_key(map, key) {
        Some(i) => {
            assert(entries_of(map@)[i as int].1 == map@[i as int].1@);
            match map[i].1.as_bool() {
                Some(b) => b,
                None => false,
            }
        },
        None => false,
    }
}

/// The value under `key`, copied.
fn map_json(map: &Vec<(String, JsonValue)>, key: &str) -> (r: Option<JsonValue>)
    ensures
        opt_json_view(r) == obj_get(entries_of(map@), key@),
{
    match find_key(map, key) {
        Some(i) => {
            assert(entries_of(map@)[i as int].1 == map@[i as int].1@);
            Some(map[i].1.deep_clone())
        },
        None => None,
    }
}

impl Device {
    /// Builds a device from the entries of a JSON object with the keys the
    /// service layer uses. A key that is missing, or whose value has another
    /// type, leaves its field empty (false for a flag); `agentVersion`,
    /// `createdAt` and `updatedAt` may also be written `agent_version`,
    /// `created_at` and `updated_at`.
    pub fn from_map(map: &Vec<(String, JsonValue)>) -> (r: Device)
        ensures
            ({
                let m = entries_of(map@);
                &&& r.udid@ == (match get_str(m, "udid"@) { Some(s) => s, None => Seq::empty() })
                &&& opt_string_view(r.serial) == get_str(m, "serial"@)
                &&& opt_string_view(r.ip) == get_str(m, "ip"@)
                &&& r.port == get_i64(m, "port"@)
                &&& r.present == get_bool(m, "present"@)
                &&& r.ready == get_bool(m, "ready"@)
                &&& r.using_device == get_bool(m, "using"@)
                &&& r.is_server == get_bool(m, "is_server"@)
                &&& r.is_mock == get_bool(m, "is_mock"@)
                &&& opt_string_view(r.update_time) == get_str(m, "update_time"@)
                &&& opt_string_view(r.model) == get_str(m, "model"@)
                &&& opt_string_view(r.brand) == get_str(m, "brand"@)
                &&& opt_string_view(r.version) == get_str(m, "version"@)
                &&& r.sdk == get_i64(m, "sdk"@)
                &&& opt_json_view(r.memory) == obj_get(m, "memory"@)
                &&& opt_json_view(r.cpu) == obj_get(m, "cpu"@)
                &&& opt_json_view(r.battery) == obj_get(m, "battery"@)
                &&& opt_json_view(r.display) == obj_get(m, "display"@)
                &&& opt_string_view(r.owner) == get_str(m, "owner"@)
                &&& opt_string_view(r.provider) == get_str(m, "provider"@)
                &&& opt_string_view(r.agent_version) == or_else(get_str(m, "agentVersion"@), get_str(m, "agent_version"@))
                &&& opt_string_view(r.hwaddr) == get_str(m, "hwaddr"@)
                &&& opt_string_view(r.created_at) == or_else(get_str(m, "createdAt"@), get_str(m, "created_at"@))
                &&& opt_string_view(r.updated_at) == or_else(get_str(m, "updatedAt"@), get_str(m, "updated_at"@))
                &&& opt_json_view(r.extra_data) == obj_get(m, "extra_data"@)
            }),
    {
        let udid = match map_str(map, "udid") {
            Some(s) => s,
            None => String::new(),
        };
        let agent_version = match map_str(map, "agentVersion") {
            Some(s) => Some(s),
            None => map_str(map, "agent_version"),
        };
        let created_at = match map_str(map, "createdAt") {
            Some(s) => Some(s),
            None => map_str(map, "created_at"),
        };
        let updated_at = match map_str(map, "updatedAt") {
            Some(s) => Some(s),
            None => map_str(map, "updated_at"),
        };
        Device {
            udid,
            serial: map_str(map, "serial"),
            ip: map_str(map, "ip"),
            port: map_i64(map, "port"),
            present: map_bool(map, "present"),
            ready: map_bool(map, "ready"),
            using_device: map_bool(map, "using"),
            is_server: map_bool(map, "is_server"),
            is_mock: map_bool(map, "is_mock"),
            update_time: map_str(map, "update_time"),
            model: map_str(map, "model"),
            brand: map_str(map, "brand"),
            version: map_str(map, "version"),
            sdk: map_i64(map, "sdk"),
            memory: map_json(map, "memory"),
            cpu: map_json(map, "cpu"),
            battery: map_json(map, "battery"),
            display: map_json(map, "display"),
            owner: map_str(map, "owner"),
            provider: map_str(map, "provider"),
            agent_version,
            hwaddr: map_str(map, "hwaddr"),
            created_at,
            updated_at,
            extra_data: map_json(map, "extra_data"),
        }
    }
}

} // verus!
