use vstd::prelude::*;

use crate::json::{entries_of, json_as_i64, json_as_str, json_get, Json, JsonValue};
use crate::text::str_eq;

verus! {

/// What is saved of an uploaded file: the columns of the `installed_file`
/// table, and the fields beyond them kept as an object.
#[derive(Debug)]
pub struct InstallFileRecord {
    pub group: String,
    pub filename: String,
    pub filesize: Option<i64>,
    pub upload_time: String,
    pub who: String,
    /// The fields other than the columns, if there are any.
    pub extra: Option<Vec<(String, JsonValue)>>,
}

/// The keys that are stored in columns of their own.
pub open spec fn is_known_key(k: Seq<char>) -> bool {
    k == "group"@ || k == "filename"@ || k == "filesize"@ || k == "upload_time"@ || k == "who"@
}

/// The string under `k`, or the empty string.
pub open spec fn str_or_empty(file: Json, k: Seq<char>) -> Seq<char> {
    match json_get(file, k) {
        Some(v) => match json_as_str(v) {
            Some(s) => s,
            None => Seq::empty(),
        },
        None => Seq::empty(),
    }
}

/// The group a file is saved under: the `group` string; `0` when `group` is
/// an integer (whatever its value); else the empty string.
pub open spec fn group_spec(file: Json) -> Seq<char> {
    match json_get(file, "group"@) {
        Some(v) => match json_as_str(v) {
            Some(s) => s,
            None => if json_as_i64(v) is Some { "0"@ } else { Seq::empty() },
        },
        None => Seq::empty(),
    }
}

/// The entries of an object other than the known keys, in their order.
pub open spec fn extra_entries(entries: Seq<(Seq<char>, Json)>) -> Seq<(Seq<char>, Json)>
    decreases entries.len(),
{
    if entries.len() == 0 {
        Seq::empty()
    } else {
        let rest = extra_entries(entries.drop_last());
        if is_known_key(entries.last().0) {
            rest
        } else {
            rest.push(entries.last())
        }
    }
}

/// The extra fields of a file: none when it is not an object or has only
/// the known keys.
pub open spec fn extra_spec(file: Json) -> Option<Seq<(Seq<char>, Json)>> {
    match file {
        Json::Object(entries) => {
            let e = extra_entries(entries);
            if e.len() == 0 {
                None
            } else {
                Some(e)
            }
        },
        _ => None,
    }
}

/// Reads the record to save from the JSON of an uploaded file.
pub fn install_file_record(file: &JsonValue) -> (r: InstallFileRecord)
    ensures
        r.group@ == group_spec(file@),
        r.filename@ == str_or_empty(file@, "filename"@),
        r.filesize == (match json_get(file@, "filesize"@) {
            Some(v) => json_as_i64(v),
            None => None,
        }),
        r.upload_time@ == str_or_empty(file@, "upload_time"@),
        r.who@ == str_or_empty(file@, "who"@),
        match r.extra {
            Some(e) => extra_spec(file@) == Some(entries_of(e@)),
            None => extra_spec(file@) is None,
        },
{
    let group = group_of(file);
    let filename = text_or_empty(file, "filename");
    let filesize = filesize_of(file);
    let upload_time = text_or_empty(file, "upload_time");
    let who = text_or_empty(file, "who");
    let extra = extra_of(file);
    InstallFileRecord { group, filename, filesize, upload_time, who, extra }
}

/// The integer under `filesize`.
fn filesize_of(file: &JsonValue) -> (r: Option<i64>)
    ensures
        r == (match json_get(file@, "filesize"@) {
            Some(v) => json_as_i64(v),
            None => None,
        }),
{
    match file.get("filesize") {
        Some(v) => v.as_i64(),
        None => None,
    }
}

/// The extra fields of a file, copied.
fn extra_of(file: &JsonValue) -> (r: Option<Vec<(String, JsonValue)>>)
    ensures
        match r {
            Some(e) => extra_spec(file@) == Some(entries_of(e@)),
            None => extra_spec(file@) is None,
        },
{
    match file {
        JsonValue::Object(entries) => {
            let out = extra_fields(entries);
            assert(file@ == Json::Object(entries_of(entries@)));
            if out.len() == 0 {
                None
            } else {
                Some(out)
            }
        },
        _ => None,
    }
}

/// The group a file is saved under.
fn group_of(file: &JsonValue) -> (r: String)
    ensures
        r@ == group_spec(file@),
{
    match file.get("group") {
        Some(v) => match v.as_str() {
            Some(s) => s.to_string(),
            None => if v.as_i64().is_some() {
                "0".to_string()
            } else {
                String::new()
            },
        },
        None => String::new(),
    }
}

/// The entries other than the known keys, copied, in their order.
fn extra_fields(entries: &Vec<(String, JsonValue)>) -> (r: Vec<(String, JsonValue)>)
    ensures
        entries_of(r@) == extra_entries(entries_of(entries@)),
{
    let ghost es = entries_of(entries@);
    let mut out: Vec<(String, JsonValue)> = Vec::new();
    let mut i: usize = 0;
    assert(es.take(0) =~= Seq::<(Seq<char>, Json)>::empty());
    assert(entries_of(out@) =~= Seq::<(Seq<char>, Json)>::empty());
    while i < entries.len()
        invariant
            i <= entries@.len(),
            es == entries_of(entries@),
            entries_of(out@) == extra_entries(es.take(i as int)),
        decreases entries@.len() - i,
    {
        assert(es.take(i + 1).drop_last() =~= es.take(i as int));
        assert(es.take(i + 1).last() == (entries@[i as int].0@, entries@[i as int].1@));
        let k = entries[i].0.as_str();
        let known = str_eq(k, "group") || str_eq(k, "filename")
            || str_eq(k, "filesize") || str_eq(k, "upload_time")
            || str_eq(k, "who");
        if !known {
            let ghost before = entries_of(out@);
            let key = entries[i].0.clone();
            let value = entries[i].1.deep_clone();
            out.push((key, value));
            assert(entries_of(out@) =~= before.push((entries@[i as int].0@, entries@[i as int].1@)));
        }
        i = i + 1;
    }
    assert(es.take(entries@.len() as int) =~= es);
    out
}

/// The string under `key` of a JSON value, or the empty string.
fn text_or_empty(file: &JsonValue, key: &str) -> (r: String)
    ensures
        r@ == str_or_empty(file@, key@),
{
    match file.get(key) {
        Some(v) => match v.as_str() {
            Some(s) => s.to_string(),
            None => String::new(),
        },
        None => String::new(),
    }
}

/// The extra fields of a file are exactly its fields other than the known
/// keys: none of them is a known key, each is one of the file's entries,
/// and each entry under another key is among them.
pub proof fn lemma_extra_entries(entries: Seq<(Seq<char>, Json)>)
    ensures
        forall|i: int| 0 <= i < extra_entries(entries).len() ==> !is_known_key(#[trigger] extra_entries(entries)[i].0)
            && entries.contains(extra_entries(entries)[i]),
        forall|j: int| 0 <= j < entries.len() && !is_known_key(#[trigger] entries[j].0) ==> extra_entries(entries).contains(entries[j]),
    decreases entries.len(),
{
    if entries.len() > 0 {
        let rest = entries.drop_last();
        lemma_extra_entries(rest);
        let er = extra_entries(rest);
        let e = extra_entries(entries);
        assert forall|i: int| 0 <= i < e.len() implies !is_known_key(#[trigger] e[i].0) && entries.contains(e[i]) by {
            if i < er.len() {
                assert(e[i] == er[i]);
                assert(!is_known_key(er[i].0));
                assert(rest.contains(er[i]));
                let j = choose|j: int| 0 <= j < rest.len() && rest[j] == er[i];
                assert(entries[j] == rest[j]);
            } else {
                assert(e[i] == entries.last());
                assert(entries[entries.len() - 1] == entries.last());
            }
        }
        assert forall|j: int| 0 <= j < entries.len() && !is_known_key(#[trigger] entries[j].0) implies e.contains(entries[j]) by {
            if j < entries.len() - 1 {
                assert(rest[j] == entries[j]);
                let k = choose|k: int| 0 <= k < er.len() && er[k] == rest[j];
                assert(e[k] == er[k]);
            } else {
                assert(e[e.len() - 1] == entries[j]);
            }
        }
    }
}

} // verus!
