use vstd::prelude::*;

use crate::json::JsonValue;

verus! {

/// A row of the `installed_file` table. Its JSON form names `group_name`
/// `group`.
#[derive(Debug, Clone)]
pub struct InstalledFile {
    pub group_name: String,
    pub filename: String,
    pub filesize: Option<i64>,
    pub upload_time: Option<String>,
    pub who: Option<String>,
    pub extra_data: Option<JsonValue>,
}

impl Default for InstalledFile {
    fn default() -> (r: Self)
        ensures
            r.group_name@.len() == 0,
            r.filename@.len() == 0,
            r.filesize is None,
            r.upload_time is None,
            r.who is None,
            r.extra_data is None,
    {
        InstalledFile {
            group_name: String::new(),
            filename: String::new(),
            filesize: None,
            upload_time: None,
            who: None,
            extra_data: None,
        }
    }
}

} // verus!
