use vstd::prelude::*;

verus! {

/// The HTTP server's settings.
#[derive(Debug, Clone)]
pub struct ServerConfig {
    pub port: u16,
}

/// The database settings. (The configuration file names `db_type` `type`.)
#[derive(Debug, Clone)]
pub struct DbConfig {
    pub db_type: String,
    pub db_name: String,
    pub user: Option<String>,
    pub passwd: Option<String>,
    pub db_name1: Option<String>,
}

/// The port the server listens on when the configuration names none.
pub fn default_port() -> (r: u16)
    ensures
        r == 8000,
{
    8000
}

/// The database type when the configuration names none.
pub fn default_db_type() -> (r: String)
    ensures
        r@ == "sqlite"@,
{
    "sqlite".to_string()
}

/// The database file when the configuration names none.
pub fn default_db_name() -> (r: String)
    ensures
        r@ == "cloudcontrol.db"@,
{
    "cloudcontrol.db".to_string()
}

impl Default for ServerConfig {
    fn default() -> (r: Self)
        ensures
            r.port == 8000,
    {
        ServerConfig { port: default_port() }
    }
}

impl Default for DbConfig {
    fn default() -> (r: Self)
        ensures
            r.db_type@ == "sqlite"@,
            r.db_name@ == "cloudcontrol.db"@,
            r.user is None,
            r.passwd is None,
            r.db_name1 is None,
    {
        DbConfig {
            db_type: default_db_type(),
            db_name: default_db_name(),
            user: None,
            passwd: None,
            db_name1: None,
        }
    }
}

} // verus!
