//! Service configuration and its fallback values.

use vstd::prelude::*;
use vstd::string::StringExecFns;

verus! {

/// The values the service runs with.
pub struct Config {
    pub uploads_path: String,
    pub http_port: u16,
    pub database_url: String,
    pub paseto_keys_path: String,
}

impl Default for Config {
    /// The configuration a fresh installation starts from.
    fn default() -> (r: Config)
        ensures
            r.uploads_path@ == "./Privafile/Uploads"@,
            r.http_port == 5830,
            r.database_url@ == "./Privafile/Privafile.db"@,
            r.paseto_keys_path@ == "./Privafile/paseto.key"@,
    {
        Config {
            uploads_path: String::from_str("./Privafile/Uploads"),
            http_port: 5830,
            database_url: String::from_str("./Privafile/Privafile.db"),
            paseto_keys_path: String::from_str("./Privafile/paseto.key"),
        }
    }
}

/// The HTTP port to serve on, or its fallback when no configuration
/// was loaded.
pub fn http_port(config: Option<&Config>) -> (r: u16)
    ensures
        match config {
            Some(c) => r == c.http_port,
            None => r == 5830,
        },
{
    match config {
        Some(c) => c.http_port,
        None => 5830,
    }
}

/// The catalog location, or its fallback when no configuration was
/// loaded.
pub fn db_url(config: Option<&Config>) -> (r: String)
    ensures
        match config {
            Some(c) => r@ == c.database_url@,
            None => r@ == "./Privafile/Privafile.sql"@,
        },
{
    match config {
        Some(c) => c.database_url.clone(),
        None => String::from_str("./Privafile/Privafile.sql"),
    }
}

/// The token key location, or its fallback when no configuration was
/// loaded.
pub fn paseto_keys_path(config: Option<&Config>) -> (r: String)
    ensures
        match config {
            Some(c) => r@ == c.paseto_keys_path@,
            None => r@ == "./Privafile/Paseto_privafile.key"@,
        },
{
    match config {
        Some(c) => c.paseto_keys_path.clone(),
        None => String::from_str("./Privafile/Paseto_privafile.key"),
    }
}

} // verus!
