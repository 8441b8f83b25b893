//! The gateway's settings.

use vstd::prelude::*;

verus! {

/// The settings of a gateway process.
#[derive(Clone, Debug)]
pub struct Config {
    pub bind: String,
    pub http_bind: String,
    pub tls_cert: String,
    pub tls_key: String,
    pub caldav_base: String,
    pub db_path: String,
    pub hmac_secret: String,
    pub log_level: Option<String>,
}

} // verus!
