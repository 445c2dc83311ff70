//! Default configuration values of the API.

use vstd::prelude::*;
use super::S3Config;

verus! {

/// The port the API listens on.
pub fn port() -> (p: u16)
    ensures
        p == 3400,
{
    3400
}

/// The address the API binds.
pub fn host() -> (h: String)
    ensures
        h@ == "0.0.0.0"@,
{
    String::from_str("0.0.0.0")
}

/// The Redis URL.
pub fn redis() -> (r: String)
    ensures
        r@ == "redis://localhost:6379"@,
{
    String::from_str("redis://localhost:6379")
}

/// The router's address.
pub fn router_address() -> (r: String)
    ensures
        r@ == "127.0.0.1:3300"@,
{
    String::from_str("127.0.0.1:3300")
}

/// The object store of a local development setup.
pub fn s3() -> (c: S3Config)
    ensures
        c.access_key@ == "minioadmin"@,
        c.secret_key@ == "minioadmin"@,
        c.bucket@ == "packages"@,
        c.region@ == "us-east-1"@,
        c.endpoint matches Some(e) && e@ == "http://localhost:9000"@,
        c.supports_range == Some(true),
        c.force_path_style == Some(true),
{
    S3Config {
        access_key: String::from_str("minioadmin"),
        secret_key: String::from_str("minioadmin"),
        bucket: String::from_str("packages"),
        region: String::from_str("us-east-1"),
        endpoint: Some(String::from_str("http://localhost:9000")),
        supports_range: Some(true),
        force_path_style: Some(true),
    }
}

} // verus!
