//! The API's configuration values and defaults.

use vstd::prelude::*;
use crate::text::{chars_start_with, seq_starts_with, string_from_chars, trim_end_char, trim_end_matching};

pub mod defaults;

verus! {

/// Object store settings.
pub struct S3Config {
    pub access_key: String,
    pub secret_key: String,
    pub bucket: String,
    pub region: String,
    pub endpoint: Option<String>,
    pub supports_range: Option<bool>,
    pub force_path_style: Option<bool>,
}

/// GitHub sign-in settings.
pub struct GithubConfig {
    pub client_id: String,
    pub client_secret: String,
    pub redirect_uri: String,
    pub frontend_url: String,
}

/// The API's configuration.
pub struct Config {
    pub redis: String,
    pub port: Option<u16>,
    pub host: Option<String>,
    pub s3: S3Config,
    pub router_address: String,
    pub github: GithubConfig,
}

/// Where GitHub sends users back after sign-in, by default.
pub fn default_github_redirect_uri() -> (s: String)
    ensures
        s@ == "http://localhost:3400/auth/github/callback"@,
{
    String::from_str("http://localhost:3400/auth/github/callback")
}

/// The frontend origin, by default.
pub fn default_frontend_url() -> (s: String)
    ensures
        s@ == "http://localhost:5173"@,
{
    String::from_str("http://localhost:5173")
}

impl Default for GithubConfig {
    fn default() -> (c: Self)
        ensures
            c.client_id@ == Seq::<char>::empty(),
            c.client_secret@ == Seq::<char>::empty(),
            c.redirect_uri@ == "http://localhost:3400/auth/github/callback"@,
            c.frontend_url@ == "http://localhost:5173"@,
    {
        GithubConfig {
            client_id: String::new(),
            client_secret: String::new(),
            redirect_uri: default_github_redirect_uri(),
            frontend_url: default_frontend_url(),
        }
    }
}

/// The configuration used when none is given.
pub fn default_config() -> (c: Config)
    ensures
        c.redis@ == "redis://localhost:6379"@,
        c.port == Some(3400u16),
        c.host matches Some(h) && h@ == "0.0.0.0"@,
        c.s3.access_key@ == "minioadmin"@,
        c.s3.secret_key@ == "minioadmin"@,
        c.s3.bucket@ == "packages"@,
        c.s3.region@ == "us-east-1"@,
        c.s3.endpoint matches Some(e) && e@ == "http://localhost:9000"@,
        c.s3.supports_range == Some(true),
        c.s3.force_path_style == Some(true),
        c.router_address@ == "127.0.0.1:3300"@,
        c.github.client_id@ == Seq::<char>::empty(),
        c.github.client_secret@ == Seq::<char>::empty(),
        c.github.redirect_uri@ == "http://localhost:3400/auth/github/callback"@,
        c.github.frontend_url@ == "http://localhost:5173"@,
{
    Config {
        redis: defaults::redis(),
        port: Some(defaults::port()),
        host: Some(defaults::host()),
        s3: defaults::s3(),
        router_address: defaults::router_address(),
        github: GithubConfig::default(),
    }
}

/// The base URL of a service given as an address: trailing `/` removed,
/// and `http://` prepended unless it already names `http` or `https`.
pub open spec fn base_url(address: Seq<char>) -> Seq<char> {
    let a = trim_end_char(address, '/');
    if seq_starts_with(a, "http://"@) || seq_starts_with(a, "https://"@) {
        a
    } else {
        "http://"@ + a
    }
}

/// The router's base URL from its configured address.
pub fn router_base_url(address: &str) -> (url: String)
    ensures
        url@ == base_url(address@),
{
    let a = trim_end_matching(address, '/');
    if chars_start_with(&a, "http://") || chars_start_with(&a, "https://") {
        string_from_chars(&a)
    } else {
        let s = string_from_chars(&a);
        String::from_str("http://").concat(s.as_str())
    }
}

/// Whether GitHub sign-in is configured: both client id and secret set.
pub fn github_configured(cfg: &GithubConfig) -> (r: bool)
    ensures
        r == (cfg.client_id@.len() != 0 && cfg.client_secret@.len() != 0),
{
    !cfg.client_id.as_str().is_empty() && !cfg.client_secret.as_str().is_empty()
}

/// Whether the object store is addressed path-style; it is unless the
/// configuration says otherwise.
pub fn s3_force_path_style(configured: Option<bool>) -> (r: bool)
    ensures
        r == match configured {
            Some(b) => b,
            None => true,
        },
{
    match configured {
        Some(b) => b,
        None => true,
    }
}

/// Whether two characters are equal ignoring ASCII case.
pub open spec fn same_ignoring_ascii_case(a: char, b: char) -> bool {
    ||| a == b
    ||| ('A' <= a && a <= 'Z' && (a as u32) + 32 == (b as u32))
    ||| ('A' <= b && b <= 'Z' && (b as u32) + 32 == (a as u32))
}

/// Whether two texts are equal ignoring ASCII case (`eq_ignore_ascii_case`).
pub open spec fn eq_ignore_ascii_case(a: Seq<char>, b: Seq<char>) -> bool {
    a.len() == b.len() && forall|i: int| 0 <= i < a.len() ==> same_ignoring_ascii_case(#[trigger] a[i], b[i])
}

fn same_char_ignoring_case(a: char, b: char) -> (r: bool)
    ensures
        r == same_ignoring_ascii_case(a, b),
{
    a == b || ('A' <= a && a <= 'Z' && (a as u32) + 32 == (b as u32)) || ('A' <= b && b <= 'Z' && (b as u32) + 32
        == (a as u32))
}

/// The address text the API binds: the configured host (`0.0.0.0` when
/// none), with `localhost` in any ASCII case meaning `127.0.0.1`.
pub fn host_address(host: Option<String>) -> (r: String)
    ensures
        ({
            let raw = match host {
                Some(h) => h@,
                None => "0.0.0.0"@,
            };
            if eq_ignore_ascii_case(raw, "localhost"@) {
                r@ == "127.0.0.1"@
            } else {
                r@ == raw
            }
        }),
{
    let raw = match host {
        Some(h) => h,
        None => defaults::host(),
    };
    let a = crate::text::chars_of(raw.as_str());
    let b = crate::text::chars_of("localhost");
    let mut same = a.len() == b.len();
    let mut i: usize = 0;
    while same && i < a.len()
        invariant
            a@ == raw@,
            b@ == "localhost"@,
            same ==> a@.len() == b@.len(),
            i <= a@.len(),
            same == (a@.len() == b@.len() && forall|j: int| 0 <= j < i ==> same_ignoring_ascii_case(#[trigger] a@[j], b@[j])),
        decreases a@.len() - i,
    {
        if !same_char_ignoring_case(a[i], b[i]) {
            same = false;
        }
        i = i + 1;
    }
    if same {
        String::from_str("127.0.0.1")
    } else {
        raw
    }
}

} // verus!
