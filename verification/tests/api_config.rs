use smoothie::api::config::{default_config, github_configured, host_address, router_base_url, s3_force_path_style};

#[test]
fn out_of_box_defaults_interoperate() {
    let cfg = default_config();
    assert_eq!(cfg.port, Some(3400));
    assert_eq!(cfg.host.as_deref(), Some("0.0.0.0"));
    assert_eq!(cfg.redis, "redis://localhost:6379");
    assert_eq!(cfg.router_address, "127.0.0.1:3300");
    assert_eq!(router_base_url(&cfg.router_address), "http://127.0.0.1:3300");
    assert_eq!(cfg.s3.bucket, "packages");
    assert_eq!(cfg.s3.region, "us-east-1");
    assert!(s3_force_path_style(cfg.s3.force_path_style));
    assert_eq!(cfg.github.redirect_uri, "http://localhost:3400/auth/github/callback");
    assert_eq!(cfg.github.frontend_url, "http://localhost:5173");
    assert!(!github_configured(&cfg.github));
}

#[test]
fn explicit_virtual_host_s3_style_is_preserved() {
    assert!(!s3_force_path_style(Some(false)));
}

#[test]
fn router_base_url_keeps_schemes_and_drops_trailing_slashes() {
    assert_eq!(router_base_url("https://router.example//"), "https://router.example");
    assert_eq!(router_base_url("http://10.0.0.1:3300/"), "http://10.0.0.1:3300");
    assert_eq!(router_base_url("router:3300"), "http://router:3300");
}

#[test]
fn localhost_binds_loopback_in_any_case() {
    assert_eq!(host_address(None), "0.0.0.0");
    assert_eq!(host_address(Some("LocalHost".into())), "127.0.0.1");
    assert_eq!(host_address(Some("localhost".into())), "127.0.0.1");
    assert_eq!(host_address(Some("10.1.2.3".into())), "10.1.2.3");
    assert_eq!(host_address(Some("localhostx".into())), "localhostx");
}
