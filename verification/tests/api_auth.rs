use smoothie::api::auth::{
    github_authorize_url, key_oauth_state, key_session, key_user, key_user_login, key_user_sessions,
};
use smoothie::api::config::GithubConfig;

#[test]
fn authorize_url_points_at_github_with_state() {
    let cfg = GithubConfig {
        client_id: "Iv1.test".into(),
        client_secret: "secret".into(),
        redirect_uri: "http://localhost:3400/auth/github/callback".into(),
        frontend_url: "http://localhost:5173".into(),
    };
    let url = github_authorize_url(&cfg, "abc123");
    assert!(url.starts_with("https://github.com/login/oauth/authorize?"));
    assert!(url.contains("client_id=Iv1.test"));
    assert!(url.contains("state=abc123"));
    assert!(url.contains("redirect_uri="));
}

#[test]
fn redis_keys_are_namespaced_by_github_id() {
    assert_eq!(key_user(123), "user:github:123");
    assert_eq!(key_user_login("OctoCat"), "user:login:octocat");
    assert_eq!(key_session("tok"), "session:tok");
    assert_eq!(key_user_sessions(123), "user:github:123:sessions");
    assert_eq!(key_oauth_state("s"), "oauth:state:s");
}

#[test]
fn authorize_url_encodes_the_redirect() {
    let cfg = GithubConfig {
        client_id: "Iv1.test".into(),
        client_secret: "secret".into(),
        redirect_uri: "http://localhost:3400/auth/github/callback".into(),
        frontend_url: "http://localhost:5173".into(),
    };
    let url = github_authorize_url(&cfg, "abc123");
    assert!(url.contains("redirect_uri=http%3A%2F%2Flocalhost%3A3400%2Fauth%2Fgithub%2Fcallback"));
}

use smoothie::api::auth::{
    callback_redirect, parse_u64, require_github, required_param, required_session, select_email,
    session_user_id, signed_in_user, token_from_response, GithubEmail, GithubTokenResponse, GithubUser, SessionToken,
};

fn github_config(id: &str, secret: &str) -> GithubConfig {
    GithubConfig {
        client_id: id.into(),
        client_secret: secret.into(),
        redirect_uri: "http://localhost:3400/auth/github/callback".into(),
        frontend_url: "http://localhost:5173/".into(),
    }
}

#[test]
fn session_ids_parse_like_std() {
    for text in ["0", "42", "+7", "18446744073709551615", "", "+", "-1", "1 ", "18446744073709551616", "12a"] {
        assert_eq!(parse_u64(text), text.parse::<u64>().ok(), "{text}");
    }
    assert_eq!(session_user_id(Some("123".into())).ok(), Some(123));
    let e = session_user_id(Some("abc".into())).err().unwrap();
    assert_eq!((e.status, e.message.as_str()), (401, "invalid session"));
    let e = session_user_id(None).err().unwrap();
    assert_eq!((e.status, e.message.as_str()), (401, "invalid or expired session"));
}

#[test]
fn sign_in_records_and_redirects() {
    let gh = GithubUser {
        id: 9,
        login: "octo".into(),
        name: Some("Octo".into()),
        avatar_url: None,
        email: Some("o@example.com".into()),
    };
    let u = signed_in_user(gh, Some("t0".into()), "t1".into());
    assert_eq!((u.github_id, u.login.as_str(), u.created_at.as_str(), u.updated_at.as_str()), (9, "octo", "t0", "t1"));
    let gh = GithubUser { id: 9, login: "octo".into(), name: None, avatar_url: None, email: None };
    assert_eq!(signed_in_user(gh, None, "t2".into()).created_at, "t2");
    let cfg = github_config("id", "secret");
    assert_eq!(callback_redirect(&cfg, "a b"), "http://localhost:5173/auth/callback?session=a%20b");
    assert!(require_github(&cfg, "github auth is not configured").is_ok());
    let e = require_github(&github_config("", "secret"), "github auth is not configured").err().unwrap();
    assert_eq!((e.status, e.message.as_str()), (503, "github auth is not configured"));
}

#[test]
fn sessions_come_from_bearer_headers_or_cookies() {
    assert_eq!(SessionToken::from_parts(Some("Bearer abc "), Some("zzz")).0.as_deref(), Some("abc"));
    assert_eq!(SessionToken::from_parts(Some("bearer  x"), None).0.as_deref(), Some("x"));
    assert_eq!(SessionToken::from_parts(Some("Basic abc"), Some(" c ")).0.as_deref(), Some("c"));
    assert_eq!(SessionToken::from_parts(None, Some("  ")).0, None);
    let e = required_session(&SessionToken(None), "missing session").err().unwrap();
    assert_eq!((e.status, e.message.as_str()), (401, "missing session"));
    assert_eq!(required_session(&SessionToken(Some("t".into())), "m").ok().as_deref(), Some("t"));
    assert_eq!(required_param(Some(" c ".into()), "missing ?code=").ok().as_deref(), Some("c"));
    assert_eq!(required_param(Some("  ".into()), "missing ?code=").err().unwrap().message, "missing ?code=");
}

#[test]
fn github_answers_are_read() {
    let emails = vec![
        GithubEmail { email: "a@x".into(), primary: false, verified: true },
        GithubEmail { email: "b@x".into(), primary: true, verified: false },
        GithubEmail { email: "c@x".into(), primary: true, verified: true },
    ];
    assert_eq!(select_email(&emails).as_deref(), Some("c@x"));
    let first_two = vec![
        GithubEmail { email: "a@x".into(), primary: false, verified: true },
        GithubEmail { email: "b@x".into(), primary: true, verified: false },
    ];
    assert_eq!(select_email(&first_two).as_deref(), Some("a@x"));
    assert_eq!(select_email(&vec![]), None);
    let ok = GithubTokenResponse { access_token: Some("tok".into()), error: None, error_description: None };
    assert_eq!(token_from_response(ok).unwrap(), "tok");
    let bad = GithubTokenResponse { access_token: None, error: Some("e".into()), error_description: Some("d".into()) };
    assert_eq!(token_from_response(bad).unwrap_err(), "d");
    let bare = GithubTokenResponse { access_token: None, error: None, error_description: None };
    assert_eq!(token_from_response(bare).unwrap_err(), "missing access token");
}

#[test]
fn authorize_url_percent_encodes_its_values() {
    let cfg = GithubConfig {
        client_id: "id".into(),
        client_secret: "secret".into(),
        redirect_uri: "http://h/cb".into(),
        frontend_url: "http://f".into(),
    };
    let url = github_authorize_url(&cfg, "a b~é");
    assert_eq!(
        url,
        "https://github.com/login/oauth/authorize?client_id=id&redirect_uri=http%3A%2F%2Fh%2Fcb&scope=read%3Auser%20user%3Aemail&state=a%20b~%C3%A9"
    );
}
