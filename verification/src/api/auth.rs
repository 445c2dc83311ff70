//! GitHub sign-in: storage keys, the authorization URL, session token
//! extraction, and the decisions taken on GitHub's answers.

use vstd::prelude::*;
use crate::api::config::GithubConfig;
use crate::api::state::{json_error, ApiError};
use crate::text::{
    chars_from, chars_of, chars_start_with, decimal, push_decimal, push_str, seq_starts_with, string_from_chars,
    trim, trim_end_char, trim_end_matching, trimmed,
};

verus! {

/// Name of the session cookie.
pub const SESSION_COOKIE: &'static str = "smoothie_session";
/// Lifetime of a session, in seconds (30 days).
pub const SESSION_TTL_SECS: u64 = 2592000;
/// Lifetime of an OAuth `state` value, in seconds.
pub const OAUTH_STATE_TTL_SECS: u64 = 600;

/// `user:github:{github_id}`
pub fn key_user(github_id: u64) -> (k: String)
    ensures
        k@ == "user:github:"@ + decimal(github_id as nat),
{
    push_decimal(String::from_str("user:github:"), github_id)
}

/// The lowercase form of a text (Unicode lowercase mapping).
pub uninterp spec fn lowercase(s: Seq<char>) -> Seq<char>;

/// `str::to_lowercase`.
#[verifier::external_body]
fn to_lowercase(s: &str) -> (r: String)
    ensures
        r@ == lowercase(s@),
{
    s.to_lowercase()
}

/// `user:login:{login in lowercase}`
pub fn key_user_login(login: &str) -> (k: String)
    ensures
        k@ == "user:login:"@ + lowercase(login@),
{
    let l = to_lowercase(login);
    String::from_str("user:login:").concat(l.as_str())
}

/// `session:{token}`
pub fn key_session(token: &str) -> (k: String)
    ensures
        k@ == "session:"@ + token@,
{
    String::from_str("session:").concat(token)
}

/// `user:github:{github_id}:sessions`
pub fn key_user_sessions(github_id: u64) -> (k: String)
    ensures
        k@ == "user:github:"@ + decimal(github_id as nat) + ":sessions"@,
{
    push_str(push_decimal(String::from_str("user:github:"), github_id), ":sessions")
}

/// `oauth:state:{state}`
pub fn key_oauth_state(state: &str) -> (k: String)
    ensures
        k@ == "oauth:state:"@ + state@,
{
    String::from_str("oauth:state:").concat(state)
}

/// Whether percent-encoding keeps a byte as it is: ASCII letters and
/// digits, `-`, `.`, `_` and `~`.
pub open spec fn url_safe_byte(b: u8) -> bool {
    (48 <= b && b <= 57) || (65 <= b && b <= 90) || (97 <= b && b <= 122) || b == 45 || b == 46 || b == 95
        || b == 126
}

/// An uppercase hexadecimal digit.
pub open spec fn upper_hex_digit(d: u8) -> char {
    if d < 10 {
        (48 + d) as char
    } else {
        (55 + d) as char
    }
}

/// One byte as percent-encoding writes it: a safe byte as it is, any
/// other as `%` and its two uppercase hexadecimal digits.
pub open spec fn url_encoded_byte(b: u8) -> Seq<char> {
    if url_safe_byte(b) {
        seq![b as char]
    } else {
        seq!['%', upper_hex_digit(b / 16), upper_hex_digit(b % 16)]
    }
}

/// The bytes written one after the other.
pub open spec fn url_encoded_bytes(bytes: Seq<u8>) -> Seq<char>
    decreases bytes.len(),
{
    if bytes.len() == 0 {
        Seq::empty()
    } else {
        url_encoded_bytes(bytes.drop_last()) + url_encoded_byte(bytes.last())
    }
}

/// The percent-encoding of a text for a URL query: each byte of its
/// UTF-8 encoding written by `url_encoded_byte`.
pub open spec fn url_encoded(s: Seq<char>) -> Seq<char> {
    url_encoded_bytes(vstd::utf8::encode_utf8(s))
}

/// `urlencoding::encode`: percent-encodes every byte of the UTF-8 text
/// except ASCII letters, digits, `-`, `.`, `_` and `~`.
#[verifier::external_body]
fn url_encode(s: &str) -> (r: String)
    ensures
        r@ == url_encoded(s@),
{
    urlencoding::encode(s).into_owned()
}

/// The GitHub authorization URL for a sign-in attempt.
pub open spec fn authorize_url(client_id: Seq<char>, redirect_uri: Seq<char>, state: Seq<char>) -> Seq<char> {
    "https://github.com/login/oauth/authorize?client_id="@ + url_encoded(client_id) + "&redirect_uri="@
        + url_encoded(redirect_uri) + "&scope="@ + url_encoded("read:user user:email"@) + "&state="@
        + url_encoded(state)
}

/// Where the browser is sent to sign in with GitHub.
pub fn github_authorize_url(cfg: &GithubConfig, state: &str) -> (url: String)
    ensures
        url@ == authorize_url(cfg.client_id@, cfg.redirect_uri@, state@),
{
    let scope = url_encode("read:user user:email");
    let s = String::from_str("https://github.com/login/oauth/authorize?client_id=");
    let s = s.concat(url_encode(cfg.client_id.as_str()).as_str());
    let s = push_str(s, "&redirect_uri=");
    let s = s.concat(url_encode(cfg.redirect_uri.as_str()).as_str());
    let s = push_str(s, "&scope=");
    let s = s.concat(scope.as_str());
    let s = push_str(s, "&state=");
    s.concat(url_encode(state).as_str())
}

/// The frontend's base URL, without trailing `/`.
pub fn frontend_url(cfg: &GithubConfig) -> (url: String)
    ensures
        url@ == trim_end_char(cfg.frontend_url@, '/'),
{
    let v = trim_end_matching(cfg.frontend_url.as_str(), '/');
    string_from_chars(&v)
}

/// The session token a request carries, if any.
pub struct SessionToken(pub Option<String>);

/// The token of an `Authorization` header value: `Bearer ` or `bearer `
/// after trimming, then the rest trimmed and non-empty.
pub open spec fn bearer_token(header: Seq<char>) -> Option<Seq<char>> {
    let h = trim(header);
    let rest = if seq_starts_with(h, "Bearer "@) {
        Some(h.subrange(7, h.len() as int))
    } else if seq_starts_with(h, "bearer "@) {
        Some(h.subrange(7, h.len() as int))
    } else {
        None
    };
    match rest {
        Some(r) => if trim(r).len() > 0 {
            Some(trim(r))
        } else {
            None
        },
        None => None,
    }
}

/// The session token: from a bearer `Authorization` header if it has
/// one, else from a non-blank session cookie (trimmed).
pub open spec fn session_token_of(authorization: Option<Seq<char>>, cookie: Option<Seq<char>>) -> Option<Seq<char>> {
    let from_header = match authorization {
        Some(h) => bearer_token(h),
        None => None,
    };
    if from_header is Some {
        from_header
    } else {
        match cookie {
            Some(c) => if trim(c).len() > 0 {
                Some(trim(c))
            } else {
                None
            },
            None => None,
        }
    }
}

pub open spec fn opt_str_view(o: Option<&str>) -> Option<Seq<char>> {
    match o {
        Some(s) => Some(s@),
        None => None,
    }
}

fn bearer_of(header: &str) -> (r: Option<String>)
    ensures
        match bearer_token(header@) {
            Some(t) => r matches Some(s) && s@ == t,
            None => r is None,
        },
{
    let h = trimmed(header);
    proof {
        reveal_strlit("Bearer ");
        reveal_strlit("bearer ");
    }
    if chars_start_with(&h, "Bearer ") || chars_start_with(&h, "bearer ") {
        let rest = string_from_chars(&chars_from(&h, 7));
        let t = trimmed(rest.as_str());
        if t.len() > 0 {
            Some(string_from_chars(&t))
        } else {
            None
        }
    } else {
        None
    }
}

impl SessionToken {
    /// The token a request carries (see `session_token_of`).
    pub fn from_parts(authorization: Option<&str>, cookie: Option<&str>) -> (t: SessionToken)
        ensures
            match session_token_of(opt_str_view(authorization), opt_str_view(cookie)) {
                Some(v) => t.0 matches Some(s) && s@ == v,
                None => t.0 is None,
            },
    {
        let from_header = match authorization {
            Some(h) => bearer_of(h),
            None => None,
        };
        if from_header.is_some() {
            return SessionToken(from_header);
        }
        match cookie {
            Some(c) => {
                let t = trimmed(c);
                if t.len() > 0 {
                    SessionToken(Some(string_from_chars(&t)))
                } else {
                    SessionToken(None)
                }
            },
            None => SessionToken(None),
        }
    }
}

/// A signed-in user as stored.
pub struct StoredUser {
    pub github_id: u64,
    pub login: String,
    pub name: Option<String>,
    pub avatar_url: Option<String>,
    pub email: Option<String>,
    pub created_at: String,
    pub updated_at: String,
}

/// One of the e-mail addresses GitHub lists for a user.
pub struct GithubEmail {
    pub email: String,
    pub primary: bool,
    pub verified: bool,
}

fn find_email(emails: &Vec<GithubEmail>, need_primary: bool) -> (r: Option<usize>)
    ensures
        match r {
            Some(i) => i < emails@.len() && emails@[i as int].verified && (!need_primary || emails@[i as int].primary)
                && forall|j: int| 0 <= j < i ==> !(emails@[j].verified && (!need_primary || emails@[j].primary)),
            None => forall|j: int| 0 <= j < emails@.len() ==> !(emails@[j].verified && (!need_primary || emails@[j].primary)),
        },
{
    let mut i: usize = 0;
    while i < emails.len()
        invariant
            i <= emails@.len(),
            forall|j: int| 0 <= j < i ==> !(emails@[j].verified && (!need_primary || emails@[j].primary)),
        decreases emails@.len() - i,
    {
        if emails[i].verified && (!need_primary || emails[i].primary) {
            return Some(i);
        }
        i = i + 1;
    }
    None
}

/// The address chosen for a user without a public e-mail: the first
/// primary verified one, else the first verified one.
pub fn select_email(emails: &Vec<GithubEmail>) -> (r: Option<String>)
    ensures
        match find_first(emails@, true) {
            Some(i) => r matches Some(s) && s@ == emails@[i].email@,
            None => match find_first(emails@, false) {
                Some(i) => r matches Some(s) && s@ == emails@[i].email@,
                None => r is None,
            },
        },
{
    match find_email(emails, true) {
        Some(i) => {
            proof {
                lemma_find_first(emails@, true, i as int);
            }
            Some(emails[i].email.clone())
        },
        None => {
            proof {
                lemma_find_first_none(emails@, true);
            }
            match find_email(emails, false) {
                Some(i) => {
                    proof {
                        lemma_find_first(emails@, false, i as int);
                    }
                    Some(emails[i].email.clone())
                },
                None => {
                    proof {
                        lemma_find_first_none(emails@, false);
                    }
                    None
                },
            }
        },
    }
}

/// The first index from the front whose e-mail qualifies.
pub open spec fn find_first(emails: Seq<GithubEmail>, need_primary: bool) -> Option<int>
    decreases emails.len(),
{
    if emails.len() == 0 {
        None
    } else if emails[0].verified && (!need_primary || emails[0].primary) {
        Some(0)
    } else {
        match find_first(emails.drop_first(), need_primary) {
            Some(i) => Some(i + 1),
            None => None,
        }
    }
}

proof fn lemma_find_first(emails: Seq<GithubEmail>, need_primary: bool, i: int)
    requires
        0 <= i < emails.len(),
        emails[i].verified && (!need_primary || emails[i].primary),
        forall|j: int| 0 <= j < i ==> !(emails[j].verified && (!need_primary || emails[j].primary)),
    ensures
        find_first(emails, need_primary) == Some(i),
    decreases i,
{
    if i > 0 {
        let d = emails.drop_first();
        assert forall|j: int| 0 <= j < i - 1 implies !(d[j].verified && (!need_primary || d[j].primary)) by {
            assert(d[j] == emails[j + 1]);
        }
        assert(d[i - 1] == emails[i]);
        lemma_find_first(d, need_primary, i - 1);
        assert(!(emails[0].verified && (!need_primary || emails[0].primary)));
    }
}

proof fn lemma_find_first_none(emails: Seq<GithubEmail>, need_primary: bool)
    requires
        forall|j: int| 0 <= j < emails.len() ==> !(emails[j].verified && (!need_primary || emails[j].primary)),
    ensures
        find_first(emails, need_primary) is None,
    decreases emails.len(),
{
    if emails.len() > 0 {
        let d = emails.drop_first();
        assert forall|j: int| 0 <= j < d.len() implies !(d[j].verified && (!need_primary || d[j].primary)) by {
            assert(d[j] == emails[j + 1]);
        }
        lemma_find_first_none(d, need_primary);
        assert(!(emails[0].verified && (!need_primary || emails[0].primary)));
    }
}

/// GitHub's answer to a code exchange.
pub struct GithubTokenResponse {
    pub access_token: Option<String>,
    pub error: Option<String>,
    pub error_description: Option<String>,
}

/// The access token of a code exchange, or why there is none: the error
/// description, else the error code, else `missing access token`.
pub fn token_from_response(body: GithubTokenResponse) -> (r: Result<String, String>)
    ensures
        match body.access_token {
            Some(t) => r matches Ok(s) && s@ == t@,
            None => match body.error_description {
                Some(d) => r matches Err(s) && s@ == d@,
                None => match body.error {
                    Some(e) => r matches Err(s) && s@ == e@,
                    None => r matches Err(s) && s@ == "missing access token"@,
                },
            },
        },
{
    match body.access_token {
        Some(t) => Ok(t),
        None => match body.error_description {
            Some(d) => Err(d),
            None => match body.error {
                Some(e) => Err(e),
                None => Err(String::from_str("missing access token")),
            },
        },
    }
}

/// A required query parameter of the sign-in callback, trimmed; absent or
/// blank gives 400 with `message`.
pub fn required_param(value: Option<String>, message: &str) -> (r: Result<String, ApiError>)
    ensures
        match value {
            Some(v) => if trim(v@).len() > 0 {
                r matches Ok(s) && s@ == trim(v@)
            } else {
                r matches Err(e) && e.status == 400 && e.message@ == message@
            },
            None => r matches Err(e) && e.status == 400 && e.message@ == message@,
        },
{
    match value {
        Some(v) => {
            let t = trimmed(v.as_str());
            if t.len() > 0 {
                Ok(string_from_chars(&t))
            } else {
                Err(json_error(400, String::from_str(message)))
            }
        },
        None => Err(json_error(400, String::from_str(message))),
    }
}

/// The GitHub account a sign-in returns.
pub struct GithubUser {
    pub id: u64,
    pub login: String,
    pub name: Option<String>,
    pub avatar_url: Option<String>,
    pub email: Option<String>,
}

/// The stored user after a sign-in: GitHub's account data, the update
/// time, and the creation time kept from an earlier record if there is
/// one.
pub fn signed_in_user(gh: GithubUser, existing_created_at: Option<String>, now: String) -> (u: StoredUser)
    ensures
        u.github_id == gh.id,
        u.login == gh.login,
        u.name == gh.name,
        u.avatar_url == gh.avatar_url,
        u.email == gh.email,
        u.created_at == (match existing_created_at {
            Some(c) => c,
            None => now,
        }),
        u.updated_at == now,
{
    let created_at = match existing_created_at {
        Some(c) => c,
        None => now.clone(),
    };
    StoredUser {
        github_id: gh.id,
        login: gh.login,
        name: gh.name,
        avatar_url: gh.avatar_url,
        email: gh.email,
        created_at,
        updated_at: now,
    }
}

/// Where the browser goes after signing in: the frontend's
/// `/auth/callback` with the session token.
pub fn callback_redirect(cfg: &GithubConfig, token: &str) -> (url: String)
    ensures
        url@ == trim_end_char(cfg.frontend_url@, '/') + "/auth/callback?session="@ + url_encoded(token@),
{
    let base = frontend_url(cfg);
    let url = push_str(base, "/auth/callback?session=");
    url.concat(url_encode(token).as_str())
}

/// Refuses sign-in while GitHub is not configured (503 with `message`).
pub fn require_github(cfg: &GithubConfig, message: &str) -> (r: Result<(), ApiError>)
    ensures
        if cfg.client_id@.len() != 0 && cfg.client_secret@.len() != 0 {
            r is Ok
        } else {
            r matches Err(e) && e.status == 503 && e.message@ == message@
        },
{
    if crate::api::config::github_configured(cfg) {
        Ok(())
    } else {
        Err(json_error(503, String::from_str(message)))
    }
}

/// The value of a decimal digit character.
pub open spec fn digit_value(c: char) -> int {
    (c as int) - ('0' as int)
}

pub open spec fn is_digit(c: char) -> bool {
    '0' <= c && c <= '9'
}

/// The number a string of decimal digits denotes.
pub open spec fn digits_value(d: Seq<char>) -> nat
    decreases d.len(),
{
    if d.len() == 0 {
        0
    } else {
        (digits_value(d.drop_last()) * 10 + digit_value(d.last())) as nat
    }
}

/// The text after an optional leading `+`.
pub open spec fn unsigned_digits(s: Seq<char>) -> Seq<char> {
    if s.len() > 0 && s[0] == '+' {
        s.drop_first()
    } else {
        s
    }
}

/// Whether every character is a decimal digit.
pub open spec fn all_digits(d: Seq<char>) -> bool {
    forall|i: int| 0 <= i < d.len() ==> is_digit(#[trigger] d[i])
}

/// What `str::parse::<u64>` reads: an optional `+`, then one or more
/// decimal digits whose value fits in a `u64`.
pub open spec fn parsed_u64(s: Seq<char>) -> Option<u64> {
    let d = unsigned_digits(s);
    if d.len() == 0 || !all_digits(d) {
        None
    } else if digits_value(d) > u64::MAX {
        None
    } else {
        Some(digits_value(d) as u64)
    }
}

proof fn lemma_digits_value_prefix(d: Seq<char>, i: int)
    requires
        0 <= i < d.len(),
        forall|k: int| 0 <= k < d.len() ==> is_digit(#[trigger] d[k]),
    ensures
        digits_value(d.subrange(0, i + 1)) == digits_value(d.subrange(0, i)) * 10 + digit_value(d[i]),
{
    assert(d.subrange(0, i + 1).drop_last() =~= d.subrange(0, i));
}

proof fn lemma_digits_value_grows(d: Seq<char>, i: int, j: int)
    requires
        0 <= i <= j <= d.len(),
        forall|k: int| 0 <= k < d.len() ==> is_digit(#[trigger] d[k]),
    ensures
        digits_value(d.subrange(0, i)) <= digits_value(d.subrange(0, j)),
    decreases j - i,
{
    if i < j {
        lemma_digits_value_grows(d, i, j - 1);
        lemma_digits_value_prefix(d, j - 1);
    }
}

/// Reads a decimal `u64` as `str::parse` does.
pub fn parse_u64(s: &str) -> (r: Option<u64>)
    ensures
        r == parsed_u64(s@),
{
    let c = chars_of(s);
    let start: usize = if c.len() > 0 && c[0] == '+' {
        1
    } else {
        0
    };
    let ghost d = unsigned_digits(s@);
    proof {
        assert(d =~= c@.subrange(start as int, c@.len() as int));
    }
    if start == c.len() {
        return None;
    }
    let mut i: usize = start;
    while i < c.len()
        invariant
            start <= i <= c@.len(),
            c@ == s@,
            d == c@.subrange(start as int, c@.len() as int),
            d == unsigned_digits(s@),
            forall|k: int| start <= k < i ==> is_digit(#[trigger] c@[k]),
        decreases c@.len() - i,
    {
        if !('0' <= c[i] && c[i] <= '9') {
            proof {
                assert(d[i - start] == c@[i as int]);
                assert(!is_digit(d[i - start]));
                assert(!all_digits(d));
                assert(parsed_u64(s@) is None);
            }
            return None;
        }
        i = i + 1;
    }
    proof {
        assert forall|k: int| 0 <= k < d.len() implies is_digit(#[trigger] d[k]) by {
            assert(d[k] == c@[k + start]);
        }
    }
    let mut value: u64 = 0;
    let mut i: usize = start;
    while i < c.len()
        invariant
            start <= i <= c@.len(),
            c@ == s@,
            d == c@.subrange(start as int, c@.len() as int),
            d == unsigned_digits(s@),
            forall|k: int| 0 <= k < d.len() ==> is_digit(#[trigger] d[k]),
            value == digits_value(d.subrange(0, i - start)),
        decreases c@.len() - i,
    {
        proof {
            assert(d[i - start] == c@[i as int]);
            assert(is_digit(c@[i as int]));
        }
        let digit: u64 = ((c[i] as u32) - ('0' as u32)) as u64;
        proof {
            assert(d[i - start] == c@[i as int]);
            lemma_digits_value_prefix(d, i - start);
            assert(digit == digit_value(d[i - start]));
        }
        if value > 1844674407370955161u64 || (value == 1844674407370955161u64 && digit > 5) {
            proof {
                lemma_digits_value_grows(d, i - start + 1, d.len() as int);
                assert(d.subrange(0, d.len() as int) =~= d);
                assert(digits_value(d) > u64::MAX);
                assert(parsed_u64(s@) is None);
            }
            return None;
        }
        value = value * 10 + digit;
        i = i + 1;
    }
    proof {
        assert(d.subrange(0, d.len() as int) =~= d);
    }
    Some(value)
}

/// The user id a session names: 401 `invalid or expired session` for no
/// session, 401 `invalid session` for a stored value that is no number.
pub fn session_user_id(stored: Option<String>) -> (r: Result<u64, ApiError>)
    ensures
        match stored {
            None => r matches Err(e) && e.status == 401 && e.message@ == "invalid or expired session"@,
            Some(v) => match parsed_u64(v@) {
                Some(id) => r == Ok::<u64, ApiError>(id),
                None => r matches Err(e) && e.status == 401 && e.message@ == "invalid session"@,
            },
        },
{
    match stored {
        None => Err(json_error(401, String::from_str("invalid or expired session"))),
        Some(v) => match parse_u64(v.as_str()) {
            Some(id) => Ok(id),
            None => Err(json_error(401, String::from_str("invalid session"))),
        },
    }
}

/// The token of a request that must be signed in: 401 with `message`
/// when it carries none.
pub fn required_session(token: &SessionToken, message: &str) -> (r: Result<String, ApiError>)
    ensures
        match token.0 {
            Some(t) => r == Ok::<String, ApiError>(t),
            None => r matches Err(e) && e.status == 401 && e.message@ == message@,
        },
{
    match &token.0 {
        Some(t) => Ok(t.clone()),
        None => Err(json_error(401, String::from_str(message))),
    }
}

proof fn lemma_decimal_digits(n: nat)
    ensures
        decimal(n).len() > 0,
        all_digits(decimal(n)),
        decimal(n)[0] != '+',
        digits_value(decimal(n)) == n,
    decreases n,
{
    let c = crate::text::digit_char(n % 10);
    assert(c as int == 48 + n % 10);
    assert(('0' as int) == 48);
    assert(digit_value(c) == n % 10);
    if n < 10 {
        assert(decimal(n) =~= seq![c]);
        assert(decimal(n).drop_last() =~= Seq::<char>::empty());
        assert(digits_value(Seq::<char>::empty()) == 0);
        assert(decimal(n).last() == c);
        assert(n % 10 == n);
        assert(digits_value(decimal(n)) == n);
    } else {
        lemma_decimal_digits(n / 10);
        let d = decimal(n / 10);
        assert(decimal(n) == d.push(c));
        assert(decimal(n).drop_last() =~= d);
        assert(digits_value(decimal(n)) == digits_value(d) * 10 + digit_value(c));
        assert(n == (n / 10) * 10 + n % 10) by (nonlinear_arith);
        assert(digits_value(decimal(n)) == n);
        assert forall|i: int| 0 <= i < decimal(n).len() implies is_digit(#[trigger] decimal(n)[i]) by {
            if i < d.len() {
                assert(decimal(n)[i] == d[i]);
            }
        }
        assert(decimal(n)[0] == d[0]);
    }
}

/// Law: a user id written in decimal (as sessions store it) reads back
/// as the same id.
pub proof fn session_ids_read_back(id: u64)
    ensures
        parsed_u64(decimal(id as nat)) == Some(id),
{
    lemma_decimal_digits(id as nat);
    assert(unsigned_digits(decimal(id as nat)) == decimal(id as nat));
}

} // verus!
