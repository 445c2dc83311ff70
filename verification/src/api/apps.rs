//! Apps: storage keys, name and icon validation, and the changes that
//! creating or updating an app makes.

use vstd::prelude::*;
use crate::api::state::{json_error, ApiError};
use crate::text::{clone_opt, decimal, utf8_len, push_decimal, push_str, str_eq, string_from_chars, trim, trimmed};

verus! {

/// `app:{app_id}`
pub fn key_app(app_id: &str) -> (k: String)
    ensures
        k@ == "app:"@ + app_id@,
{
    String::from_str("app:").concat(app_id)
}

/// `user:{github_id}:apps`
pub fn key_user_apps(github_id: u64) -> (k: String)
    ensures
        k@ == "user:"@ + decimal(github_id as nat) + ":apps"@,
{
    push_str(push_decimal(String::from_str("user:"), github_id), ":apps")
}

/// An app owned by a user.
pub struct App {
    pub id: String,
    pub owner_id: u64,
    pub name: String,
    pub icon: Option<String>,
    pub icon_kind: Option<String>,
    pub created_at: String,
    pub updated_at: String,
}

/// The body of an app creation request.
pub struct CreateAppBody {
    pub name: Option<String>,
    pub icon: Option<String>,
    pub icon_kind: Option<String>,
}

/// The verdict on a proposed app name.
pub open spec fn app_name_verdict(name: Seq<char>) -> Result<Seq<char>, Seq<char>> {
    let t = trim(name);
    if t.len() == 0 {
        Err("name is required"@)
    } else if t.len() > 64 {
        Err("name must be at most 64 characters"@)
    } else {
        Ok(t)
    }
}

pub open spec fn text_verdict_matches(r: Result<String, String>, v: Result<Seq<char>, Seq<char>>) -> bool {
    match v {
        Ok(t) => r matches Ok(s) && s@ == t,
        Err(m) => r matches Err(s) && s@ == m,
    }
}

/// Trims an app name and checks that it is present and at most 64
/// characters long.
pub fn validate_app_name(name: &str) -> (r: Result<String, String>)
    ensures
        text_verdict_matches(r, app_name_verdict(name@)),
{
    let t = trimmed(name);
    if t.len() == 0 {
        return Err(String::from_str("name is required"));
    }
    if t.len() > 64 {
        return Err(String::from_str("name must be at most 64 characters"));
    }
    Ok(string_from_chars(&t))
}

/// A trimmed, non-empty optional text.
pub open spec fn nonblank(o: Option<Seq<char>>) -> Option<Seq<char>> {
    match o {
        Some(s) => if trim(s).len() > 0 {
            Some(trim(s))
        } else {
            None
        },
        None => None,
    }
}

pub open spec fn opt_view(o: Option<String>) -> Option<Seq<char>> {
    match o {
        Some(s) => Some(s@),
        None => None,
    }
}

/// A character allowed in an icon name.
pub open spec fn icon_name_char(c: char) -> bool {
    ('a' <= c && c <= 'z') || ('A' <= c && c <= 'Z') || ('0' <= c && c <= '9') || c == '-' || c == '_'
}

/// The verdict on an icon and its kind: both absent, or both present with
/// a value that suits the kind.
pub open spec fn icon_verdict(icon: Option<Seq<char>>, icon_kind: Option<Seq<char>>) -> Result<
    (Option<Seq<char>>, Option<Seq<char>>),
    Seq<char>,
> {
    let kind = nonblank(icon_kind);
    let value = nonblank(icon);
    match (kind, value) {
        (None, None) => Ok((None, None)),
        (None, Some(_)) => Err("icon_kind is required when icon is set (emoji | icon | upload)"@),
        (Some(_), None) => Err("icon is required when icon_kind is set"@),
        (Some(k), Some(v)) => if k == "emoji"@ {
            if v.len() > 16 {
                Err("emoji icon is too long"@)
            } else {
                Ok((Some(v), Some(k)))
            }
        } else if k == "icon"@ {
            if utf8_len(v) > 64 {
                Err("icon name is too long"@)
            } else if !(forall|i: int| 0 <= i < v.len() ==> icon_name_char(#[trigger] v[i])) {
                Err("icon name may only contain letters, numbers, - and _"@)
            } else {
                Ok((Some(v), Some(k)))
            }
        } else if k == "upload"@ {
            if utf8_len(v) > 1000000 {
                Err("uploaded icon is too large"@)
            } else {
                Ok((Some(v), Some(k)))
            }
        } else {
            Err("icon_kind must be one of: emoji, icon, upload"@)
        },
    }
}

fn nonblank_of(o: &Option<String>) -> (r: Option<String>)
    ensures
        opt_view(r) == nonblank(opt_view(*o)),
{
    match o {
        Some(s) => {
            let t = trimmed(s.as_str());
            if t.len() > 0 {
                Some(string_from_chars(&t))
            } else {
                None
            }
        },
        None => None,
    }
}

fn all_icon_name_chars(v: &String) -> (r: bool)
    ensures
        r == (forall|i: int| 0 <= i < v@.len() ==> icon_name_char(#[trigger] v@[i])),
{
    let c = crate::text::chars_of(v.as_str());
    let mut i: usize = 0;
    while i < c.len()
        invariant
            c@ == v@,
            i <= c@.len(),
            forall|j: int| 0 <= j < i ==> icon_name_char(#[trigger] c@[j]),
        decreases c@.len() - i,
    {
        let ch = c[i];
        if !(('a' <= ch && ch <= 'z') || ('A' <= ch && ch <= 'Z') || ('0' <= ch && ch <= '9') || ch == '-' || ch == '_') {
            assert(!icon_name_char(c@[i as int]));
            return false;
        }
        i = i + 1;
    }
    true
}

pub open spec fn icon_pair_view(p: (Option<String>, Option<String>)) -> (Option<Seq<char>>, Option<Seq<char>>) {
    (opt_view(p.0), opt_view(p.1))
}

/// Trims an icon and its kind and checks them together: both absent, or
/// an `emoji` of at most 16 characters, an `icon` name of at most 64 bytes
/// of letters, digits, `-` and `_`, or an `upload` of at most 1,000,000
/// bytes.
pub fn validate_icon(icon: &Option<String>, icon_kind: &Option<String>) -> (r: Result<
    (Option<String>, Option<String>),
    String,
>)
    ensures
        match icon_verdict(opt_view(*icon), opt_view(*icon_kind)) {
            Ok(p) => r matches Ok(q) && icon_pair_view(q) == p,
            Err(m) => r matches Err(s) && s@ == m,
        },
{
    let kind = nonblank_of(icon_kind);
    let value = nonblank_of(icon);
    match (kind, value) {
        (None, None) => Ok((None, None)),
        (None, Some(_)) => Err(String::from_str("icon_kind is required when icon is set (emoji | icon | upload)")),
        (Some(_), None) => Err(String::from_str("icon is required when icon_kind is set")),
        (Some(k), Some(v)) => {
            if str_eq(k.as_str(), "emoji") {
                if crate::text::chars_of(v.as_str()).len() > 16 {
                    return Err(String::from_str("emoji icon is too long"));
                }
                Ok((Some(v), Some(k)))
            } else if str_eq(k.as_str(), "icon") {
                if v.as_str().len() > 64 {
                    return Err(String::from_str("icon name is too long"));
                }
                if !all_icon_name_chars(&v) {
                    return Err(String::from_str("icon name may only contain letters, numbers, - and _"));
                }
                Ok((Some(v), Some(k)))
            } else if str_eq(k.as_str(), "upload") {
                if v.as_str().len() > 1000000 {
                    return Err(String::from_str("uploaded icon is too large"));
                }
                Ok((Some(v), Some(k)))
            } else {
                Err(String::from_str("icon_kind must be one of: emoji, icon, upload"))
            }
        },
    }
}

/// A JSON request body as the identity check reads it: the keys of an
/// object, in the object's order, or nothing of any other value.
pub enum BodyShape {
    Object(Vec<String>),
    Other,
}

/// Keys that would change an app's identity or owner.
pub open spec fn identity_key(k: Seq<char>) -> bool {
    k == "id"@ || k == "uuid"@ || k == "owner_id"@ || k == "ownerId"@ || k == "app_id"@ || k == "appId"@
}

/// Refuses a request body whose keys would change an identity field:
/// 400 `changing id is not allowed` exactly when one of the keys is `id`,
/// `uuid`, `owner_id`, `ownerId`, `app_id` or `appId`.
pub fn reject_id_change_keys(keys: &Vec<String>) -> (r: Result<(), ApiError>)
    ensures
        if exists|i: int| 0 <= i < keys@.len() && identity_key(#[trigger] keys@[i]@) {
            r matches Err(e) && e.status == 400 && e.message@ == "changing id is not allowed"@
        } else {
            r is Ok
        },
{
    let mut i: usize = 0;
    while i < keys.len()
        invariant
            i <= keys@.len(),
            forall|j: int| 0 <= j < i ==> !identity_key(#[trigger] keys@[j]@),
        decreases keys@.len() - i,
    {
        let k = keys[i].as_str();
        if str_eq(k, "id") || str_eq(k, "uuid") || str_eq(k, "owner_id") || str_eq(k, "ownerId")
            || str_eq(k, "app_id") || str_eq(k, "appId") {
            assert(identity_key(keys@[i as int]@));
            return Err(json_error(400, String::from_str("changing id is not allowed")));
        }
        i = i + 1;
    }
    Ok(())
}

/// Refuses a request body that would change an identity field (see
/// `reject_id_change_keys`, applied to the body's keys; a body that is
/// not an object passes).
pub fn reject_id_change(body: &BodyShape) -> (r: Result<(), ApiError>)
    ensures
        match *body {
            BodyShape::Object(keys) => if exists|i: int| 0 <= i < keys@.len() && identity_key(#[trigger] keys@[i]@) {
                r matches Err(e) && e.status == 400 && e.message@ == "changing id is not allowed"@
            } else {
                r is Ok
            },
            BodyShape::Other => r is Ok,
        },
{
    match body {
        BodyShape::Object(keys) => reject_id_change_keys(keys),
        BodyShape::Other => Ok(()),
    }
}

/// The app a creation request makes, or why it is refused (400).
pub open spec fn new_app_verdict(
    body_name: Option<Seq<char>>,
    body_icon: Option<Seq<char>>,
    body_icon_kind: Option<Seq<char>>,
) -> Result<(Seq<char>, Option<Seq<char>>, Option<Seq<char>>), Seq<char>> {
    let name = match body_name {
        Some(n) => n,
        None => Seq::empty(),
    };
    match app_name_verdict(name) {
        Err(m) => Err(m),
        Ok(n) => match icon_verdict(body_icon, body_icon_kind) {
            Err(m) => Err(m),
            Ok((i, k)) => Ok((n, i, k)),
        },
    }
}

/// Validates a creation request and builds the new app with the given id,
/// owner and creation time.
pub fn create_app_record(body: &CreateAppBody, id: String, owner_id: u64, now: String) -> (r: Result<
    App,
    ApiError,
>)
    ensures
        match new_app_verdict(opt_view(body.name), opt_view(body.icon), opt_view(body.icon_kind)) {
            Err(m) => r matches Err(e) && e.status == 400 && e.message@ == m,
            Ok((n, i, k)) => r matches Ok(app) && app.id == id && app.owner_id == owner_id && app.name@
                == n && opt_view(app.icon) == i && opt_view(app.icon_kind) == k && app.created_at == now
                && app.updated_at == now,
        },
{
    let name = match &body.name {
        Some(n) => validate_app_name(n.as_str()),
        None => validate_app_name(""),
    };
    proof {
        reveal_strlit("");
    }
    let name = match name {
        Ok(n) => n,
        Err(m) => {
            return Err(json_error(400, m));
        },
    };
    let (icon, icon_kind) = match validate_icon(&body.icon, &body.icon_kind) {
        Ok(p) => p,
        Err(m) => {
            return Err(json_error(400, m));
        },
    };
    let created_at = now.clone();
    Ok(App { id, owner_id, name, icon, icon_kind, created_at, updated_at: now })
}

/// A field of a JSON object as read by the app: missing, `null`, a
/// string, or another kind of value.
pub enum JsonText {
    Absent,
    Null,
    Text(String),
    Other,
}

pub open spec fn json_text_present(f: JsonText) -> bool {
    !(f is Absent)
}

/// A string field's text; `null` and non-strings give none.
pub open spec fn json_text_value(f: JsonText) -> Option<Seq<char>> {
    match f {
        JsonText::Text(s) => Some(s@),
        _ => None,
    }
}

/// The app an update request leaves, or why it is refused (400).
pub open spec fn app_update_verdict(app: App, name: JsonText, icon: JsonText, icon_kind: JsonText) -> Result<
    (Seq<char>, Option<Seq<char>>, Option<Seq<char>>),
    Seq<char>,
> {
    if json_text_value(name) is None && !json_text_present(icon) && !json_text_present(icon_kind) {
        Err("nothing to update (want name, icon, icon_kind)"@)
    } else {
        let named = match json_text_value(name) {
            Some(n) => app_name_verdict(n),
            None => Ok(app.name@),
        };
        match named {
            Err(m) => Err(m),
            Ok(n) => if json_text_present(icon) || json_text_present(icon_kind) {
                if icon is Other {
                    Err("icon must be a string or null"@)
                } else if icon_kind is Other {
                    Err("icon_kind must be a string or null"@)
                } else {
                    match icon_verdict(json_text_value(icon), json_text_value(icon_kind)) {
                        Err(m) => Err(m),
                        Ok((i, k)) => Ok((n, i, k)),
                    }
                }
            } else {
                Ok((n, opt_view(app.icon), opt_view(app.icon_kind)))
            },
        }
    }
}

fn text_of(f: &JsonText) -> (r: Option<String>)
    ensures
        opt_view(r) == json_text_value(*f),
{
    match f {
        JsonText::Text(s) => Some(s.clone()),
        _ => None,
    }
}

/// Applies an update request to an app: the name and the icon pair are
/// validated as on creation, and the update time is set.
pub fn update_app_record(app: &mut App, name: &JsonText, icon: &JsonText, icon_kind: &JsonText, now: String) -> (r:
    Result<(), ApiError>)
    ensures
        match app_update_verdict(*old(app), *name, *icon, *icon_kind) {
            Err(m) => r matches Err(e) && e.status == 400 && e.message@ == m && *final(app) == *old(app),
            Ok((n, i, k)) => r is Ok && final(app).name@ == n && opt_view(final(app).icon) == i && opt_view(
                final(app).icon_kind,
            ) == k && final(app).updated_at == now && final(app).id == old(app).id && final(app).owner_id
                == old(app).owner_id && final(app).created_at == old(app).created_at,
        },
{
    let name_text = text_of(name);
    let icon_present = !matches!(icon, JsonText::Absent);
    let kind_present = !matches!(icon_kind, JsonText::Absent);
    if name_text.is_none() && !icon_present && !kind_present {
        return Err(json_error(400, String::from_str("nothing to update (want name, icon, icon_kind)")));
    }
    let new_name = match &name_text {
        Some(n) => match validate_app_name(n.as_str()) {
            Ok(v) => v,
            Err(m) => {
                return Err(json_error(400, m));
            },
        },
        None => app.name.clone(),
    };
    let mut new_icon = clone_opt(&app.icon);
    let mut new_kind = clone_opt(&app.icon_kind);
    if icon_present || kind_present {
        if matches!(icon, JsonText::Other) {
            return Err(json_error(400, String::from_str("icon must be a string or null")));
        }
        if matches!(icon_kind, JsonText::Other) {
            return Err(json_error(400, String::from_str("icon_kind must be a string or null")));
        }
        let i = text_of(icon);
        let k = text_of(icon_kind);
        match validate_icon(&i, &k) {
            Ok((a, b)) => {
                new_icon = a;
                new_kind = b;
            },
            Err(m) => {
                return Err(json_error(400, m));
            },
        }
    }
    app.name = new_name;
    app.icon = new_icon;
    app.icon_kind = new_kind;
    app.updated_at = now;
    Ok(())
}

/// Refuses a malformed app id (400 `invalid app id`): blank, or longer
/// than 128 bytes.
pub fn check_app_id(app_id: &str) -> (r: Result<(), ApiError>)
    ensures
        if trim(app_id@).len() == 0 || utf8_len(app_id@) > 128 {
            r matches Err(e) && e.status == 400 && e.message@ == "invalid app id"@
        } else {
            r is Ok
        },
{
    if trimmed(app_id).len() == 0 || app_id.len() > 128 {
        return Err(json_error(400, String::from_str("invalid app id")));
    }
    Ok(())
}

/// Apps are listed newest first: `a` comes before `b` when it was
/// created strictly later (text order of the timestamps).
pub open spec fn app_created_later() -> spec_fn(App, App) -> bool {
    |a: App, b: App| crate::text::text_lt(b.created_at@, a.created_at@)
}

/// The apps of `s` owned by the user, in the order given.
pub open spec fn owned_apps(s: Seq<App>, github_id: u64) -> Seq<App>
    decreases s.len(),
{
    if s.len() == 0 {
        s
    } else {
        let rest = owned_apps(s.drop_last(), github_id);
        if s.last().owner_id == github_id {
            rest.push(s.last())
        } else {
            rest
        }
    }
}

/// The apps of a listing: the user's own, newest first; apps created at
/// the same time keep the order they came in.
pub fn apps_for_listing(apps: Vec<App>, github_id: u64) -> (r: Vec<App>)
    ensures
        r@ == crate::order::stable_sorted_by(owned_apps(apps@, github_id), app_created_later()),
{
    let mut rest = apps;
    let ghost orig = rest@;
    let total: usize = rest.len();
    let mut out: Vec<App> = Vec::new();
    let mut k: usize = 0;
    let ghost mut kept: Seq<App> = Seq::empty();
    while rest.len() > 0
        invariant
            k + rest@.len() == orig.len(),
            orig.len() == total,
            rest@ == orig.subrange(k as int, orig.len() as int),
            kept == owned_apps(orig.subrange(0, k as int), github_id),
            out@ == crate::order::stable_sorted_by(kept, app_created_later()),
        decreases rest@.len(),
    {
        let a = rest.remove(0);
        proof {
            assert(a == orig[k as int]);
            assert(orig.subrange(0, k + 1).drop_last() =~= orig.subrange(0, k as int));
        }
        if a.owner_id == github_id {
            let ghost before = out@;
            let mut p: usize = out.len();
            while p > 0 && crate::text::str_lt(out[p - 1].created_at.as_str(), a.created_at.as_str())
                invariant
                    p <= out@.len(),
                    out@ == before,
                    forall|j: int| p <= j < out@.len() ==> (app_created_later())(a, #[trigger] out@[j]),
                decreases p,
            {
                p = p - 1;
            }
            proof {
                crate::order::lemma_insert_by_at(before, a, app_created_later(), p as int);
                assert(kept.push(a).drop_last() =~= kept);
                kept = kept.push(a);
            }
            out.insert(p, a);
        }
        k = k + 1;
        proof {
            assert(rest@ =~= orig.subrange(k as int, orig.len() as int));
        }
    }
    proof {
        assert(orig.subrange(0, orig.len() as int) =~= orig);
    }
    out
}

proof fn lemma_owned_apps_are_owned(s: Seq<App>, github_id: u64)
    ensures
        forall|k: int| 0 <= k < owned_apps(s, github_id).len() ==> (#[trigger] owned_apps(s, github_id)[k]).owner_id
            == github_id,
    decreases s.len(),
{
    if s.len() > 0 {
        let rest = owned_apps(s.drop_last(), github_id);
        let o = owned_apps(s, github_id);
        lemma_owned_apps_are_owned(s.drop_last(), github_id);
        assert forall|k: int| 0 <= k < o.len() implies (#[trigger] o[k]).owner_id == github_id by {
            if k < rest.len() {
                assert(o[k] == rest[k]);
            }
        }
    }
}

/// Law: an app listing is newest first, holds only the user's apps,
/// holds each of them as often as it was stored, and keeps apps created
/// at the same time in the order stored.
pub proof fn app_listing_is_newest_first(apps: Seq<App>, github_id: u64)
    ensures
        forall|i: int, j: int|
            0 <= i < j < crate::order::stable_sorted_by(owned_apps(apps, github_id), app_created_later()).len()
                ==> !crate::text::text_lt(
                #[trigger] crate::order::stable_sorted_by(owned_apps(apps, github_id), app_created_later())[i].created_at@,
                #[trigger] crate::order::stable_sorted_by(owned_apps(apps, github_id), app_created_later())[j].created_at@,
            ),
        crate::order::stable_sorted_by(owned_apps(apps, github_id), app_created_later()).to_multiset() == owned_apps(
            apps,
            github_id,
        ).to_multiset(),
        forall|k: int|
            0 <= k < crate::order::stable_sorted_by(owned_apps(apps, github_id), app_created_later()).len() ==> (
            #[trigger] crate::order::stable_sorted_by(owned_apps(apps, github_id), app_created_later())[k]).owner_id
                == github_id,
        forall|c: App|
            #[trigger] crate::order::stable_sorted_by(owned_apps(apps, github_id), app_created_later()).filter(
                crate::order::tied_with(c, app_created_later()),
            ) == owned_apps(apps, github_id).filter(crate::order::tied_with(c, app_created_later())),
{
    let f = app_created_later();
    let o = owned_apps(apps, github_id);
    let r = crate::order::stable_sorted_by(o, f);
    assert(crate::order::strict_weak_order(f)) by {
        assert forall|a: App| !#[trigger] f(a, a) by {
            crate::order::lemma_text_lt_irreflexive(a.created_at@);
        }
        assert forall|a: App, b: App, c: App| #[trigger] f(a, b) && #[trigger] f(b, c) implies f(a, c) by {
            crate::order::lemma_text_lt_transitive(c.created_at@, b.created_at@, a.created_at@);
        }
        assert forall|a: App, b: App, c: App| !#[trigger] f(a, b) && !#[trigger] f(b, c) implies !f(a, c) by {
            crate::order::lemma_text_not_lt_transitive(a.created_at@, b.created_at@, c.created_at@);
        }
    }
    assert forall|c: App|
        #[trigger] crate::order::stable_sorted_by(o, f).filter(crate::order::tied_with(c, f)) == o.filter(
            crate::order::tied_with(c, f),
        ) by {
        crate::order::stable_sort_keeps_ties_in_order(o, f, c);
    }
    crate::order::stable_sort_is_ordered(o, f);
    crate::order::stable_sort_is_permutation(o, f);
    lemma_owned_apps_are_owned(apps, github_id);
    assert forall|i: int, j: int| 0 <= i < j < r.len() implies !crate::text::text_lt(
        #[trigger] r[i].created_at@,
        #[trigger] r[j].created_at@,
    ) by {
        assert(!f(r[j], r[i]));
    }
    assert forall|k: int| 0 <= k < r.len() implies (#[trigger] r[k]).owner_id == github_id by {
        broadcast use vstd::seq_lib::group_to_multiset_ensures;
        assert(r.contains(r[k]));
        assert(r.to_multiset().count(r[k]) > 0);
        assert(o.contains(r[k]));
        let w = choose|w: int| 0 <= w < o.len() && o[w] == r[k];
        assert(o[w].owner_id == github_id);
    }
}

} // verus!
