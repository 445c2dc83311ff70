use smoothie::api::apps::{
    create_app_record, key_app, key_user_apps, reject_id_change, reject_id_change_keys, update_app_record,
    validate_app_name, validate_icon, App, BodyShape, CreateAppBody, JsonText,
};

fn object_with(key: &str, value: &str) -> BodyShape {
    let mut map = serde_json::Map::new();
    map.insert(key.to_string(), serde_json::Value::String(value.to_string()));
    shape(&serde_json::Value::Object(map))
}

fn shape(body: &serde_json::Value) -> BodyShape {
    match body.as_object() {
        Some(object) => BodyShape::Object(object.keys().cloned().collect()),
        None => BodyShape::Other,
    }
}

#[test]
fn app_keys_are_namespaced() {
    assert_eq!(key_app("abc"), "app:abc");
    assert_eq!(key_user_apps(7), "user:7:apps");
}

#[test]
fn rejects_blank_and_long_names() {
    assert!(validate_app_name("").is_err());
    assert!(validate_app_name("   ").is_err());
    assert!(validate_app_name("My app").unwrap() == "My app");
    assert!(validate_app_name(&"a".repeat(65)).is_err());
}

#[test]
fn validates_icons_by_kind() {
    assert!(validate_icon(&None, &None).unwrap() == (None, None));
    assert!(validate_icon(&Some("😀".into()), &None).is_err());
    assert!(validate_icon(&None, &Some("emoji".into())).is_err());
    assert!(validate_icon(&Some("😀".into()), &Some("emoji".into())).is_ok());
    assert!(validate_icon(&Some("box".into()), &Some("icon".into())).is_ok());
    assert!(validate_icon(&Some("not an icon!!".into()), &Some("icon".into())).is_err());
    assert!(validate_icon(&Some("x".into()), &Some("nope".into())).is_err());
}

#[test]
fn forbids_changing_id_uuid_owner() {
    for key in ["id", "uuid", "owner_id", "app_id"] {
        let v = object_with(key, "evil");
        assert!(reject_id_change(&v).is_err(), "{key} should be rejected");
    }
    let ok = object_with("name", "new name");
    assert!(reject_id_change(&ok).is_ok());
}

#[test]
fn app_names_are_trimmed_and_limited_by_characters() {
    assert_eq!(validate_app_name("  My app \n").unwrap(), "My app");
    assert_eq!(validate_app_name("").unwrap_err(), "name is required");
    assert_eq!(validate_app_name(&"é".repeat(64)).unwrap(), "é".repeat(64));
    assert_eq!(validate_app_name(&"é".repeat(65)).unwrap_err(), "name must be at most 64 characters");
}

#[test]
fn icon_errors_name_the_problem() {
    assert_eq!(
        validate_icon(&Some("x".into()), &None).unwrap_err(),
        "icon_kind is required when icon is set (emoji | icon | upload)"
    );
    assert_eq!(validate_icon(&None, &Some("icon".into())).unwrap_err(), "icon is required when icon_kind is set");
    assert_eq!(
        validate_icon(&Some("a".repeat(17)), &Some("emoji".into())).unwrap_err(),
        "emoji icon is too long"
    );
    assert_eq!(validate_icon(&Some("a".repeat(65)), &Some("icon".into())).unwrap_err(), "icon name is too long");
    assert_eq!(
        validate_icon(&Some("a b".into()), &Some("icon".into())).unwrap_err(),
        "icon name may only contain letters, numbers, - and _"
    );
    assert_eq!(
        validate_icon(&Some("a".repeat(1_000_001)), &Some("upload".into())).unwrap_err(),
        "uploaded icon is too large"
    );
    assert_eq!(
        validate_icon(&Some("x".into()), &Some("nope".into())).unwrap_err(),
        "icon_kind must be one of: emoji, icon, upload"
    );
    assert_eq!(
        validate_icon(&Some("  box-1_a ".into()), &Some(" icon ".into())).unwrap(),
        (Some("box-1_a".to_string()), Some("icon".to_string()))
    );
    assert_eq!(validate_icon(&Some("  ".into()), &Some(" ".into())).unwrap(), (None, None));
}

#[test]
fn identity_keys_are_all_refused() {
    for key in ["id", "uuid", "owner_id", "ownerId", "app_id", "appId"] {
        let error = reject_id_change_keys(&vec!["name".to_string(), key.to_string()]).unwrap_err();
        assert_eq!(error.status, 400);
        assert_eq!(error.message, "changing id is not allowed");
    }
    assert!(reject_id_change_keys(&vec!["name".to_string(), "ID".to_string()]).is_ok());
    assert!(reject_id_change(&shape(&serde_json::Value::String("id".into()))).is_ok());
}

#[test]
fn creating_an_app_validates_and_stamps_it() {
    let body = CreateAppBody { name: Some(" Shop ".into()), icon: Some("🛒".into()), icon_kind: Some("emoji".into()) };
    let app = create_app_record(&body, "a1".into(), 7, "2024-01-01".into()).ok().unwrap();
    assert_eq!(app.id, "a1");
    assert_eq!(app.owner_id, 7);
    assert_eq!(app.name, "Shop");
    assert_eq!(app.icon.as_deref(), Some("🛒"));
    assert_eq!(app.icon_kind.as_deref(), Some("emoji"));
    assert_eq!(app.created_at, "2024-01-01");
    assert_eq!(app.updated_at, "2024-01-01");

    let nameless = CreateAppBody { name: None, icon: None, icon_kind: None };
    let error = create_app_record(&nameless, "a2".into(), 7, "t".into()).err().unwrap();
    assert_eq!(error.status, 400);
    assert_eq!(error.message, "name is required");
}

fn sample_app() -> App {
    App {
        id: "a1".into(),
        owner_id: 7,
        name: "Shop".into(),
        icon: Some("🛒".into()),
        icon_kind: Some("emoji".into()),
        created_at: "t0".into(),
        updated_at: "t0".into(),
    }
}

#[test]
fn updating_an_app_changes_only_what_is_asked() {
    let mut app = sample_app();
    update_app_record(&mut app, &JsonText::Text("Store".into()), &JsonText::Absent, &JsonText::Absent, "t1".into())
        .ok()
        .unwrap();
    assert_eq!(app.name, "Store");
    assert_eq!(app.icon.as_deref(), Some("🛒"));
    assert_eq!(app.updated_at, "t1");
    assert_eq!(app.created_at, "t0");

    update_app_record(&mut app, &JsonText::Absent, &JsonText::Null, &JsonText::Null, "t2".into()).ok().unwrap();
    assert_eq!(app.icon, None);
    assert_eq!(app.icon_kind, None);

    let error =
        update_app_record(&mut app, &JsonText::Null, &JsonText::Absent, &JsonText::Absent, "t3".into()).err().unwrap();
    assert_eq!(error.message, "nothing to update (want name, icon, icon_kind)");
    let error =
        update_app_record(&mut app, &JsonText::Absent, &JsonText::Other, &JsonText::Absent, "t3".into()).err().unwrap();
    assert_eq!(error.message, "icon must be a string or null");
    let error =
        update_app_record(&mut app, &JsonText::Absent, &JsonText::Null, &JsonText::Other, "t3".into()).err().unwrap();
    assert_eq!(error.message, "icon_kind must be a string or null");
    assert_eq!(app.updated_at, "t2");
}

use smoothie::api::apps::{apps_for_listing, check_app_id};

#[test]
fn app_listings_are_newest_first_and_owned() {
    let app = |id: &str, owner_id: u64, created_at: &str| App {
        id: id.into(),
        owner_id,
        name: "n".into(),
        icon: None,
        icon_kind: None,
        created_at: created_at.into(),
        updated_at: created_at.into(),
    };
    let apps = vec![app("a", 7, "2024-01-01"), app("x", 8, "2024-01-05"), app("c", 7, "2024-01-03"), app("b", 7, "2024-01-03")];
    let ids: Vec<String> = apps_for_listing(apps, 7).into_iter().map(|a| a.id).collect();
    assert_eq!(ids, vec!["c", "b", "a"]);
    assert_eq!(check_app_id(" ").err().unwrap().message, "invalid app id");
    assert!(check_app_id("a1").is_ok());
}
