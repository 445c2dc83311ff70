use smoothie::api::apps::JsonText;
use smoothie::api::services::{
    apply_position, apply_service_update, check_service_id, check_service_owner, create_service_record,
    key_user_app_services, plan_service_update, services_for_listing, stops_runtime_first, validate_argv,
    validate_container_port, validate_service_name, ArgvField, CreateServiceBody, PortField, Service, ServicePatch,
    DEFAULT_CONTAINER_PORT, MAX_ARG_LENGTH,
};

fn service(id: &str, owner: u64, app_id: &str, created_at: &str) -> Service {
    Service {
        id: id.into(),
        app_id: app_id.into(),
        owner,
        name: "api".into(),
        position_x: 0,
        position_y: 0,
        container_port: DEFAULT_CONTAINER_PORT,
        argv: Vec::new(),
        active_package_id: None,
        active_deployment_id: None,
        package_ids: Vec::new(),
        created_at: created_at.into(),
        updated_at: created_at.into(),
    }
}

fn patch(name: JsonText, container_port: PortField, argv: ArgvField, active_package_id: JsonText) -> ServicePatch {
    ServicePatch { name, container_port, argv, active_package_id }
}

#[test]
fn service_keys_are_namespaced() {
    assert_eq!(key_user_app_services(7, "a1"), "user:7:app:a1:services");
}

#[test]
fn validates_runtime_fields() {
    assert!(validate_service_name("").is_err());
    assert_eq!(validate_service_name(" api ").unwrap(), "api");
    assert!(validate_container_port(0).is_err());
    assert_eq!(validate_container_port(8080).unwrap(), 8080);
    assert!(validate_argv(vec!["x".repeat(MAX_ARG_LENGTH + 1)]).is_err());
    assert!(validate_argv(vec!["--verbose".into()]).is_ok());
}

#[test]
fn argv_errors_come_in_order() {
    let too_many: Vec<String> = (0..65).map(|i| format!("a{i}")).collect();
    assert_eq!(validate_argv(too_many).unwrap_err(), "argv must contain at most 64 items");
    let sixty_four: Vec<String> = (0..64).map(|i| format!("a{i}")).collect();
    assert_eq!(validate_argv(sixty_four.clone()).unwrap(), sixty_four);
    assert_eq!(
        validate_argv(vec!["x".repeat(5000), "a\0b".into()]).unwrap_err(),
        "argv may not contain NUL bytes"
    );
    assert_eq!(
        validate_argv(vec!["é".repeat(2049)]).unwrap_err(),
        "each argv item must be at most 4096 bytes"
    );
    assert!(validate_argv(vec!["x".repeat(MAX_ARG_LENGTH)]).is_ok());
    assert_eq!(validate_container_port(0).unwrap_err(), "container_port must be between 1 and 65535");
    assert_eq!(validate_service_name(&"s".repeat(65)).unwrap_err(), "service name must be at most 64 characters");
    assert_eq!(validate_service_name("  ").unwrap_err(), "service name is required");
}

#[test]
fn creating_a_service_validates_every_field() {
    let body = CreateServiceBody {
        name: Some(" web ".into()),
        position_x: 3,
        position_y: -4,
        container_port: 8080,
        argv: vec!["--port".into(), "8080".into()],
    };
    let s = create_service_record(body, "a1", 7, "s1".into(), "t0".into()).ok().unwrap();
    assert_eq!(s.id, "s1");
    assert_eq!(s.app_id, "a1");
    assert_eq!(s.owner, 7);
    assert_eq!(s.name, "web");
    assert_eq!((s.position_x, s.position_y), (3, -4));
    assert_eq!(s.container_port, 8080);
    assert_eq!(s.argv, vec!["--port".to_string(), "8080".to_string()]);
    assert!(s.active_package_id.is_none() && s.active_deployment_id.is_none() && s.package_ids.is_empty());
    assert_eq!(s.created_at, "t0");

    let body = CreateServiceBody { name: None, position_x: 0, position_y: 0, container_port: 8080, argv: vec![] };
    let e = create_service_record(body, "a1", 7, "s2".into(), "t0".into()).err().unwrap();
    assert_eq!((e.status, e.message.as_str()), (400, "service name is required"));
    let body = CreateServiceBody { name: Some("x".into()), position_x: 0, position_y: 0, container_port: 0, argv: vec![] };
    let e = create_service_record(body, "a1", 7, "s2".into(), "t0".into()).err().unwrap();
    assert_eq!(e.message, "container_port must be between 1 and 65535");
}

#[test]
fn update_requests_are_checked_field_by_field() {
    let e = plan_service_update(false, patch(JsonText::Absent, PortField::Absent, ArgvField::Absent, JsonText::Absent))
        .err()
        .unwrap();
    assert_eq!(e.message, "body must be an object");
    let e = plan_service_update(true, patch(JsonText::Absent, PortField::Absent, ArgvField::Absent, JsonText::Absent))
        .err()
        .unwrap();
    assert_eq!(e.message, "nothing to update (want name, container_port, argv, active_package_id)");
    let e = plan_service_update(true, patch(JsonText::Null, PortField::Absent, ArgvField::Absent, JsonText::Absent))
        .err()
        .unwrap();
    assert_eq!(e.message, "name must be a string");
    let e =
        plan_service_update(true, patch(JsonText::Absent, PortField::Invalid, ArgvField::Absent, JsonText::Absent))
            .err()
            .unwrap();
    assert_eq!(e.message, "container_port must be between 1 and 65535");
    let e =
        plan_service_update(true, patch(JsonText::Absent, PortField::Absent, ArgvField::Invalid, JsonText::Absent))
            .err()
            .unwrap();
    assert_eq!(e.message, "argv must be an array of strings");
    let e = plan_service_update(
        true,
        patch(JsonText::Absent, PortField::Absent, ArgvField::Absent, JsonText::Text("p1".into())),
    )
    .err()
    .unwrap();
    assert_eq!(
        e.message,
        "active_package_id can only be cleared with null; use the package activation endpoint to select a package"
    );
    assert_eq!(e.status, 400);
}

#[test]
fn accepted_updates_replace_the_given_fields() {
    let update = plan_service_update(
        true,
        patch(JsonText::Text(" worker ".into()), PortField::Port(9000), ArgvField::Items(vec!["-v".into()]), JsonText::Null),
    )
    .ok()
    .unwrap();
    let mut s = service("s1", 7, "a1", "t0");
    s.active_package_id = Some("p1".into());
    s.active_deployment_id = Some("d1".into());
    assert!(stops_runtime_first(&update, &s));
    apply_service_update(&mut s, update, "t1".into());
    assert_eq!(s.name, "worker");
    assert_eq!(s.container_port, 9000);
    assert_eq!(s.argv, vec!["-v".to_string()]);
    assert_eq!(s.active_package_id, None);
    assert_eq!(s.active_deployment_id.as_deref(), Some("d1"));
    assert_eq!(s.updated_at, "t1");
    assert_eq!(s.created_at, "t0");

    let update =
        plan_service_update(true, patch(JsonText::Absent, PortField::Port(81), ArgvField::Absent, JsonText::Absent))
            .ok()
            .unwrap();
    assert!(!stops_runtime_first(&update, &s));
    apply_service_update(&mut s, update, "t2".into());
    assert_eq!(s.name, "worker");
    assert_eq!(s.container_port, 81);

    apply_position(&mut s, 10, 20, "t3".into());
    assert_eq!((s.position_x, s.position_y, s.updated_at.as_str()), (10, 20, "t3"));
}

#[test]
fn ownership_and_ids_are_checked() {
    assert_eq!(check_service_id("  ").err().unwrap().message, "invalid service id");
    assert_eq!(check_service_id(&"s".repeat(129)).err().unwrap().status, 400);
    assert!(check_service_id(&"s".repeat(128)).is_ok());
    let s = service("s1", 7, "a1", "t0");
    assert!(check_service_owner(&s, 7, "a1").is_ok());
    let e = check_service_owner(&s, 8, "a1").err().unwrap();
    assert_eq!((e.status, e.message.as_str()), (404, "service not found"));
    assert!(check_service_owner(&s, 7, "a2").is_err());
}

#[test]
fn listings_are_oldest_first_and_only_the_apps_services() {
    let services = vec![
        service("c", 7, "a1", "2024-01-03"),
        service("x", 8, "a1", "2024-01-01"),
        service("a", 7, "a1", "2024-01-01"),
        service("b1", 7, "a1", "2024-01-02"),
        service("y", 7, "a2", "2024-01-01"),
        service("b2", 7, "a1", "2024-01-02"),
    ];
    let ids: Vec<String> = services_for_listing(services, 7, "a1").into_iter().map(|s| s.id).collect();
    assert_eq!(ids, vec!["a", "b1", "b2", "c"]);
}

use smoothie::api::apps::App;
use smoothie::api::services::check_app_owner;

#[test]
fn apps_of_other_users_are_not_found() {
    let app = App {
        id: "a1".into(),
        owner_id: 7,
        name: "n".into(),
        icon: None,
        icon_kind: None,
        created_at: "t".into(),
        updated_at: "t".into(),
    };
    assert!(check_app_owner(&app, 7).is_ok());
    let e = check_app_owner(&app, 8).err().unwrap();
    assert_eq!((e.status, e.message.as_str()), (404, "app not found"));
}

use smoothie::api::services::{owned_app_record, owned_service_record};

#[test]
fn absent_and_foreign_records_are_not_found_alike() {
    let app = || App {
        id: "a1".into(),
        owner_id: 7,
        name: "n".into(),
        icon: None,
        icon_kind: None,
        created_at: "t".into(),
        updated_at: "t".into(),
    };
    let e = owned_app_record(None, 7).err().unwrap();
    assert_eq!((e.status, e.message.as_str()), (404, "app not found"));
    let e = owned_app_record(Some(app()), 8).err().unwrap();
    assert_eq!((e.status, e.message.as_str()), (404, "app not found"));
    assert_eq!(owned_app_record(Some(app()), 7).ok().unwrap().id, "a1");

    let e = owned_service_record(None, 7, "a1").err().unwrap();
    assert_eq!((e.status, e.message.as_str()), (404, "service not found"));
    let e = owned_service_record(Some(service("s1", 7, "a1", "t")), 7, "a2").err().unwrap();
    assert_eq!((e.status, e.message.as_str()), (404, "service not found"));
    assert_eq!(owned_service_record(Some(service("s1", 7, "a1", "t")), 7, "a1").ok().unwrap().id, "s1");
}
