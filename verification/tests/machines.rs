use ping_service::forms::{MachineCreateAdmin, TargetCreateAdmin};
use ping_service::machines::{
    create_machine_admin, create_machine_admin_at, create_machine_client,
    create_machine_client_at, delete_machine_by_mid_admin, edit_machine_admin,
    get_machine_by_mid, get_machine_by_mid_admin, list_machines, list_machines_admin,
};
use ping_service::pings::{create_ping_client_at, list_pings_at};
use ping_service::targets::{
    create_target_admin, create_target_admin_at, delete_target_admin, edit_target_admin,
    get_target_by_tid_admin, list_targets, list_targets_admin, list_targets_client,
};
use ping_service::{
    ApiClient, ApiError, AppState, AuthReason, DeleteResult, MachineCreate, Mutation, PingCreate,
    PingFilter, Query, Store, StoreError,
};

const NOW: i64 = 1_700_000_000;
const ADMIN: Option<&str> = Some("admin-pw");
const SHARED: Option<&str> = Some("shared-token");

fn state() -> AppState {
    AppState {
        admin_password: "admin-pw".to_string(),
        api_token: "shared-token".to_string(),
        static_root: "./static".to_string(),
    }
}

fn machine_form(name: &str, ip: &str, key: &str) -> MachineCreateAdmin {
    MachineCreateAdmin { name: name.to_string(), ip: ip.to_string(), key: key.to_string() }
}

fn target_form(name: &str) -> TargetCreateAdmin {
    TargetCreateAdmin {
        name: name.to_string(),
        domain: Some(format!("{}.example", name)),
        ipv4: None,
        ipv6: Some("2001:db8::1".to_string()),
    }
}

fn sample() -> PingCreate {
    PingCreate { ipv6: false, min: 1, avg: 2, fail: 3 }
}

fn unauthorized_admin<T>() -> Result<T, ApiError> {
    Err(ApiError::Unauthorized(AuthReason::LoginRequired))
}

#[test]
fn creating_a_machine_makes_it_visible() {
    let s = state();
    let mut db = Store::new();
    let form = machine_form("edge-1", "198.51.100.7", "k3y");
    let made = create_machine_admin_at(&s, &mut db, ADMIN, &form, NOW).unwrap();
    assert_eq!(made.id, 1);
    assert_eq!(made.name, "edge-1");
    assert_eq!(made.ip, "198.51.100.7");
    assert_eq!(made.key, "k3y");
    assert_eq!(made.created, NOW);
    assert_eq!(made.updated, None);
    assert_eq!(Query::find_machine_by_name(&db, "edge-1"), Some(made.clone()));
    assert_eq!(Query::find_machine_by_id(&db, 1), Some(made.clone()));
    assert_eq!(get_machine_by_mid_admin(&s, &db, ADMIN, 1), Ok(made.clone()));
    assert_eq!(list_machines_admin(&s, &db, ADMIN), Ok(vec![made]));
}

#[test]
fn creating_a_machine_under_a_taken_name_is_a_conflict() {
    let s = state();
    let mut db = Store::new();
    let first = create_machine_admin_at(&s, &mut db, ADMIN, &machine_form("a", "1.1.1.1", "k"), NOW)
        .unwrap();
    let again = machine_form("a", "9.9.9.9", "other");
    assert_eq!(create_machine_admin_at(&s, &mut db, ADMIN, &again, NOW + 5), Err(ApiError::Conflict));
    assert_eq!(list_machines_admin(&s, &db, ADMIN), Ok(vec![first]));
    // The id that the refused machine would have got is still free.
    let next = create_machine_admin_at(&s, &mut db, ADMIN, &machine_form("b", "2.2.2.2", "k"), NOW)
        .unwrap();
    assert_eq!(next.id, 2);
}

#[test]
fn admin_requests_need_the_admin_secret() {
    let s = state();
    let mut db = Store::new();
    create_machine_admin_at(&s, &mut db, ADMIN, &machine_form("a", "1.1.1.1", "k"), NOW).unwrap();
    create_target_admin_at(&s, &mut db, ADMIN, &target_form("t"), NOW).unwrap();
    for bearer in [None, SHARED, Some("1:k"), Some("")] {
        let m = machine_form("x", "1.1.1.1", "k");
        let t = target_form("y");
        assert_eq!(create_machine_admin(&s, &mut db, bearer, &m), unauthorized_admin());
        assert_eq!(edit_machine_admin(&s, &mut db, bearer, 1, &m), unauthorized_admin());
        assert_eq!(list_machines_admin(&s, &db, bearer), unauthorized_admin());
        assert_eq!(get_machine_by_mid_admin(&s, &db, bearer, 1), unauthorized_admin());
        assert_eq!(delete_machine_by_mid_admin(&s, &mut db, bearer, 1), unauthorized_admin());
        assert_eq!(create_target_admin(&s, &mut db, bearer, &t), unauthorized_admin());
        assert_eq!(edit_target_admin(&s, &mut db, bearer, 1, &t), unauthorized_admin());
        assert_eq!(list_targets_admin(&s, &db, bearer), unauthorized_admin());
        assert_eq!(get_target_by_tid_admin(&s, &db, bearer, 1), unauthorized_admin());
        assert_eq!(delete_target_admin(&s, &mut db, bearer, 1), unauthorized_admin());
    }
    assert_eq!(Query::find_machines(&db).len(), 1);
    assert_eq!(Query::find_targets(&db).len(), 1);
    assert_eq!(Query::find_machine_by_id(&db, 1).unwrap().name, "a");
}

#[test]
fn creating_by_the_clock() {
    let s = state();
    let mut db = Store::new();
    let m = create_machine_admin(&s, &mut db, ADMIN, &machine_form("a", "1.1.1.1", "k")).unwrap();
    let t = create_target_admin(&s, &mut db, ADMIN, &target_form("t")).unwrap();
    assert!(m.created > 1_600_000_000);
    assert!(t.created > 1_600_000_000);
    assert!(Mutation::create_machine(&mut db, &machine_form("b", "1.1.1.1", "k")).is_ok());
    assert!(Mutation::create_target(&mut db, &target_form("u")).is_ok());
    assert_eq!(
        Mutation::create_machine(&mut db, &machine_form("b", "1.1.1.1", "k")),
        Err(StoreError::NameTaken)
    );
}

#[test]
fn editing_a_machine_replaces_name_ip_and_key_only() {
    let s = state();
    let mut db = Store::new();
    create_machine_admin_at(&s, &mut db, ADMIN, &machine_form("a", "1.1.1.1", "k"), NOW).unwrap();
    Mutation::update_machine_at(&mut db, 1, NOW + 7).unwrap();
    let edited =
        edit_machine_admin(&s, &mut db, ADMIN, 1, &machine_form("b", "2.2.2.2", "new")).unwrap();
    assert_eq!(edited.id, 1);
    assert_eq!(edited.name, "b");
    assert_eq!(edited.ip, "2.2.2.2");
    assert_eq!(edited.key, "new");
    assert_eq!(edited.created, NOW);
    assert_eq!(edited.updated, Some(NOW + 7));
    assert_eq!(Query::find_machine_by_id(&db, 1), Some(edited));
    assert_eq!(Query::find_machine_by_name(&db, "a"), None);
    // The new key is the one that authenticates from now on.
    assert!(ApiClient::from_request_parts(Some("1:new"), &db).is_ok());
    assert!(ApiClient::from_request_parts(Some("1:k"), &db).is_err());
}

#[test]
fn editing_a_machine_may_keep_its_name() {
    let s = state();
    let mut db = Store::new();
    create_machine_admin_at(&s, &mut db, ADMIN, &machine_form("a", "1.1.1.1", "k"), NOW).unwrap();
    let edited =
        edit_machine_admin(&s, &mut db, ADMIN, 1, &machine_form("a", "3.3.3.3", "k")).unwrap();
    assert_eq!(edited.ip, "3.3.3.3");
}

#[test]
fn editing_failures_change_nothing() {
    let s = state();
    let mut db = Store::new();
    create_machine_admin_at(&s, &mut db, ADMIN, &machine_form("a", "1.1.1.1", "k"), NOW).unwrap();
    create_machine_admin_at(&s, &mut db, ADMIN, &machine_form("b", "2.2.2.2", "k"), NOW).unwrap();
    let before = Query::find_machines(&db);
    assert_eq!(
        edit_machine_admin(&s, &mut db, ADMIN, 9, &machine_form("c", "3.3.3.3", "k")),
        Err(ApiError::NotFound)
    );
    assert_eq!(
        edit_machine_admin(&s, &mut db, ADMIN, 2, &machine_form("a", "3.3.3.3", "k")),
        Err(ApiError::InternalFailure)
    );
    assert_eq!(
        Mutation::edit_machine(&mut db, 2, &machine_form("a", "3.3.3.3", "k")),
        Err(StoreError::NameTaken)
    );
    assert_eq!(
        Mutation::edit_machine(&mut db, 9, &machine_form("z", "3.3.3.3", "k")),
        Err(StoreError::RowMissing)
    );
    assert_eq!(Query::find_machines(&db), before);
}

#[test]
fn admin_machine_names_are_bounded() {
    let s = state();
    let mut db = Store::new();
    create_machine_admin_at(&s, &mut db, ADMIN, &machine_form("a", "1.1.1.1", "k"), NOW).unwrap();
    let long = "x".repeat(33);
    for name in ["", long.as_str()] {
        let form = machine_form(name, "2.2.2.2", "k");
        assert_eq!(form.validate(), Err(ApiError::ValidationFailed));
        assert_eq!(
            create_machine_admin_at(&s, &mut db, ADMIN, &form, NOW),
            Err(ApiError::ValidationFailed)
        );
        assert_eq!(
            edit_machine_admin(&s, &mut db, ADMIN, 1, &form),
            Err(ApiError::ValidationFailed)
        );
        // A bad name is reported before the machine is looked up.
        assert_eq!(
            edit_machine_admin(&s, &mut db, ADMIN, 9, &form),
            Err(ApiError::ValidationFailed)
        );
    }
    assert_eq!(Query::find_machines(&db).len(), 1);
    assert_eq!(Query::find_machine_by_id(&db, 1).unwrap().ip, "1.1.1.1");
    let edge = machine_form(&"y".repeat(32), "2.2.2.2", "k");
    assert_eq!(edge.validate(), Ok(()));
    assert!(create_machine_admin_at(&s, &mut db, ADMIN, &edge, NOW).is_ok());
}

#[test]
fn machines_are_listed_by_ascending_id_with_masked_addresses() {
    let s = state();
    let mut db = Store::new();
    for (name, ip) in [("c", "198.51.100.7"), ("a", "2001:db8:0:0:0:0:1"), ("b", "203.0.113.42")] {
        create_machine_admin_at(&s, &mut db, ADMIN, &machine_form(name, ip, "s3cret"), NOW).unwrap();
    }
    let public = list_machines(&db);
    let seen: Vec<(i32, &str, &str)> =
        public.iter().map(|m| (m.id, m.name.as_str(), m.ip.as_str())).collect();
    assert_eq!(seen, vec![(1, "c", "198.51.*.*"), (2, "a", "2001:db8:0::*"), (3, "b", "203.0.*.*")]);
    assert!(!format!("{:?}", public).contains("s3cret"));
    let full = list_machines_admin(&s, &db, ADMIN).unwrap();
    let ids: Vec<i32> = full.iter().map(|m| m.id).collect();
    assert_eq!(ids, vec![1, 2, 3]);
    assert_eq!(full[0].ip, "198.51.100.7");
}

#[test]
fn public_machine_comes_with_all_targets() {
    let s = state();
    let mut db = Store::new();
    create_machine_admin_at(&s, &mut db, ADMIN, &machine_form("a", "198.51.100.7", "k"), NOW)
        .unwrap();
    create_target_admin_at(&s, &mut db, ADMIN, &target_form("dns"), NOW + 1).unwrap();
    create_target_admin_at(&s, &mut db, ADMIN, &target_form("web"), NOW + 2).unwrap();
    let view = get_machine_by_mid(&db, 1).unwrap();
    assert_eq!(view.id, 1);
    assert_eq!(view.name, "a");
    assert_eq!(view.ip, "198.51.*.*");
    assert_eq!(view.created, NOW as u64);
    let targets: Vec<(i32, &str, u64)> =
        view.targets.iter().map(|t| (t.id, t.name.as_str(), t.created)).collect();
    assert_eq!(targets, vec![(1, "dns", NOW as u64 + 1), (2, "web", NOW as u64 + 2)]);
    assert_eq!(get_machine_by_mid(&db, 2), Err(ApiError::NotFound));
    assert_eq!(get_machine_by_mid_admin(&s, &db, ADMIN, 2), Err(ApiError::NotFound));
}

#[test]
fn self_registration_creates_a_machine_with_the_placeholder_key() {
    let s = state();
    let mut db = Store::new();
    let form = MachineCreate { name: "agent-1".to_string() };
    let public = create_machine_client_at(&s, &mut db, SHARED, "198.51.100.7", &form, NOW).unwrap();
    assert_eq!(public.id, 1);
    assert_eq!(public.name, "agent-1");
    assert_eq!(public.ip, "198.51.*.*");
    assert_eq!(public.created, NOW as u64);
    assert_eq!(public.updated, None);
    let stored = Query::find_machine_by_name(&db, "agent-1").unwrap();
    assert_eq!(stored.ip, "198.51.100.7");
    assert_eq!(stored.key, "default_key");
    assert!(!format!("{:?}", public).contains("default_key"));
}

#[test]
fn self_registration_under_a_known_name_only_moves_the_address() {
    let s = state();
    let mut db = Store::new();
    create_machine_admin_at(&s, &mut db, ADMIN, &machine_form("agent-1", "1.1.1.1", "k3y"), NOW)
        .unwrap();
    Mutation::update_machine_at(&mut db, 1, NOW + 3).unwrap();
    let form = MachineCreate { name: "agent-1".to_string() };
    let public =
        create_machine_client_at(&s, &mut db, SHARED, "2001:db8:0:0:0:0:1", &form, NOW + 9).unwrap();
    assert_eq!(public.id, 1);
    assert_eq!(public.ip, "2001:db8:0::*");
    assert_eq!(public.created, NOW as u64);
    assert_eq!(public.updated, Some(NOW as u64 + 3));
    let stored = Query::find_machine_by_id(&db, 1).unwrap();
    assert_eq!(stored.ip, "2001:db8:0:0:0:0:1");
    assert_eq!(stored.key, "k3y");
    assert_eq!(stored.name, "agent-1");
    assert_eq!(Query::find_machines(&db).len(), 1);
}

#[test]
fn self_registration_needs_the_shared_secret_and_a_valid_name() {
    let s = state();
    let mut db = Store::new();
    let ok = MachineCreate { name: "agent-1".to_string() };
    let refused = Err(ApiError::Unauthorized(AuthReason::TokenRequired));
    assert_eq!(create_machine_client(&s, &mut db, None, "1.1.1.1", &ok), refused);
    assert_eq!(create_machine_client(&s, &mut db, ADMIN, "1.1.1.1", &ok), refused);
    let empty = MachineCreate { name: String::new() };
    let long = MachineCreate { name: "x".repeat(33) };
    assert_eq!(
        create_machine_client(&s, &mut db, SHARED, "1.1.1.1", &empty),
        Err(ApiError::ValidationFailed)
    );
    assert_eq!(
        create_machine_client(&s, &mut db, SHARED, "1.1.1.1", &long),
        Err(ApiError::ValidationFailed)
    );
    assert!(Query::find_machines(&db).is_empty());
    let edge = MachineCreate { name: "é".repeat(32) };
    assert_eq!(edge.validate(), Ok(()));
    assert_eq!(MachineCreate { name: "x".to_string() }.validate(), Ok(()));
    assert!(create_machine_client(&s, &mut db, SHARED, "1.1.1.1", &edge).is_ok());
    assert_eq!(Query::find_machines(&db).len(), 1);
}

#[test]
fn deleting_a_machine_removes_its_pings() {
    let s = state();
    let mut db = Store::new();
    create_machine_admin_at(&s, &mut db, ADMIN, &machine_form("a", "1.1.1.1", "ka"), NOW).unwrap();
    create_machine_admin_at(&s, &mut db, ADMIN, &machine_form("b", "2.2.2.2", "kb"), NOW).unwrap();
    create_target_admin_at(&s, &mut db, ADMIN, &target_form("t"), NOW).unwrap();
    create_ping_client_at(&mut db, Some("1:ka"), 1, 1, sample(), NOW).unwrap();
    create_ping_client_at(&mut db, Some("2:kb"), 2, 1, sample(), NOW + 1).unwrap();
    create_ping_client_at(&mut db, Some("1:ka"), 1, 1, sample(), NOW + 2).unwrap();

    assert_eq!(delete_machine_by_mid_admin(&s, &mut db, ADMIN, 1), Ok(()));
    assert_eq!(Query::find_machine_by_id(&db, 1), None);
    assert_eq!(Query::find_machine_by_name(&db, "a"), None);
    assert!(Query::find_pings_by_machine_id_and_target_id_at(&db, 1, 1, "7d", false, NOW + 5)
        .is_empty());
    let family = PingFilter { ipv6: None };
    assert_eq!(list_pings_at(&db, 1, 1, "7d", family, NOW + 5), Err(ApiError::NotFound));
    assert_eq!(list_pings_at(&db, 2, 1, "7d", family, NOW + 5), Ok(vec![(NOW + 1, 1, 2, 3)]));
    assert_eq!(delete_machine_by_mid_admin(&s, &mut db, ADMIN, 1), Err(ApiError::NotFound));
    assert_eq!(Mutation::delete_machine(&mut db, 1), DeleteResult { rows_affected: 0 });
    // Ids are not handed out again, so no old ping can come back to life.
    let again =
        create_machine_admin_at(&s, &mut db, ADMIN, &machine_form("a", "1.1.1.1", "ka"), NOW)
            .unwrap();
    assert_eq!(again.id, 3);
    assert_eq!(list_pings_at(&db, 3, 1, "7d", family, NOW + 5), Ok(vec![]));
    // Only the surviving ping is there to expire.
    assert_eq!(Mutation::delete_expire_pings_at(&mut db, i64::MAX).rows_affected, 1);
}

#[test]
fn deleting_a_target_removes_the_pings_against_it() {
    let s = state();
    let mut db = Store::new();
    create_machine_admin_at(&s, &mut db, ADMIN, &machine_form("a", "1.1.1.1", "ka"), NOW).unwrap();
    create_target_admin_at(&s, &mut db, ADMIN, &target_form("t1"), NOW).unwrap();
    create_target_admin_at(&s, &mut db, ADMIN, &target_form("t2"), NOW).unwrap();
    create_ping_client_at(&mut db, Some("1:ka"), 1, 1, sample(), NOW).unwrap();
    create_ping_client_at(&mut db, Some("1:ka"), 1, 2, sample(), NOW + 1).unwrap();
    assert_eq!(delete_target_admin(&s, &mut db, ADMIN, 1), Ok(()));
    assert_eq!(get_target_by_tid_admin(&s, &db, ADMIN, 1), Err(ApiError::NotFound));
    let family = PingFilter { ipv6: None };
    assert_eq!(list_pings_at(&db, 1, 1, "7d", family, NOW + 5), Err(ApiError::NotFound));
    assert_eq!(list_pings_at(&db, 1, 2, "7d", family, NOW + 5), Ok(vec![(NOW + 1, 1, 2, 3)]));
    assert_eq!(delete_target_admin(&s, &mut db, ADMIN, 1), Err(ApiError::NotFound));
    assert_eq!(Mutation::delete_target(&mut db, 2), DeleteResult { rows_affected: 1 });
    assert_eq!(Mutation::delete_expire_pings_at(&mut db, i64::MAX).rows_affected, 0);
}

#[test]
fn targets_are_created_edited_and_listed() {
    let s = state();
    let mut db = Store::new();
    let dns = create_target_admin_at(&s, &mut db, ADMIN, &target_form("dns"), NOW).unwrap();
    assert_eq!(dns.id, 1);
    assert_eq!(dns.name, "dns");
    assert_eq!(dns.domain, Some("dns.example".to_string()));
    assert_eq!(dns.ipv4, None);
    assert_eq!(dns.ipv6, Some("2001:db8::1".to_string()));
    assert_eq!(dns.created, NOW);
    assert_eq!(dns.updated, None);
    assert_eq!(
        create_target_admin_at(&s, &mut db, ADMIN, &target_form("dns"), NOW),
        Err(ApiError::Conflict)
    );
    let web = create_target_admin_at(&s, &mut db, ADMIN, &target_form("web"), NOW + 1).unwrap();
    assert_eq!(Query::find_target_by_name(&db, "web"), Some(web.clone()));
    assert_eq!(Query::find_target_by_name(&db, "nope"), None);

    Mutation::update_target_at(&mut db, 1, NOW + 4).unwrap();
    let change = TargetCreateAdmin {
        name: "resolver".to_string(),
        domain: None,
        ipv4: Some("192.0.2.53".to_string()),
        ipv6: None,
    };
    let edited = edit_target_admin(&s, &mut db, ADMIN, 1, &change).unwrap();
    assert_eq!(edited.id, 1);
    assert_eq!(edited.name, "resolver");
    assert_eq!(edited.domain, None);
    assert_eq!(edited.ipv4, Some("192.0.2.53".to_string()));
    assert_eq!(edited.ipv6, None);
    assert_eq!(edited.created, NOW);
    assert_eq!(edited.updated, Some(NOW + 4));
    assert_eq!(get_target_by_tid_admin(&s, &db, ADMIN, 1), Ok(edited.clone()));
    assert_eq!(edit_target_admin(&s, &mut db, ADMIN, 7, &change), Err(ApiError::NotFound));
    assert_eq!(
        edit_target_admin(&s, &mut db, ADMIN, 2, &change),
        Err(ApiError::InternalFailure)
    );
    assert_eq!(Mutation::edit_target(&mut db, 2, &change), Err(StoreError::NameTaken));
    assert_eq!(Mutation::edit_target(&mut db, 7, &change), Err(StoreError::RowMissing));

    assert_eq!(list_targets_admin(&s, &db, ADMIN), Ok(vec![edited.clone(), web.clone()]));
    assert_eq!(list_targets_client(&s, &db, SHARED), Ok(vec![edited, web]));
    assert_eq!(
        list_targets_client(&s, &db, ADMIN),
        Err(ApiError::Unauthorized(AuthReason::TokenRequired))
    );
    assert_eq!(
        list_targets_client(&s, &db, None),
        Err(ApiError::Unauthorized(AuthReason::TokenRequired))
    );
    let public = list_targets(&db);
    let seen: Vec<(i32, &str, u64, Option<u64>)> =
        public.iter().map(|t| (t.id, t.name.as_str(), t.created, t.updated)).collect();
    assert_eq!(
        seen,
        vec![(1, "resolver", NOW as u64, Some(NOW as u64 + 4)), (2, "web", NOW as u64 + 1, None)]
    );
}

#[test]
fn errors_carry_a_status_and_a_message() {
    let cases = [
        (ApiError::Unauthorized(AuthReason::LoginRequired), 401, "Login required"),
        (ApiError::Unauthorized(AuthReason::InvalidTokenFormat), 401, "Invalid API token format"),
        (ApiError::Unauthorized(AuthReason::TokenRequired), 401, "Api token required"),
        (ApiError::NotFound, 404, "not found"),
        (ApiError::Conflict, 409, "already exists"),
        (ApiError::ValidationFailed, 400, "validation failed"),
        (ApiError::InternalFailure, 500, "failed"),
    ];
    for (err, status, message) in cases {
        assert_eq!(err.status(), status);
        assert_eq!(err.message(), message);
    }
}

#[test]
fn empty_store_has_nothing() {
    let db = Store::new();
    assert!(Query::find_machines(&db).is_empty());
    assert!(Query::find_targets(&db).is_empty());
    assert_eq!(Query::find_machine_by_id(&db, 1), None);
    assert_eq!(Query::find_target_by_id(&db, 1), None);
    assert!(Query::find_pings_by_machine_id_and_target_id(&db, 1, 1, "7d", false).is_empty());
    assert!(list_machines(&db).is_empty());
    assert!(list_targets(&db).is_empty());
}
