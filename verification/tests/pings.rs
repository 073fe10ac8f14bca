use ping_service::forms::{MachineCreateAdmin, TargetCreateAdmin};
use ping_service::mutation::RETENTION_SECONDS;
use ping_service::pings::{create_ping_client, create_ping_client_at, list_pings, list_pings_at};
use ping_service::query::{DAY_SECONDS, WEEK_SECONDS};
use ping_service::sweeper::{clean_database, clean_database_at, SWEEP_INTERVAL_SECONDS};
use ping_service::{
    ApiError, AuthReason, DeleteResult, Mutation, Ping, PingCreate, PingFilter, Query, Store,
    StoreError,
};

const HOUR: i64 = 3_600;
const NOW: i64 = 1_700_000_000;

fn sample() -> PingCreate {
    PingCreate { ipv6: false, min: 12, avg: 20, fail: 0 }
}

fn any_family() -> PingFilter {
    PingFilter { ipv6: None }
}

/// A store with one machine (key "k3y") and one target; returns their ids.
fn populated() -> (Store, i32, i32) {
    let mut db = Store::new();
    let machine = Mutation::create_machine_at(
        &mut db,
        &MachineCreateAdmin {
            name: "edge-1".to_string(),
            ip: "198.51.100.7".to_string(),
            key: "k3y".to_string(),
        },
        NOW - 100 * HOUR,
    )
    .unwrap();
    let target = Mutation::create_target_at(
        &mut db,
        &TargetCreateAdmin {
            name: "dns".to_string(),
            domain: Some("dns.example".to_string()),
            ipv4: Some("192.0.2.53".to_string()),
            ipv6: None,
        },
        NOW - 100 * HOUR,
    )
    .unwrap();
    (db, machine.id, target.id)
}

fn token(mid: i32) -> String {
    format!("{}:k3y", mid)
}

#[test]
fn accepted_ping_creates_one_row_and_touches_both_parents() {
    let (mut db, mid, tid) = populated();
    let before = list_pings_at(&db, mid, tid, "7d", any_family(), NOW).unwrap();
    assert!(before.is_empty());
    assert_eq!(Query::find_machine_by_id(&db, mid).unwrap().updated, None);
    assert_eq!(Query::find_target_by_id(&db, tid).unwrap().updated, None);

    let ping = create_ping_client_at(&mut db, Some(&token(mid)), mid, tid, sample(), NOW).unwrap();
    assert_eq!(
        ping,
        Ping {
            id: 1,
            machine_id: mid,
            target_id: tid,
            ipv6: false,
            created: NOW,
            min: 12,
            avg: 20,
            fail: 0,
        }
    );
    let after = list_pings_at(&db, mid, tid, "7d", any_family(), NOW).unwrap();
    assert_eq!(after, vec![(NOW, 12, 20, 0)]);
    let machine = Query::find_machine_by_id(&db, mid).unwrap();
    let target = Query::find_target_by_id(&db, tid).unwrap();
    assert!(machine.updated.unwrap() >= ping.created);
    assert!(target.updated.unwrap() >= ping.created);
    assert_eq!(machine.updated, Some(NOW));
    assert_eq!(target.updated, Some(NOW));
    // Touching changes nothing else.
    assert_eq!(machine.name, "edge-1");
    assert_eq!(machine.ip, "198.51.100.7");
    assert_eq!(machine.key, "k3y");
    assert_eq!(machine.created, NOW - 100 * HOUR);
    assert_eq!(target.domain, Some("dns.example".to_string()));
}

#[test]
fn ping_ids_grow_by_one() {
    let (mut db, mid, tid) = populated();
    let t = token(mid);
    let a = create_ping_client_at(&mut db, Some(&t), mid, tid, sample(), NOW).unwrap();
    let b = create_ping_client_at(&mut db, Some(&t), mid, tid, sample(), NOW + 1).unwrap();
    assert_eq!((a.id, b.id), (1, 2));
}

#[test]
fn ping_with_too_many_failures_is_rejected() {
    let (mut db, mid, tid) = populated();
    let bad = PingCreate { fail: 21, ..sample() };
    assert_eq!(
        create_ping_client_at(&mut db, Some(&token(mid)), mid, tid, bad, NOW),
        Err(ApiError::ValidationFailed)
    );
    assert!(list_pings_at(&db, mid, tid, "7d", any_family(), NOW).unwrap().is_empty());
    assert_eq!(Query::find_machine_by_id(&db, mid).unwrap().updated, None);
    assert_eq!(Query::find_target_by_id(&db, tid).unwrap().updated, None);
}

#[test]
fn ping_with_latency_out_of_range_is_rejected() {
    let (mut db, mid, tid) = populated();
    let t = token(mid);
    for bad in [PingCreate { min: 1001, ..sample() }, PingCreate { avg: 1001, ..sample() }] {
        assert_eq!(
            create_ping_client_at(&mut db, Some(&t), mid, tid, bad, NOW),
            Err(ApiError::ValidationFailed)
        );
    }
    assert!(list_pings_at(&db, mid, tid, "7d", any_family(), NOW).unwrap().is_empty());
}

#[test]
fn ping_at_the_bounds_is_accepted() {
    let (mut db, mid, tid) = populated();
    let edge = PingCreate { ipv6: true, min: 1000, avg: 1000, fail: 20 };
    assert_eq!(edge.validate(), Ok(()));
    let ping = create_ping_client_at(&mut db, Some(&token(mid)), mid, tid, edge, NOW).unwrap();
    assert_eq!((ping.min, ping.avg, ping.fail, ping.ipv6), (1000, 1000, 20, true));
    let zero = PingCreate { ipv6: false, min: 0, avg: 0, fail: 0 };
    assert_eq!(zero.validate(), Ok(()));
}

#[test]
fn validation_reports_each_field() {
    assert_eq!(PingCreate { min: 1001, ..sample() }.validate(), Err(ApiError::ValidationFailed));
    assert_eq!(PingCreate { avg: u16::MAX, ..sample() }.validate(), Err(ApiError::ValidationFailed));
    assert_eq!(PingCreate { fail: 255, ..sample() }.validate(), Err(ApiError::ValidationFailed));
}

#[test]
fn ping_needs_the_token_of_its_own_machine() {
    let (mut db, mid, tid) = populated();
    let other = Mutation::create_machine_at(
        &mut db,
        &MachineCreateAdmin {
            name: "edge-2".to_string(),
            ip: "203.0.113.42".to_string(),
            key: "other".to_string(),
        },
        NOW,
    )
    .unwrap();
    let refused = Err(ApiError::Unauthorized(AuthReason::TokenRequired));
    let foreign = format!("{}:other", other.id);
    assert_eq!(create_ping_client_at(&mut db, Some(&foreign), mid, tid, sample(), NOW), refused);
    assert_eq!(create_ping_client_at(&mut db, None, mid, tid, sample(), NOW), refused);
    assert_eq!(
        create_ping_client_at(&mut db, Some(&format!("{}:wrong", mid)), mid, tid, sample(), NOW),
        refused
    );
    assert_eq!(
        create_ping_client_at(&mut db, Some("garbage"), mid, tid, sample(), NOW),
        Err(ApiError::Unauthorized(AuthReason::InvalidTokenFormat))
    );
    assert!(list_pings_at(&db, mid, tid, "7d", any_family(), NOW).unwrap().is_empty());
}

#[test]
fn ping_against_unknown_target_is_not_found() {
    let (mut db, mid, tid) = populated();
    assert_eq!(
        create_ping_client_at(&mut db, Some(&token(mid)), mid, tid + 1, sample(), NOW),
        Err(ApiError::NotFound)
    );
    // The missing target is reported before the sample is looked at.
    let bad = PingCreate { fail: 21, ..sample() };
    assert_eq!(
        create_ping_client_at(&mut db, Some(&token(mid)), mid, tid + 1, bad, NOW),
        Err(ApiError::NotFound)
    );
    assert_eq!(Query::find_machine_by_id(&db, mid).unwrap().updated, None);
}

#[test]
fn ping_through_the_clock_is_stamped_with_the_present() {
    let (mut db, mid, tid) = populated();
    let before = ping_service::clock::now();
    let ping = create_ping_client(&mut db, Some(&token(mid)), mid, tid, sample()).unwrap();
    let after = ping_service::clock::now();
    assert!(before > 1_600_000_000);
    assert!(before <= ping.created && ping.created <= after);
    assert_eq!(Query::find_machine_by_id(&db, mid).unwrap().updated, Some(ping.created));
    assert_eq!(Query::find_target_by_id(&db, tid).unwrap().updated, Some(ping.created));
    let seen = list_pings(&db, mid, tid, "24h", any_family()).unwrap();
    assert_eq!(seen, vec![(ping.created, 12, 20, 0)]);
}

#[test]
fn window_of_a_day_and_of_a_week() {
    let (mut db, mid, tid) = populated();
    let t = token(mid);
    for (age, min) in [(30, 30), (6, 6), (1, 1)] {
        let s = PingCreate { min, ..sample() };
        create_ping_client_at(&mut db, Some(&t), mid, tid, s, NOW - age * HOUR).unwrap();
    }
    let day = list_pings_at(&db, mid, tid, "24h", any_family(), NOW).unwrap();
    assert_eq!(day, vec![(NOW - 6 * HOUR, 6, 20, 0), (NOW - HOUR, 1, 20, 0)]);
    let week = list_pings_at(&db, mid, tid, "7d", any_family(), NOW).unwrap();
    assert_eq!(
        week,
        vec![(NOW - 30 * HOUR, 30, 20, 0), (NOW - 6 * HOUR, 6, 20, 0), (NOW - HOUR, 1, 20, 0)]
    );
}

#[test]
fn unknown_window_tokens_mean_one_day() {
    assert_eq!(Query::window("7d"), WEEK_SECONDS);
    assert_eq!(WEEK_SECONDS, 7 * 24 * 3600);
    assert_eq!(DAY_SECONDS, 24 * 3600);
    for other in ["24h", "", "7D", "7d ", "30d", "1w", "7"] {
        assert_eq!(Query::window(other), DAY_SECONDS);
    }
}

#[test]
fn window_edge_is_strict() {
    let (mut db, mid, tid) = populated();
    let t = token(mid);
    create_ping_client_at(&mut db, Some(&t), mid, tid, sample(), NOW - DAY_SECONDS).unwrap();
    create_ping_client_at(&mut db, Some(&t), mid, tid, sample(), NOW - DAY_SECONDS + 1).unwrap();
    let day = list_pings_at(&db, mid, tid, "other", any_family(), NOW).unwrap();
    assert_eq!(day, vec![(NOW - DAY_SECONDS + 1, 12, 20, 0)]);
}

#[test]
fn series_is_filtered_by_family_machine_and_target() {
    let (mut db, mid, tid) = populated();
    let t = token(mid);
    let other_target = Mutation::create_target_at(
        &mut db,
        &TargetCreateAdmin { name: "web".to_string(), domain: None, ipv4: None, ipv6: None },
        NOW,
    )
    .unwrap();
    let v6 = PingCreate { ipv6: true, min: 6, ..sample() };
    create_ping_client_at(&mut db, Some(&t), mid, tid, sample(), NOW - 3).unwrap();
    create_ping_client_at(&mut db, Some(&t), mid, tid, v6, NOW - 2).unwrap();
    create_ping_client_at(&mut db, Some(&t), mid, other_target.id, sample(), NOW - 1).unwrap();

    let dflt = list_pings_at(&db, mid, tid, "24h", PingFilter { ipv6: None }, NOW).unwrap();
    assert_eq!(dflt, vec![(NOW - 3, 12, 20, 0)]);
    let four = list_pings_at(&db, mid, tid, "24h", PingFilter { ipv6: Some(false) }, NOW).unwrap();
    assert_eq!(four, dflt);
    let six = list_pings_at(&db, mid, tid, "24h", PingFilter { ipv6: Some(true) }, NOW).unwrap();
    assert_eq!(six, vec![(NOW - 2, 6, 20, 0)]);
    let web = list_pings_at(&db, mid, other_target.id, "24h", any_family(), NOW).unwrap();
    assert_eq!(web, vec![(NOW - 1, 12, 20, 0)]);
    assert!(!PingFilter { ipv6: None }.wants_ipv6());
    assert!(PingFilter { ipv6: Some(true) }.wants_ipv6());
}

#[test]
fn series_of_unknown_machine_or_target_is_not_found() {
    let (db, mid, tid) = populated();
    assert_eq!(list_pings_at(&db, mid + 1, tid, "24h", any_family(), NOW), Err(ApiError::NotFound));
    assert_eq!(list_pings_at(&db, mid, tid + 1, "24h", any_family(), NOW), Err(ApiError::NotFound));
    assert_eq!(list_pings_at(&db, mid, tid, "24h", any_family(), NOW), Ok(vec![]));
}

#[test]
fn series_is_oldest_first_even_when_the_clock_steps_back() {
    let (mut db, mid, tid) = populated();
    let t = token(mid);
    for (at, min) in [(NOW - 10, 1), (NOW - 50, 2), (NOW - 30, 3), (NOW - 50, 4), (NOW, 5)] {
        let s = PingCreate { min, ..sample() };
        create_ping_client_at(&mut db, Some(&t), mid, tid, s, at).unwrap();
    }
    let seen = list_pings_at(&db, mid, tid, "24h", any_family(), NOW).unwrap();
    assert_eq!(
        seen,
        vec![
            (NOW - 50, 2, 20, 0),
            (NOW - 50, 4, 20, 0),
            (NOW - 30, 3, 20, 0),
            (NOW - 10, 1, 20, 0),
            (NOW, 5, 20, 0),
        ]
    );
}

#[test]
fn sweep_removes_only_what_is_older_than_seven_days() {
    let (mut db, mid, tid) = populated();
    let t = token(mid);
    assert_eq!(RETENTION_SECONDS, 7 * 24 * 3600);
    let ages = [RETENTION_SECONDS + 1, RETENTION_SECONDS, RETENTION_SECONDS - 1, 0];
    for (k, age) in ages.iter().enumerate() {
        let s = PingCreate { min: k as u16, ..sample() };
        create_ping_client_at(&mut db, Some(&t), mid, tid, s, NOW - age).unwrap();
    }
    let out = Mutation::delete_expire_pings_at(&mut db, NOW);
    assert_eq!(out, DeleteResult { rows_affected: 1 });
    // Seen from a little earlier, the window of a week holds all that is left.
    let left = Query::find_pings_by_machine_id_and_target_id_at(&db, mid, tid, "7d", false, NOW - 10);
    let mins: Vec<i32> = left.iter().map(|p| p.min).collect();
    assert_eq!(mins, vec![1, 2, 3]);
    // A second sweep at the same time finds nothing.
    assert_eq!(Mutation::delete_expire_pings_at(&mut db, NOW).rows_affected, 0);
    // Machines and targets are untouched.
    assert_eq!(Query::find_machines(&db).len(), 1);
    assert_eq!(Query::find_targets(&db).len(), 1);
}

#[test]
fn sweeper_turn_expires_old_pings() {
    let (mut db, mid, tid) = populated();
    let t = token(mid);
    create_ping_client_at(&mut db, Some(&t), mid, tid, sample(), NOW - 2 * RETENTION_SECONDS).unwrap();
    create_ping_client_at(&mut db, Some(&t), mid, tid, sample(), NOW).unwrap();
    clean_database_at(&mut db, NOW);
    let left = Query::find_pings_by_machine_id_and_target_id_at(&db, mid, tid, "7d", false, NOW);
    assert_eq!(left.len(), 1);
    assert_eq!(left[0].created, NOW);
    assert_eq!(SWEEP_INTERVAL_SECONDS, 300);
}

#[test]
fn sweeper_turn_by_the_clock_keeps_fresh_pings() {
    let (mut db, mid, tid) = populated();
    let t = token(mid);
    let fresh = create_ping_client(&mut db, Some(&t), mid, tid, sample()).unwrap();
    create_ping_client_at(&mut db, Some(&t), mid, tid, sample(), 1_000).unwrap();
    clean_database(&mut db);
    let left = Query::find_pings_by_machine_id_and_target_id(&db, mid, tid, "7d", false);
    assert_eq!(left, vec![fresh]);
    assert_eq!(Mutation::delete_expire_pings(&mut db).rows_affected, 0);
}

#[test]
fn sweep_at_the_edge_of_time_removes_nothing() {
    let (mut db, mid, tid) = populated();
    let t = token(mid);
    create_ping_client_at(&mut db, Some(&t), mid, tid, sample(), i64::MIN).unwrap();
    assert_eq!(Mutation::delete_expire_pings_at(&mut db, i64::MIN + 5).rows_affected, 0);
    let seen = list_pings_at(&db, mid, tid, "24h", any_family(), i64::MIN + 5).unwrap();
    assert_eq!(seen, vec![(i64::MIN, 12, 20, 0)]);
    assert_eq!(Mutation::delete_expire_pings_at(&mut db, i64::MAX).rows_affected, 1);
}

#[test]
fn store_refuses_pings_without_parents() {
    let (mut db, mid, tid) = populated();
    assert_eq!(
        Mutation::create_ping_at(&mut db, sample(), mid + 5, tid, NOW),
        Err(StoreError::ParentMissing)
    );
    assert_eq!(
        Mutation::create_ping_at(&mut db, sample(), mid, tid + 5, NOW),
        Err(StoreError::ParentMissing)
    );
    assert!(Mutation::create_ping_at(&mut db, sample(), mid, tid, NOW).is_ok());
    assert!(Mutation::create_ping(&mut db, sample(), mid, tid).is_ok());
}

#[test]
fn touching_by_the_clock() {
    let (mut db, mid, tid) = populated();
    assert_eq!(Mutation::update_machine(&mut db, mid), Ok(()));
    assert_eq!(Mutation::update_target(&mut db, tid), Ok(()));
    assert!(Query::find_machine_by_id(&db, mid).unwrap().updated.unwrap() > 1_600_000_000);
    assert!(Query::find_target_by_id(&db, tid).unwrap().updated.unwrap() > 1_600_000_000);
    assert_eq!(Mutation::update_machine(&mut db, mid + 1), Err(StoreError::RowMissing));
    assert_eq!(Mutation::update_target_at(&mut db, tid + 1, NOW), Err(StoreError::RowMissing));
}
