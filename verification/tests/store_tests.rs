use twofactor_incomplete::{Config, TwoFactorIncomplete, TwoFactorStore};

fn enabled_config() -> Config {
    Config { incomplete_2fa_time_limit: 900, mail_enabled: true }
}

fn mark(
    store: &mut TwoFactorStore,
    cfg: &Config,
    user: &str,
    device: &str,
    name: &str,
    ty: i32,
    ip: &str,
    now: i64,
) {
    let r = TwoFactorIncomplete::mark_incomplete(
        &String::from(user),
        &String::from(device),
        name,
        ty,
        ip,
        now,
        cfg,
        store,
    );
    assert!(r.is_ok());
}

fn find(store: &TwoFactorStore, user: &str, device: &str) -> Option<TwoFactorIncomplete> {
    TwoFactorIncomplete::find_by_user_and_device(
        &String::from(user),
        &String::from(device),
        store,
    )
}

#[test]
fn first_mark_stores_full_record() {
    let mut store = TwoFactorStore::new();
    let cfg = enabled_config();
    mark(&mut store, &cfg, "u1", "d1", "firefox on linux", 10, "203.0.113.7", 1000);
    let rec = find(&store, "u1", "d1").expect("record should be stored");
    assert_eq!(rec.user_uuid, "u1");
    assert_eq!(rec.device_uuid, "d1");
    assert_eq!(rec.device_name, "firefox on linux");
    assert_eq!(rec.device_type, 10);
    assert_eq!(rec.login_time, 1000);
    assert_eq!(rec.ip_address, "203.0.113.7");
}

#[test]
fn second_mark_keeps_first_record() {
    // Write-once: a later mark with different metadata must not reset the
    // timer or replace any field of the first record.
    let mut store = TwoFactorStore::new();
    let cfg = enabled_config();
    mark(&mut store, &cfg, "u1", "d1", "first-name", 1, "10.0.0.1", 1000);
    mark(&mut store, &cfg, "u1", "d1", "second-name", 2, "10.0.0.2", 1010);
    let rec = find(&store, "u1", "d1").expect("record should be stored");
    assert_eq!(rec.login_time, 1000);
    assert_eq!(rec.device_name, "first-name");
    assert_eq!(rec.device_type, 1);
    assert_eq!(rec.ip_address, "10.0.0.1");
}

#[test]
fn repeated_marks_store_one_record() {
    // Many inserts for one key leave exactly one stored record.
    let mut store = TwoFactorStore::new();
    let cfg = enabled_config();
    for i in 0..5 {
        mark(&mut store, &cfg, "u1", "d1", "web", 1, "10.0.0.1", 1000 + i);
    }
    let all = TwoFactorIncomplete::find_logins_before(i64::MAX, &store);
    assert_eq!(all.len(), 1);
    assert_eq!(all[0].login_time, 1000);
}

#[test]
fn mark_complete_clears_record() {
    let mut store = TwoFactorStore::new();
    let cfg = enabled_config();
    mark(&mut store, &cfg, "u1", "d1", "web", 1, "10.0.0.1", 1000);
    let r = TwoFactorIncomplete::mark_complete(
        &String::from("u1"),
        &String::from("d1"),
        &cfg,
        &mut store,
    );
    assert!(r.is_ok());
    assert!(find(&store, "u1", "d1").is_none());
}

#[test]
fn mark_complete_absent_key_is_ok() {
    // Resolving a key that was never pending succeeds and finds nothing.
    let mut store = TwoFactorStore::new();
    let cfg = enabled_config();
    let r = TwoFactorIncomplete::mark_complete(
        &String::from("u9"),
        &String::from("d9"),
        &cfg,
        &mut store,
    );
    assert!(r.is_ok());
    assert!(find(&store, "u9", "d9").is_none());
}

#[test]
fn zero_time_limit_creates_no_record() {
    let mut store = TwoFactorStore::new();
    let cfg = Config { incomplete_2fa_time_limit: 0, mail_enabled: true };
    mark(&mut store, &cfg, "u1", "d1", "web", 1, "10.0.0.1", 1000);
    assert!(find(&store, "u1", "d1").is_none());
}

#[test]
fn negative_time_limit_creates_no_record() {
    let mut store = TwoFactorStore::new();
    let cfg = Config { incomplete_2fa_time_limit: -5, mail_enabled: true };
    mark(&mut store, &cfg, "u1", "d1", "web", 1, "10.0.0.1", 1000);
    assert!(find(&store, "u1", "d1").is_none());
}

#[test]
fn mail_disabled_creates_no_record() {
    let mut store = TwoFactorStore::new();
    let cfg = Config { incomplete_2fa_time_limit: 900, mail_enabled: false };
    mark(&mut store, &cfg, "u1", "d1", "web", 1, "10.0.0.1", 1000);
    assert!(find(&store, "u1", "d1").is_none());
}

#[test]
fn mark_complete_disabled_leaves_record() {
    // The configuration switches short-circuit resolution too: with the
    // feature off, an existing record is not deleted.
    let mut store = TwoFactorStore::new();
    let cfg = enabled_config();
    mark(&mut store, &cfg, "u1", "d1", "web", 1, "10.0.0.1", 1000);
    let off = Config { incomplete_2fa_time_limit: 0, mail_enabled: true };
    let r = TwoFactorIncomplete::mark_complete(
        &String::from("u1"),
        &String::from("d1"),
        &off,
        &mut store,
    );
    assert!(r.is_ok());
    assert!(find(&store, "u1", "d1").is_some());
}

#[test]
fn stale_scan_thresholds() {
    // Record created at T0 = 1000 with a 900 s limit. A sweep running at
    // T0 + 901 uses the cutoff 1001 and must see the record; one running at
    // T0 + 899 uses the cutoff 999 and must not.
    let mut store = TwoFactorStore::new();
    let cfg = enabled_config();
    mark(&mut store, &cfg, "u1", "d1", "web", 1, "10.0.0.1", 1000);

    let late = TwoFactorIncomplete::find_logins_before(1001, &store);
    assert_eq!(late.len(), 1);
    assert_eq!(late[0].user_uuid, "u1");
    assert_eq!(late[0].device_uuid, "d1");

    let early = TwoFactorIncomplete::find_logins_before(999, &store);
    assert!(early.is_empty());
}

#[test]
fn stale_scan_is_strict() {
    // A record whose login time equals the threshold is excluded.
    let mut store = TwoFactorStore::new();
    let cfg = enabled_config();
    mark(&mut store, &cfg, "u1", "d1", "web", 1, "10.0.0.1", 1000);
    let at = TwoFactorIncomplete::find_logins_before(1000, &store);
    assert!(at.is_empty());
}

#[test]
fn stale_scan_empty_store() {
    let store = TwoFactorStore::new();
    let r = TwoFactorIncomplete::find_logins_before(i64::MAX, &store);
    assert!(r.is_empty());
}

#[test]
fn stale_scan_partitions_records() {
    // Exactly the strictly-older records are returned, none mutated.
    let mut store = TwoFactorStore::new();
    let cfg = enabled_config();
    mark(&mut store, &cfg, "u1", "d1", "web", 1, "10.0.0.1", 100);
    mark(&mut store, &cfg, "u1", "d2", "web", 1, "10.0.0.1", 200);
    mark(&mut store, &cfg, "u2", "d3", "web", 1, "10.0.0.1", 300);

    let stale = TwoFactorIncomplete::find_logins_before(250, &store);
    assert_eq!(stale.len(), 2);
    assert!(stale.iter().any(|r| r.device_uuid == "d1"));
    assert!(stale.iter().any(|r| r.device_uuid == "d2"));
    // The scan deletes nothing.
    assert!(find(&store, "u2", "d3").is_some());
    assert!(find(&store, "u1", "d1").is_some());
}

#[test]
fn delete_by_user_and_device_exact_key() {
    let mut store = TwoFactorStore::new();
    let cfg = enabled_config();
    mark(&mut store, &cfg, "u1", "d1", "web", 1, "10.0.0.1", 100);
    mark(&mut store, &cfg, "u1", "d2", "web", 1, "10.0.0.1", 200);
    let r = TwoFactorIncomplete::delete_by_user_and_device(
        &String::from("u1"),
        &String::from("d1"),
        &mut store,
    );
    assert!(r.is_ok());
    assert!(find(&store, "u1", "d1").is_none());
    assert!(find(&store, "u1", "d2").is_some());
}

#[test]
fn delete_record_value() {
    let mut store = TwoFactorStore::new();
    let cfg = enabled_config();
    mark(&mut store, &cfg, "u1", "d1", "web", 1, "10.0.0.1", 100);
    let rec = find(&store, "u1", "d1").expect("record should be stored");
    let r = rec.delete(&mut store);
    assert!(r.is_ok());
    assert!(find(&store, "u1", "d1").is_none());
}

#[test]
fn delete_for_user_leaves_others() {
    // Bulk delete removes both of U1's pending devices and nothing of U2's.
    let mut store = TwoFactorStore::new();
    let cfg = enabled_config();
    mark(&mut store, &cfg, "u1", "d1", "web", 1, "10.0.0.1", 100);
    mark(&mut store, &cfg, "u1", "d2", "mobile", 2, "10.0.0.2", 200);
    mark(&mut store, &cfg, "u2", "d3", "web", 1, "10.0.0.3", 300);

    let r = TwoFactorIncomplete::delete_all_by_user(&String::from("u1"), &mut store);
    assert!(r.is_ok());
    assert!(find(&store, "u1", "d1").is_none());
    assert!(find(&store, "u1", "d2").is_none());
    let other = find(&store, "u2", "d3").expect("other user's record must remain");
    assert_eq!(other.login_time, 300);
}

#[test]
fn same_device_for_two_users_is_two_keys() {
    // The key is the (user, device) pair: the same claimed device id under
    // two users makes two independent records.
    let mut store = TwoFactorStore::new();
    let cfg = enabled_config();
    mark(&mut store, &cfg, "u1", "d1", "web", 1, "10.0.0.1", 100);
    mark(&mut store, &cfg, "u2", "d1", "web", 1, "10.0.0.2", 200);
    assert_eq!(find(&store, "u1", "d1").unwrap().login_time, 100);
    assert_eq!(find(&store, "u2", "d1").unwrap().login_time, 200);
}

#[test]
fn find_absent_key_is_none() {
    let store = TwoFactorStore::new();
    assert!(find(&store, "u1", "d1").is_none());
}
