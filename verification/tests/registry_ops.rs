use series_registry::errors::{Entity, SeriesError};
use series_registry::keys::{derive_storage_key, TAG_SERIES_APPROVED_IDS, TAG_SERIES_PER_OWNER};
use series_registry::registry::{Contract, GAS_FOR_SERIES_APPROVE};
use series_registry::types::{SeriesArgs, SeriesParams};

fn s(x: &str) -> String {
    x.to_string()
}

fn sv(xs: &[&str]) -> Vec<String> {
    xs.iter().map(|x| x.to_string()).collect()
}

fn params(owner: &[&str]) -> SeriesParams {
    SeriesParams {
        max_supply: 100,
        enforce_unique_args: true,
        mint: sv(&["artist"]),
        owner: sv(owner),
        packages: sv(&[]),
    }
}

const DEPOSIT: u128 = 1_000_000;

#[test]
fn create_then_get_returns_matching_record() {
    let mut c = Contract::new();
    let r = c.series_create(s("s1"), s("ref://x"), params(&["tier"]), s("alice"), 7, DEPOSIT);
    assert!(r.is_ok());
    let j = c.get_series(&s("s1")).unwrap();
    assert_eq!(j.name, s("s1"));
    assert_eq!(j.src, s("ref://x"));
    assert_eq!(j.owner_id, s("alice"));
    assert_eq!(j.issued_at, 7);
    assert_eq!(j.approved_account_ids.len(), 0);
    assert_eq!(j.params.max_supply, 100);
    assert!(j.params.enforce_unique_args);
    assert_eq!(j.params.mint, sv(&["artist"]));
    assert_eq!(j.params.owner, sv(&["tier"]));
    assert_eq!(j.params.packages, sv(&[]));
}

#[test]
fn get_missing_series_is_not_found() {
    let c = Contract::new();
    assert!(matches!(c.get_series(&s("nope")), Err(SeriesError::NotFound(Entity::Series))));
}

#[test]
fn owner_index_accumulates() {
    let mut c = Contract::new();
    c.series_create(s("n1"), s("a"), params(&[]), s("alice"), 1, DEPOSIT).unwrap();
    c.series_create(s("n2"), s("b"), params(&[]), s("alice"), 2, DEPOSIT).unwrap();
    let names = c.series_names_per_owner(&s("alice"));
    assert!(names.contains(&s("n1")));
    assert!(names.contains(&s("n2")));
    assert_eq!(names.len(), 2);
    assert_eq!(c.series_names_per_owner(&s("bob")).len(), 0);
}

#[test]
fn recreate_overwrites_and_leaves_stale_listing() {
    let mut c = Contract::new();
    c.series_create(s("n"), s("a"), params(&[]), s("alice"), 1, DEPOSIT).unwrap();
    c.series_approve(s("n"), s("bob"), None, s("alice"), 0, DEPOSIT).unwrap();
    assert_eq!(c.get_series(&s("n")).unwrap().approved_account_ids.len(), 1);
    c.series_create(s("n"), s("b"), params(&[]), s("carol"), 2, DEPOSIT).unwrap();
    let j = c.get_series(&s("n")).unwrap();
    assert_eq!(j.owner_id, s("carol"));
    assert_eq!(j.src, s("b"));
    // The prior approval set is discarded with the record.
    assert_eq!(j.approved_account_ids.len(), 0);
    // Documented gap: the old owner's index entry still lists the name.
    assert!(c.series_names_per_owner(&s("alice")).contains(&s("n")));
    assert!(c.series_names_per_owner(&s("carol")).contains(&s("n")));
}

#[test]
fn only_owner_may_approve() {
    let mut c = Contract::new();
    c.series_create(s("n"), s("a"), params(&[]), s("alice"), 1, DEPOSIT).unwrap();
    let r = c.series_approve(s("n"), s("eve"), None, s("bob"), 0, DEPOSIT);
    assert_eq!(r.unwrap_err(), SeriesError::Unauthorized);
    assert_eq!(c.get_series(&s("n")).unwrap().approved_account_ids.len(), 0);
}

#[test]
fn approve_missing_series_is_not_found() {
    let mut c = Contract::new();
    let r = c.series_approve(s("n"), s("bob"), None, s("alice"), 0, DEPOSIT);
    assert_eq!(r.unwrap_err(), SeriesError::NotFound(Entity::Series));
}

#[test]
fn approve_twice_is_idempotent() {
    let mut c = Contract::new();
    c.series_create(s("n"), s("a"), params(&[]), s("alice"), 1, DEPOSIT).unwrap();
    c.series_approve(s("n"), s("bob"), None, s("alice"), 0, DEPOSIT).unwrap();
    c.series_approve(s("n"), s("bob"), None, s("alice"), 0, DEPOSIT).unwrap();
    let j = c.get_series(&s("n")).unwrap();
    assert_eq!(j.approved_account_ids, sv(&["bob"]));
}

#[test]
fn approve_with_message_yields_notification() {
    let mut c = Contract::new();
    c.series_create(s("n"), s("a"), params(&[]), s("alice"), 1, DEPOSIT).unwrap();
    let out = c
        .series_approve(
            s("n"),
            s("bob"),
            Some(s("hello")),
            s("alice"),
            GAS_FOR_SERIES_APPROVE + 5,
            DEPOSIT,
        )
        .unwrap();
    let n = out.notification.unwrap();
    assert_eq!(n.receiver_id, s("bob"));
    assert_eq!(n.series_name, s("n"));
    assert_eq!(n.owner_id, s("alice"));
    assert_eq!(n.msg, s("hello"));
    assert_eq!(n.attached_deposit, 0);
    assert_eq!(n.gas, 5);
}

#[test]
fn approve_without_message_yields_no_notification() {
    let mut c = Contract::new();
    c.series_create(s("n"), s("a"), params(&[]), s("alice"), 1, DEPOSIT).unwrap();
    let out = c.series_approve(s("n"), s("bob"), None, s("alice"), 0, DEPOSIT).unwrap();
    assert!(out.notification.is_none());
}

#[test]
fn unknown_attribute_name_is_skipped() {
    let mut c = Contract::new();
    c.series_create(s("n"), s("a"), params(&["tier"]), s("alice"), 1, DEPOSIT).unwrap();
    c.put_token_data(s("t1"), SeriesArgs { name: s("n"), mint: sv(&["me"]), owner: sv(&["bronze"]) });
    let r = c.update_token_owner_args(s("t1"), vec![(s("color"), s("red"))], DEPOSIT);
    assert!(r.is_ok());
    let a = c.get_token_data(&s("t1")).unwrap();
    assert_eq!(a.owner, sv(&["bronze"]));
}

#[test]
fn valid_name_overwrites_exactly_its_slot() {
    let mut c = Contract::new();
    c.series_create(s("n"), s("a"), params(&["tier", "active"]), s("alice"), 1, DEPOSIT).unwrap();
    c.put_token_data(
        s("t1"),
        SeriesArgs { name: s("n"), mint: sv(&["me"]), owner: sv(&["bronze", "true"]) },
    );
    c.update_token_owner_args(s("t1"), vec![(s("active"), s("false"))], DEPOSIT).unwrap();
    let a = c.get_token_data(&s("t1")).unwrap();
    assert_eq!(a.owner, sv(&["bronze", "false"]));
}

#[test]
fn end_to_end_pass_token_update() {
    let mut c = Contract::new();
    c.series_create(s("pass"), s("a"), params(&["tier", "active"]), s("alice"), 1, DEPOSIT)
        .unwrap();
    c.put_token_data(
        s("t1"),
        SeriesArgs { name: s("pass"), mint: sv(&["me"]), owner: sv(&["bronze", "true"]) },
    );
    c.update_token_owner_args(s("t1"), vec![(s("tier"), s("gold"))], DEPOSIT).unwrap();
    let a = c.get_token_data(&s("t1")).unwrap();
    assert_eq!(a.owner, sv(&["gold", "true"]));
}

#[test]
fn update_missing_token_is_not_found() {
    let mut c = Contract::new();
    let r = c.update_token_owner_args(s("t"), vec![(s("a"), s("b"))], DEPOSIT);
    assert_eq!(r.unwrap_err(), SeriesError::NotFound(Entity::Token));
}

#[test]
fn update_with_missing_series_is_not_found() {
    let mut c = Contract::new();
    c.put_token_data(s("t1"), SeriesArgs { name: s("gone"), mint: sv(&[]), owner: sv(&[]) });
    let r = c.update_token_owner_args(s("t1"), vec![(s("a"), s("b"))], DEPOSIT);
    assert_eq!(r.unwrap_err(), SeriesError::NotFound(Entity::Series));
}

#[test]
fn refund_equals_attached_minus_measured_delta() {
    let mut c = Contract::new();
    let before = c.measure();
    let refund = c
        .series_create(s("n"), s("ref"), params(&["tier"]), s("alice"), 1, DEPOSIT)
        .unwrap();
    let after = c.measure();
    let delta = (after - before) as u128;
    assert!(delta > 0);
    assert_eq!(refund, DEPOSIT - delta);
}

#[test]
fn underfunded_call_fails_and_changes_nothing() {
    let mut c = Contract::new();
    let before = c.measure();
    let r = c.series_create(s("n"), s("ref"), params(&["tier"]), s("alice"), 1, 1);
    match r.unwrap_err() {
        SeriesError::InsufficientDeposit { required } => assert!(required > 1),
        e => panic!("unexpected error {:?}", e),
    }
    assert_eq!(c.measure(), before);
    assert!(matches!(c.get_series(&s("n")), Err(SeriesError::NotFound(Entity::Series))));
    assert_eq!(c.series_names_per_owner(&s("alice")).len(), 0);
}

#[test]
fn zero_deposit_is_rejected_before_any_work() {
    let mut c = Contract::new();
    assert_eq!(
        c.series_create(s("n"), s("ref"), params(&[]), s("alice"), 1, 0).unwrap_err(),
        SeriesError::DepositRequired
    );
    assert_eq!(
        c.series_approve(s("n"), s("bob"), None, s("alice"), 0, 0).unwrap_err(),
        SeriesError::DepositRequired
    );
    assert_eq!(
        c.update_token_owner_args(s("t"), vec![], 0).unwrap_err(),
        SeriesError::DepositRequired
    );
}

#[test]
fn storage_keys_are_tagged_digests() {
    let k1 = derive_storage_key(TAG_SERIES_APPROVED_IDS, "a");
    let k2 = derive_storage_key(TAG_SERIES_APPROVED_IDS, "a");
    let k3 = derive_storage_key(TAG_SERIES_APPROVED_IDS, "b");
    let k4 = derive_storage_key(TAG_SERIES_PER_OWNER, "a");
    assert_eq!(k1.len(), 33);
    assert_eq!(k1[0], TAG_SERIES_APPROVED_IDS);
    assert_eq!(k4[0], TAG_SERIES_PER_OWNER);
    assert_eq!(k1, k2);
    assert_ne!(k1, k3);
    assert_ne!(k1, k4);
}
