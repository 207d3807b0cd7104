//! Tests of the durable directory store's decision logic.

use zep_kvs::directory::{artifact_is_stale, fresh_temp_name, name_is_temp, visible_keys};

#[test]
fn temp_names_are_recognized() {
    assert!(name_is_temp(".tmp_12345"));
    assert!(name_is_temp(".tmp_"));
    assert!(!name_is_temp("ordinary_key"));
    assert!(!name_is_temp(".tmp"));
    assert!(!name_is_temp(""));
    assert!(!name_is_temp("x.tmp_1"));
}

#[test]
fn listing_hides_artifacts_and_keeps_order() {
    let names = vec![
        String::from("alpha"),
        String::from(".tmp_170141183460469231731687303715884105727"),
        String::from("beta"),
        String::from(".tmp_0"),
        String::from("gamma"),
    ];
    let keys = visible_keys(names);
    assert_eq!(
        keys,
        vec![
            String::from("alpha"),
            String::from("beta"),
            String::from("gamma")
        ]
    );
}

#[test]
fn fresh_artifact_names_carry_the_reserved_prefix() {
    let name = fresh_temp_name();
    assert!(name.starts_with(".tmp_"));
    assert!(name.len() > ".tmp_".len());
    assert!(name[".tmp_".len()..].bytes().all(|b| b.is_ascii_digit()));
    // A fresh artifact is invisible to a key listing.
    assert_eq!(visible_keys(vec![name]), Vec::<String>::new());
}

#[test]
fn staleness_threshold_is_one_day() {
    assert!(!artifact_is_stale(0));
    assert!(!artifact_is_stale(86399));
    assert!(!artifact_is_stale(86400));
    assert!(artifact_is_stale(86401));
    assert!(artifact_is_stale(u64::MAX));
}
