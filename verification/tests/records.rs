use bucketlist::clock::{now_secs, seconds_or_time_error};
use bucketlist::error::BucketListError;
use bucketlist::paths::{data_file_path, get_bucketlist_dir};
use bucketlist::ranking::by_priority_desc;
use bucketlist::record::{
    decay, raise, refresh, Info, ACTIVE_THRESHOLD, DECAY_DEN, DECAY_NUM, SEC_OF_DECAY, UNIT,
};
use std::cmp::Ordering;
use std::time::{Duration, UNIX_EPOCH};

fn item(prio: u64, last: u64, note: &str) -> Info {
    Info { prio, last, active: prio >= ACTIVE_THRESHOLD, note: note.to_string() }
}

#[test]
fn constants() {
    assert_eq!(UNIT, 1_000_000);
    assert_eq!(ACTIVE_THRESHOLD, UNIT / 10);
    assert_eq!(SEC_OF_DECAY, 24 * 60 * 60);
    assert_eq!(DECAY_NUM, 925);
    assert_eq!(DECAY_DEN, 1_000);
}

#[test]
fn decay_exact_values() {
    assert_eq!(decay(UNIT, 0), UNIT);
    assert_eq!(decay(UNIT, 1), 925_000);
    assert_eq!(decay(UNIT, 2), 855_625);
    assert_eq!(decay(UNIT, 3), 791_453);
    assert_eq!(decay(2 * UNIT, 1), 1_850_000);
    assert_eq!(decay(0, 5), 0);
    assert_eq!(decay(1, 1), 0);
    assert_eq!(decay(7, 0), 7);
    assert_eq!(decay(1_000, 1), 925);
    assert_eq!(decay(1_001, 1), 925);
}

#[test]
fn decay_of_the_largest_priority() {
    let wide: u128 = (u64::MAX as u128) * 925 / 1000;
    assert_eq!(decay(u64::MAX, 1), wide as u64);
    assert_eq!(decay(u64::MAX, 0), u64::MAX);
}

#[test]
fn decay_over_very_many_days() {
    assert_eq!(decay(UNIT, 10_000), 0);
    assert_eq!(decay(u64::MAX, u64::MAX), 0);
}

#[test]
fn decay_stays_close_to_the_power() {
    let mut exact: f64 = 3_000_000.0;
    for d in 0..60u64 {
        let got = decay(3_000_000, d) as f64;
        assert!(got <= exact + 1e-6);
        assert!(exact - got < 14.0);
        exact *= 0.925;
    }
}

#[test]
fn thirty_days_fade_one_unit_out() {
    assert!(decay(UNIT, 29) >= ACTIVE_THRESHOLD);
    assert!(decay(UNIT, 30) < ACTIVE_THRESHOLD);
}

#[test]
fn refresh_one_item() {
    let r = refresh(item(2 * UNIT, 1_000, "n"), 1_000 + SEC_OF_DECAY);
    assert_eq!(r.prio, 1_850_000);
    assert_eq!(r.last, 1_000);
    assert_eq!(r.note, "n");
    assert!(r.active);
    let r = refresh(item(108_109, 0, ""), SEC_OF_DECAY);
    assert_eq!(r.prio, 100_000);
    assert!(r.active);
    let r = refresh(item(108_108, 0, ""), SEC_OF_DECAY);
    assert_eq!(r.prio, 99_999);
    assert!(!r.active);
}

#[test]
fn refresh_within_the_day() {
    let r = refresh(item(UNIT, 1_000, "same"), 1_000 + SEC_OF_DECAY - 1);
    assert_eq!(r.prio, UNIT);
    assert_eq!(r.last, 1_000);
    assert!(r.active);
    assert_eq!(r.note, "same");
    let r = refresh(item(UNIT, 1_000, ""), 999);
    assert_eq!(r.prio, UNIT);
}

#[test]
fn raise_one_item() {
    let r = raise(item(50_000, 10, "n"), 77);
    assert_eq!(r.prio, 1_050_000);
    assert_eq!(r.last, 77);
    assert!(r.active);
    assert_eq!(r.note, "n");
    let r = raise(item(u64::MAX, 10, ""), 78);
    assert_eq!(r.prio, u64::MAX);
    assert_eq!(r.last, 78);
}

#[test]
fn higher_priority_comes_first() {
    let a = item(2 * UNIT, 0, "");
    let b = item(UNIT, 0, "");
    assert_eq!(by_priority_desc(&a, &b), Ordering::Less);
    assert_eq!(by_priority_desc(&b, &a), Ordering::Greater);
    assert_eq!(by_priority_desc(&a, &a), Ordering::Equal);
}

#[test]
fn directory_under_home() {
    let d = get_bucketlist_dir(Some("/home/me".to_string())).unwrap();
    assert_eq!(d, "/home/me/.bucketlist");
    assert_eq!(data_file_path(&d), "/home/me/.bucketlist/data.json");
    let d = get_bucketlist_dir(Some(String::new())).unwrap();
    assert_eq!(d, "/.bucketlist");
}

#[test]
fn directory_without_home() {
    assert!(matches!(get_bucketlist_dir(None), Err(BucketListError::HomeDir)));
}

#[test]
fn clock_reads_after_the_epoch() {
    let a = now_secs().unwrap();
    assert!(a > 1_600_000_000);
    let b = now_secs().unwrap();
    assert!(b >= a);
}

#[test]
fn clock_before_the_epoch_is_a_time_error() {
    let early = UNIX_EPOCH - Duration::from_secs(5);
    let reading = early.duration_since(UNIX_EPOCH).map(|d| d.as_secs());
    assert!(reading.is_err());
    assert!(matches!(seconds_or_time_error(reading), Err(BucketListError::Time)));
    let late = UNIX_EPOCH + Duration::from_secs(5);
    let reading = late.duration_since(UNIX_EPOCH).map(|d| d.as_secs());
    assert!(matches!(seconds_or_time_error(reading), Ok(5)));
}

#[test]
fn error_kinds_by_name() {
    assert_eq!(format!("{:?}", BucketListError::NotFound("gym".to_string())), "NotFound(\"gym\")");
    assert_eq!(format!("{:?}", BucketListError::HomeDir), "HomeDir");
    assert_eq!(format!("{:?}", BucketListError::Io), "Io");
    assert_eq!(format!("{:?}", BucketListError::Time), "Time");
    assert_eq!(format!("{:?}", BucketListError::Serde), "Serde");
}
