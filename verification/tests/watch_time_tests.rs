use anipwatch::state::WatchTime;

#[test]
fn watch_time_test_1() {
    let wt = WatchTime { hours: 11, minutes: 22, seconds: 33, cents: 44 };

    assert_eq!(wt.hours, (wt.to_u128() >> (32 * 3)) as u32);
    assert_eq!(wt.minutes, (wt.to_u128() >> (32 * 2)) as u32);
    assert_eq!(wt.seconds, (wt.to_u128() >> 32) as u32);
    assert_eq!(wt.cents, wt.to_u128() as u32);
}

#[test]
fn watch_time_test_2() {
    let mut wt_1 = WatchTime { hours: 11, minutes: 22, seconds: 33, cents: 44 };

    let wt_2 = wt_1.clone();

    assert_eq!(wt_1, wt_2);

    wt_1.hours += 1;
    assert_ne!(wt_1, wt_2);
    assert!(wt_1 > wt_2);
    assert!(wt_2 < wt_1);
}

#[test]
fn watch_time_test_3() {
    let mut wt = WatchTime { hours: 20, minutes: 119, seconds: 125, cents: 150 };

    wt.normalize();

    assert_eq!(wt.cents, 50);
    assert_eq!(wt.seconds, 6);
    assert_eq!(wt.minutes, 1);
    assert_eq!(wt.hours, 22);
}

#[test]
fn normalize_twice_equals_once() {
    let raw = WatchTime { hours: 123, minutes: 500, seconds: 999, cents: 12345 };

    let mut once = raw.clone();
    once.normalize();

    let mut twice = once.clone();
    twice.normalize();

    assert_eq!(once, twice);

    let mut zero = WatchTime::default();
    zero.normalize();
    assert_eq!(zero, WatchTime::default());
}

#[test]
fn packed_order_follows_field_priority() {
    let small_fields_high_hour = WatchTime { hours: 1, minutes: 0, seconds: 0, cents: 0 };
    let large_fields_low_hour = WatchTime { hours: 0, minutes: 59, seconds: 59, cents: 99 };
    assert!(large_fields_low_hour < small_fields_high_hour);
    assert!(large_fields_low_hour.to_u128() < small_fields_high_hour.to_u128());

    let minute_up = WatchTime { hours: 3, minutes: 5, seconds: 0, cents: 0 };
    let second_up = WatchTime { hours: 3, minutes: 4, seconds: 59, cents: 99 };
    assert!(second_up < minute_up);
    assert!(second_up.to_u128() < minute_up.to_u128());

    let cent_up = WatchTime { hours: 3, minutes: 4, seconds: 59, cents: 98 };
    assert!(cent_up < second_up);
    assert!(cent_up.to_u128() < second_up.to_u128());

    let equal_a = WatchTime { hours: 7, minutes: 8, seconds: 9, cents: 10 };
    let equal_b = WatchTime { hours: 7, minutes: 8, seconds: 9, cents: 10 };
    assert_eq!(equal_a.to_u128(), equal_b.to_u128());
    assert_eq!(equal_a, equal_b);
}
