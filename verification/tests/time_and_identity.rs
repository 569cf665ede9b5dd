use feeds::identity::identity_precedes;
use feeds::time::{Timestamp, SECONDS_PER_HOUR};

#[test]
fn timestamp_orders_by_seconds_then_nanos() {
    let early = Timestamp::new(10, 5);
    let late = Timestamp::new(10, 6);
    assert!(late.is_later_than(&early));
    assert!(!early.is_later_than(&late));
    assert!(!early.is_later_than(&early));
    assert!(Timestamp::new(11, 0).is_later_than(&Timestamp::new(10, 999_999_999)));
    assert!(Timestamp::new(-1, 0).is_later_than(&Timestamp::new(-2, 7)));
}

#[test]
fn timestamp_new_keeps_its_parts() {
    let t = Timestamp::new(-42, 17);
    assert_eq!(t.seconds, -42);
    assert_eq!(t.nanos, 17);
    assert_eq!(t, Timestamp { seconds: -42, nanos: 17 });
}

#[test]
fn an_hour_has_3600_seconds() {
    assert_eq!(SECONDS_PER_HOUR, 3600);
}

#[test]
fn window_bound_is_strict() {
    let now = Timestamp::new(100_000, 500);
    // Exactly one hour before `now`: not within the window of one hour.
    assert!(!Timestamp::new(96_400, 500).is_within_window(&now, 1));
    // One nanosecond later: within.
    assert!(Timestamp::new(96_400, 501).is_within_window(&now, 1));
    // One nanosecond earlier: not within.
    assert!(!Timestamp::new(96_400, 499).is_within_window(&now, 1));
    assert!(Timestamp::new(96_401, 0).is_within_window(&now, 1));
    assert!(!Timestamp::new(96_399, 999_999_999).is_within_window(&now, 1));
}

#[test]
fn window_of_zero_hours_keeps_only_the_future() {
    let now = Timestamp::new(50, 10);
    assert!(!Timestamp::new(50, 10).is_within_window(&now, 0));
    assert!(Timestamp::new(50, 11).is_within_window(&now, 0));
    assert!(Timestamp::new(51, 0).is_within_window(&now, 0));
    assert!(!Timestamp::new(49, 999).is_within_window(&now, 0));
}

#[test]
fn window_has_no_upper_bound() {
    let now = Timestamp::new(1_000, 0);
    assert!(Timestamp::new(1_000_000_000, 0).is_within_window(&now, 24));
    assert!(Timestamp::new(i64::MAX, u32::MAX).is_within_window(&now, 0));
}

#[test]
fn window_takes_every_hour_count() {
    let now = Timestamp::new(i64::MAX, 0);
    assert!(Timestamp::new(i64::MIN, 0).is_within_window(&now, usize::MAX));
    assert!(!Timestamp::new(i64::MIN, 0).is_within_window(&now, 0));
    let early = Timestamp::new(i64::MIN, 0);
    assert!(Timestamp::new(i64::MAX, 0).is_within_window(&early, usize::MAX));
}

#[test]
fn wider_window_keeps_what_a_narrower_one_keeps() {
    let now = Timestamp::new(1_000_000, 0);
    let t = Timestamp::new(1_000_000 - 2 * 3600 + 1, 0);
    assert!(!t.is_within_window(&now, 1));
    assert!(t.is_within_window(&now, 2));
    assert!(t.is_within_window(&now, 3));
    assert!(t.is_within_window(&now, 1000));
}

#[test]
fn identities_order_as_strings_do() {
    let words = ["", "a", "A", "ab", "b", "abc", "abd", "z", "é", "éa", "日本", "~", "a b", "a\u{10000}"];
    for x in words.iter() {
        for y in words.iter() {
            let a = x.to_string();
            let b = y.to_string();
            assert_eq!(identity_precedes(&a, &b), a < b, "{:?} against {:?}", a, b);
        }
    }
}

#[test]
fn identity_order_examples() {
    let s = |t: &str| t.to_string();
    assert!(identity_precedes(&s("A"), &s("B")));
    assert!(!identity_precedes(&s("B"), &s("A")));
    assert!(!identity_precedes(&s("A"), &s("A")));
    assert!(identity_precedes(&s(""), &s("A")));
    assert!(identity_precedes(&s("feed"), &s("feed-2")));
    assert!(identity_precedes(&s("Z"), &s("a")));
    assert!(identity_precedes(&s("z"), &s("é")));
}
