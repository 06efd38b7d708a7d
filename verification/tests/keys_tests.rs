use dumbbell_pro_log::json::Decimal;
use dumbbell_pro_log::keys::{menu_sk_of, user_pk_of, workout_sk_of};
use dumbbell_pro_log::text::{str_eq, str_le};
use dumbbell_pro_log::types::{RpeLevel, WorkoutSet};

#[test]
fn test_workout_set_keys() {
    let set = WorkoutSet {
        user_id: "test_user".to_string(),
        timestamp: "2023-01-01T12:00:00Z".to_string(),
        exercise_id: "push_1".to_string(),
        weight: Decimal::with_tenths(20, 0),
        reps: 10,
        rpe: RpeLevel::Just,
    };

    assert_eq!(set.pk(), "USER#test_user");
    assert_eq!(set.sk(), "WORKOUT#2023-01-01T12:00:00Z");
}

#[test]
fn workout_sort_keys_order_by_timestamp() {
    // an earlier ISO-8601 timestamp yields a lexicographically smaller key
    let early = workout_sk_of("2023-01-01T12:00:00Z");
    let late = workout_sk_of("2024-02-03T04:05:06Z");
    assert!(str_le(early.as_str(), late.as_str()));
    assert!(!str_le(late.as_str(), early.as_str()));
    // the derivation is deterministic
    let again = workout_sk_of("2023-01-01T12:00:00Z");
    assert!(str_eq(early.as_str(), again.as_str()));
}

#[test]
fn menu_keys_carry_part_and_duration() {
    assert_eq!(menu_sk_of("push", None), "MENU#push");
    assert_eq!(menu_sk_of("legs", Some(30)), "MENU#legs#30");
    assert_eq!(user_pk_of("u1"), "USER#u1");
}

#[test]
fn record_kinds_never_share_keys() {
    let w = workout_sk_of("2023-01-01T12:00:00Z");
    let m = menu_sk_of("push", Some(15));
    assert_ne!(w, m);
    assert_ne!(menu_sk_of("push", None), menu_sk_of("push", Some(15)));
}
