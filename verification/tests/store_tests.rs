use dumbbell_pro_log::ai::persist_menus;
use dumbbell_pro_log::errors::AiError;
use dumbbell_pro_log::json::{Decimal, Json};
use dumbbell_pro_log::table::Table;
use dumbbell_pro_log::types::{MenuExercise, RpeLevel, TimedMenu, WorkoutSet};

fn event(user: &str, ts: &str, exercise: &str, reps: u32) -> WorkoutSet {
    WorkoutSet {
        user_id: user.to_string(),
        timestamp: ts.to_string(),
        exercise_id: exercise.to_string(),
        weight: Decimal::with_tenths(20, 0),
        reps,
        rpe: RpeLevel::Easy,
    }
}

fn menu(part: &str, minutes: u32) -> TimedMenu {
    TimedMenu {
        body_part: part.to_string(),
        duration_minutes: minutes,
        exercises: vec![MenuExercise {
            exercise_name: "Push Up".to_string(),
            sets: 3,
            reps: 10,
            recommended_weight: Decimal::whole(0),
            rest_seconds: 45,
            notes: "steady".to_string(),
        }],
        total_rest_seconds: 135,
        generated_at: "2024-01-01T00:00:00Z".to_string(),
    }
}

#[test]
fn history_comes_back_in_time_order() {
    let mut t = Table::new();
    t.append_event(&event("u1", "2024-01-03T00:00:00Z", "squat", 5));
    t.append_event(&event("u1", "2024-01-01T00:00:00Z", "bench", 8));
    t.append_event(&event("u1", "2024-01-02T00:00:00Z", "row", 6));
    t.append_event(&event("u2", "2024-01-01T12:00:00Z", "curl", 12));

    let all = t.query_workouts("u1", None, false, None);
    assert_eq!(all.len(), 3);
    assert_eq!(all[0].exercise_id, "bench");
    assert_eq!(all[1].exercise_id, "row");
    assert_eq!(all[2].exercise_id, "squat");
}

#[test]
fn rewriting_the_same_timestamp_replaces_the_event() {
    let mut t = Table::new();
    t.append_event(&event("u1", "2024-01-01T00:00:00Z", "bench", 8));
    t.append_event(&event("u1", "2024-01-01T00:00:00Z", "bench", 10));
    let all = t.query_workouts("u1", None, false, None);
    assert_eq!(all.len(), 1);
    assert_eq!(all[0].reps, 10);
}

#[test]
fn cutoff_excludes_old_events_and_keeps_recent_ones() {
    // querying with cutoff = now - 7 days must exclude an event from ten
    // days ago and include one from yesterday
    let now = chrono::Utc::now();
    let fmt = "%Y-%m-%dT%H:%M:%S%.3fZ";
    let ten_days_ago = (now - chrono::Duration::days(10)).format(fmt).to_string();
    let one_day_ago = (now - chrono::Duration::days(1)).format(fmt).to_string();
    let cutoff = (now - chrono::Duration::days(7)).format(fmt).to_string();

    let mut t = Table::new();
    t.append_event(&event("u1", &ten_days_ago, "old_session", 5));
    t.append_event(&event("u1", &one_day_ago, "fresh_session", 8));

    let recent = t.query_workouts("u1", Some(&cutoff), false, None);
    assert_eq!(recent.len(), 1);
    assert_eq!(recent[0].exercise_id, "fresh_session");
    assert_eq!(recent[0].timestamp, one_day_ago);
}

#[test]
fn newest_first_with_a_cap_returns_the_most_recent() {
    let mut t = Table::new();
    t.append_event(&event("u1", "2024-01-01T00:00:00Z", "a", 1));
    t.append_event(&event("u1", "2024-01-02T00:00:00Z", "b", 2));
    t.append_event(&event("u1", "2024-01-03T00:00:00Z", "c", 3));
    let recent = t.query_workouts("u1", None, true, Some(2));
    assert_eq!(recent.len(), 2);
    assert_eq!(recent[0].exercise_id, "c");
    assert_eq!(recent[1].exercise_id, "b");
}

#[test]
fn a_foreign_row_never_fails_a_history_query() {
    let mut t = Table::new();
    t.append_event(&event("u1", "2024-01-01T00:00:00Z", "bench", 8));
    // a row of another kind under the same prefix is skipped, not an error
    t.put(
        "USER#u1".to_string(),
        "WORKOUT#2024-01-02T00:00:00Z".to_string(),
        Json::Str("not a workout record".to_string()),
    );
    let all = t.query_workouts("u1", None, false, None);
    assert_eq!(all.len(), 1);
    assert_eq!(all[0].exercise_id, "bench");
}

#[test]
fn menus_never_appear_in_a_history_query() {
    let mut t = Table::new();
    t.append_event(&event("u1", "2024-01-01T00:00:00Z", "bench", 8));
    t.put_menu("u1", &menu("push", 15));
    let all = t.query_workouts("u1", None, false, None);
    assert_eq!(all.len(), 1);
    assert_eq!(all[0].exercise_id, "bench");
}

#[test]
fn a_regenerated_menu_replaces_the_prior_one() {
    let mut t = Table::new();
    t.put_menu("u1", &menu("push", 15));
    let mut better = menu("push", 15);
    better.total_rest_seconds = 90;
    t.put_menu("u1", &better);
    let got = t.get_menu("u1", "push", Some(15)).expect("stored");
    assert_eq!(got.total_rest_seconds, 90);
    assert_eq!(t.len(), 1);
    assert!(t.get_menu("u1", "push", Some(30)).is_none());
}

#[test]
fn a_failed_second_write_keeps_the_first_menu_and_reports_storage_error() {
    // persisting three menus where the second write fails must leave the
    // first menu retrievable and surface a storage error overall
    let mut t = Table::new();
    let menus = vec![menu("push", 15), menu("pull", 15), menu("legs", 15)];
    match persist_menus(&mut t, "u1", &menus, Some(1)) {
        Err(AiError::StorageError(_)) => {},
        other => panic!("expected a storage error, got {:?}", other),
    }
    let first = t.get_menu("u1", "push", Some(15)).expect("the first write is committed");
    assert_eq!(first.body_part, "push");
    assert!(t.get_menu("u1", "pull", Some(15)).is_none());
    assert!(t.get_menu("u1", "legs", Some(15)).is_none());
}

#[test]
fn persisting_all_menus_succeeds_and_counts_them() {
    let mut t = Table::new();
    let menus = vec![menu("push", 15), menu("pull", 30), menu("legs", 60)];
    let n = persist_menus(&mut t, "u1", &menus, None).expect("all writes succeed");
    assert_eq!(n, 3);
    assert!(t.get_menu("u1", "push", Some(15)).is_some());
    assert!(t.get_menu("u1", "pull", Some(30)).is_some());
    assert!(t.get_menu("u1", "legs", Some(60)).is_some());
}

#[test]
fn error_messages_name_their_category() {
    assert_eq!(
        AiError::StorageError("d".to_string()).message(),
        "storage error: d"
    );
    assert_eq!(
        AiError::ParseError("bad".to_string(), "raw".to_string()).message(),
        "parse error: bad"
    );
    assert_eq!(
        AiError::TransportError("down".to_string()).message(),
        "transport error: down"
    );
    assert_eq!(
        AiError::ProviderStatusError(500, "body".to_string()).message(),
        "provider status error: body"
    );
    assert_eq!(
        AiError::ProviderShapeError("empty".to_string()).message(),
        "provider shape error: empty"
    );
    assert_eq!(
        AiError::SerializationError("enc".to_string()).message(),
        "serialization error: enc"
    );
}
