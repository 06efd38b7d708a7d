use dumbbell_pro_log::codec::{
    decode_menu_text, decode_menus_text, encode_history_text, encode_menu_text,
    encode_menuex_text, decode_menuex_text,
};
use dumbbell_pro_log::json::Decimal;
use dumbbell_pro_log::types::{MenuExercise, RpeLevel, TimedMenu, WorkoutSet};

fn sample_menu() -> TimedMenu {
    TimedMenu {
        body_part: "push".to_string(),
        duration_minutes: 15,
        exercises: vec![MenuExercise {
            exercise_name: "Push Up".to_string(),
            sets: 3,
            reps: 10,
            recommended_weight: Decimal::with_tenths(0, 0),
            rest_seconds: 60,
            notes: "Keep straight".to_string(),
        }],
        total_rest_seconds: 180,
        generated_at: "2023-01-01T12:00:00Z".to_string(),
    }
}

#[test]
fn test_timed_menu_serialization() {
    let menu = sample_menu();

    let json = encode_menu_text(&menu);
    let actual: serde_json::Value = serde_json::from_str(&json).unwrap();

    let mut exercise = serde_json::Map::new();
    exercise.insert("exerciseName".to_string(), serde_json::Value::from("Push Up"));
    exercise.insert("sets".to_string(), serde_json::Value::from(3u64));
    exercise.insert("reps".to_string(), serde_json::Value::from(10u64));
    exercise.insert("recommendedWeight".to_string(), serde_json::Value::from(0.0f64));
    exercise.insert("restSeconds".to_string(), serde_json::Value::from(60u64));
    exercise.insert("notes".to_string(), serde_json::Value::from("Keep straight"));
    let mut expected_map = serde_json::Map::new();
    expected_map.insert("bodyPart".to_string(), serde_json::Value::from("push"));
    expected_map.insert("durationMinutes".to_string(), serde_json::Value::from(15u64));
    expected_map.insert(
        "exercises".to_string(),
        serde_json::Value::Array(vec![serde_json::Value::Object(exercise)]),
    );
    expected_map.insert("totalRestSeconds".to_string(), serde_json::Value::from(180u64));
    expected_map.insert(
        "generatedAt".to_string(),
        serde_json::Value::from("2023-01-01T12:00:00Z"),
    );
    let expected = serde_json::Value::Object(expected_map);

    assert_eq!(actual, expected);
}

#[test]
fn test_parse_gemini_response() {
    let sample_json = r#"[
            {
                "bodyPart": "push",
                "durationMinutes": 15,
                "exercises": [
                    {
                        "exerciseName": "Push Up",
                        "sets": 3,
                        "reps": 10,
                        "recommendedWeight": 0.0,
                        "restSeconds": 60,
                        "notes": "Keep straight"
                    }
                ],
                "totalRestSeconds": 180,
                "generatedAt": "2023-01-01T12:00:00Z"
            }
        ]"#;

    let menus: Vec<TimedMenu> = decode_menus_text(sample_json).expect("Failed to parse JSON");
    assert_eq!(menus.len(), 1);
    assert_eq!(menus[0].body_part, "push");
    assert_eq!(menus[0].exercises[0].exercise_name, "Push Up");
}

#[test]
fn menu_round_trip_preserves_every_field() {
    let menu = sample_menu();
    let text = encode_menu_text(&menu);
    let back = decode_menu_text(&text).expect("decodes");
    assert_eq!(back, menu);
}

#[test]
fn menu_exercise_round_trip_preserves_every_field() {
    let e = MenuExercise {
        exercise_name: "ダンベルプレス".to_string(),
        sets: 4,
        reps: 12,
        recommended_weight: Decimal { neg: false, int_part: 12, frac: vec![2, 5] },
        rest_seconds: 90,
        notes: "胸を張る".to_string(),
    };
    let text = encode_menuex_text(&e);
    let back = decode_menuex_text(&text).expect("decodes");
    assert_eq!(back, e);
}

#[test]
fn menu_decode_rejects_a_wrong_shape() {
    assert!(decode_menu_text("[]").is_none());
    assert!(decode_menu_text("{\"bodyPart\":\"push\"}").is_none());
    // fields may come in any order, unknown fields are allowed
    let reordered = "{\"generatedAt\":\"2023-01-01T12:00:00Z\",\"extra\":null,\
        \"totalRestSeconds\":180,\"exercises\":[],\"durationMinutes\":15,\"bodyPart\":\"push\"}";
    let m = decode_menu_text(reordered).expect("decodes");
    assert_eq!(m.body_part, "push");
    assert_eq!(m.exercises.len(), 0);
}

#[test]
fn history_serializes_with_snake_case_fields() {
    let history = vec![WorkoutSet {
        user_id: "u1".to_string(),
        timestamp: "2024-01-01T00:00:00Z".to_string(),
        exercise_id: "bench".to_string(),
        weight: Decimal::whole(40),
        reps: 8,
        rpe: RpeLevel::Just,
    }];
    let text = encode_history_text(&history);
    assert_eq!(
        text,
        "[{\"user_id\":\"u1\",\"timestamp\":\"2024-01-01T00:00:00Z\",\
         \"exercise_id\":\"bench\",\"weight\":40,\"reps\":8,\"rpe\":\"just\"}]"
    );
}
