use dumbbell_pro_log::ai::{
    generate_timed_menus, get_ai_info, get_growth_analysis, get_training_recommendation,
    parse_analysis_reply, parse_menus_reply, parse_recommendation_reply, AnalysisStep,
    RecommendStep,
};
use dumbbell_pro_log::errors::AiError;
use dumbbell_pro_log::json::Decimal;
use dumbbell_pro_log::provider::{
    build_provider_request, extract_converse_reply, extract_rest_reply, ContentBlock,
    ConverseMessage, ProviderKind, ProviderRequest,
};
use dumbbell_pro_log::types::{RpeLevel, WorkoutSet};

fn one_event() -> WorkoutSet {
    WorkoutSet {
        user_id: "u1".to_string(),
        timestamp: "2024-01-01T00:00:00Z".to_string(),
        exercise_id: "bench".to_string(),
        weight: Decimal::whole(40),
        reps: 8,
        rpe: RpeLevel::Just,
    }
}

#[test]
fn empty_history_recommendation_never_reaches_the_provider() {
    match get_training_recommendation(&vec![]) {
        RecommendStep::Done(resp) => {
            assert_eq!(resp.recommendations.len(), 0);
            assert_eq!(
                resp.general_advice,
                "トレーニング履歴がありません。まずトレーニングを記録してください。"
            );
        },
        RecommendStep::Prompt(_) => panic!("an empty history must not build a prompt"),
    }
}

#[test]
fn empty_history_analysis_never_reaches_the_provider() {
    match get_growth_analysis(&vec![]) {
        AnalysisStep::Done(resp) => {
            assert_eq!(resp.insights.len(), 1);
            assert_eq!(
                resp.insights[0],
                "まだ十分なデータがありません。トレーニングを継続しましょう！"
            );
            assert_eq!(resp.plateau_warnings.len(), 0);
            assert_eq!(resp.encouragement, "最初の一歩を踏み出しましょう。");
        },
        AnalysisStep::Prompt(_) => panic!("an empty history must not build a prompt"),
    }
}

#[test]
fn one_event_prompt_embeds_the_event_and_a_stub_reply_parses() {
    let history = vec![one_event()];
    let prompt = match get_training_recommendation(&history) {
        RecommendStep::Prompt(p) => p,
        RecommendStep::Done(_) => panic!("a non-empty history must build a prompt"),
    };
    // the serialized event is embedded verbatim
    assert!(prompt.contains(
        "[{\"user_id\":\"u1\",\"timestamp\":\"2024-01-01T00:00:00Z\",\
         \"exercise_id\":\"bench\",\"weight\":40,\"reps\":8,\"rpe\":\"just\"}]"
    ));
    // and the template demands JSON-only output
    assert!(prompt.contains("以下のJSON形式「のみ」で回答してください"));

    let stub = "{\"recommendations\":[{\"exercise_id\":\"bench\",\
        \"recommended_weight\":42.5,\"recommended_reps\":8,\"comment\":\"progress\"}],\
        \"general_advice\":\"ok\"}";
    let parsed = parse_recommendation_reply(stub).expect("the stub parses");
    assert_eq!(parsed.recommendations.len(), 1);
    let rec = &parsed.recommendations[0];
    assert_eq!(rec.exercise_id, "bench");
    assert_eq!(rec.recommended_weight, Decimal { neg: false, int_part: 42, frac: vec![5] });
    assert_eq!(rec.recommended_reps, 8);
    assert_eq!(rec.comment, "progress");
    assert_eq!(parsed.general_advice, "ok");
}

#[test]
fn invalid_reply_text_is_returned_verbatim_in_the_parse_error() {
    let raw = "I would rather chat than answer in JSON { oops";
    match parse_recommendation_reply(raw) {
        Err(AiError::ParseError(_, text)) => assert_eq!(text, raw),
        other => panic!("expected a parse error, got {:?}", other),
    }
    match parse_analysis_reply(raw) {
        Err(AiError::ParseError(_, text)) => assert_eq!(text, raw),
        other => panic!("expected a parse error, got {:?}", other),
    }
    match parse_menus_reply(raw) {
        Err(AiError::ParseError(_, text)) => assert_eq!(text, raw),
        other => panic!("expected a parse error, got {:?}", other),
    }
}

#[test]
fn analysis_reply_parses_into_its_three_parts() {
    let stub = "{\"insights\":[\"i1\",\"i2\"],\"plateau_warnings\":[\"w1\"],\
        \"encouragement\":\"go\"}";
    let parsed = parse_analysis_reply(stub).expect("parses");
    assert_eq!(parsed.insights, vec!["i1".to_string(), "i2".to_string()]);
    assert_eq!(parsed.plateau_warnings, vec!["w1".to_string()]);
    assert_eq!(parsed.encouragement, "go");
}

#[test]
fn menu_prompt_embeds_the_recent_history_newest_first() {
    let prompt = generate_timed_menus(&vec![]);
    assert!(prompt.contains("トレーニング履歴なし（初心者向けメニューを作成してください）"));

    let mut e1 = one_event();
    e1.timestamp = "2024-01-01T00:00:00Z".to_string();
    let mut e2 = one_event();
    e2.timestamp = "2024-01-02T00:00:00Z".to_string();
    let prompt2 = generate_timed_menus(&vec![e1, e2]);
    let first = prompt2.find("2024-01-02T00:00:00Z").expect("newest embedded");
    let second = prompt2.find("2024-01-01T00:00:00Z").expect("oldest embedded");
    assert!(first < second, "the newest event must come first");
}

#[test]
fn rest_status_error_carries_the_response_body() {
    let body = "quota exhausted for this key".to_string();
    match extract_rest_reply(429, body.clone()) {
        Err(AiError::ProviderStatusError(status, carried)) => {
            assert_eq!(status, 429);
            assert_eq!(carried, body);
        },
        other => panic!("expected a status error, got {:?}", other),
    }
}

#[test]
fn rest_success_yields_the_first_candidate_part() {
    let body = "{\"candidates\":[{\"content\":{\"parts\":[{\"text\":\"hello\"}]}}]}";
    let text = extract_rest_reply(200, body.to_string()).expect("extracts");
    assert_eq!(text, "hello");

    match extract_rest_reply(200, "{\"candidates\":[]}".to_string()) {
        Err(AiError::ProviderShapeError(_)) => {},
        other => panic!("expected a shape error, got {:?}", other),
    }
    match extract_rest_reply(200, "not even json".to_string()) {
        Err(AiError::ProviderShapeError(_)) => {},
        other => panic!("expected a shape error, got {:?}", other),
    }
}

#[test]
fn converse_reply_concatenates_text_blocks() {
    let msg = ConverseMessage {
        from_assistant: true,
        content: vec![
            ContentBlock::Text("hel".to_string()),
            ContentBlock::Other,
            ContentBlock::Text("lo".to_string()),
        ],
    };
    assert_eq!(extract_converse_reply(Some(&msg)).expect("extracts"), "hello");

    match extract_converse_reply(None) {
        Err(AiError::ProviderShapeError(_)) => {},
        other => panic!("expected a shape error, got {:?}", other),
    }
    let empty = ConverseMessage { from_assistant: true, content: vec![] };
    match extract_converse_reply(Some(&empty)) {
        Err(AiError::ProviderShapeError(_)) => {},
        other => panic!("expected a shape error, got {:?}", other),
    }
    let wrong_kind = ConverseMessage {
        from_assistant: false,
        content: vec![ContentBlock::Text("x".to_string())],
    };
    match extract_converse_reply(Some(&wrong_kind)) {
        Err(AiError::ProviderShapeError(_)) => {},
        other => panic!("expected a shape error, got {:?}", other),
    }
}

#[test]
fn provider_request_carries_model_and_key() {
    match build_provider_request(ProviderKind::Rest, "gemini-3-flash-preview", "test-api-key", "p".to_string()) {
        ProviderRequest::Rest { url, body } => {
            assert_eq!(
                url,
                "https://generativelanguage.googleapis.com/v1beta/models/\
                 gemini-3-flash-preview:generateContent?key=test-api-key"
            );
            assert_eq!(
                body,
                "{\"contents\":[{\"parts\":[{\"text\":\"p\"}]}],\
                 \"generationConfig\":{\"responseMimeType\":\"application/json\"}}"
            );
        },
        other => panic!("expected a REST request, got {:?}", other),
    }
    match build_provider_request(ProviderKind::Managed, "m", "k", "prompt".to_string()) {
        ProviderRequest::Managed { message } => assert_eq!(message, "prompt"),
        other => panic!("expected a managed request, got {:?}", other),
    }
}

#[test]
fn ai_info_names_the_configured_model() {
    let info = get_ai_info("gemini-3-flash-preview");
    assert_eq!(info.model_name, "Gemini 3 Flash Preview");
    assert_eq!(info.provider, "Google AI Studio");
    assert_eq!(info.model_id, "gemini-3-flash-preview");
}
