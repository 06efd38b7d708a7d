//! The three instruction templates handed to the completion provider.
//!
//! Each template states the assistant's role, explains the domain
//! vocabulary the model needs (the meaning of the effort levels; for
//! menus, the equipment constraint and the rest-second band of each
//! duration tier), embeds the serialized history verbatim between its two
//! halves, and fixes the exact JSON shape of the required reply while
//! forbidding any other prose. The menu template additionally fixes the
//! three body regions and three durations, nine menus in all, ordered
//! compound-to-isolation.

use vstd::prelude::*;
use crate::text::concat3;

verus! {

/// The recommendation template, before the embedded history.
pub open spec fn recommend_head() -> Seq<char> {
    "あなたはパーソナルトレーニングコーチです。\n以下のトレーニング履歴を分析し、次回のトレーニングにおける推奨重量と回数を提案してください。\n\n## RPEの意味\n- easy: 余裕があった（重量を上げることを推奨）\n- just: ちょうど良い（現状維持または微増を推奨）\n- limit: 限界だった（重量維持または回数調整を推奨）\n\n## トレーニング履歴（直近7日間）\n"@
}

/// The recommendation template, after the embedded history.
pub open spec fn recommend_tail() -> Seq<char> {
    "\n\n## 出力形式\n以下のJSON形式「のみ」で回答してください。説明文は不要です：\n{\n  \"recommendations\": [\n    {\n      \"exercise_id\": \"エクササイズID\",\n      \"recommended_weight\": 推奨重量（数値）,\n      \"recommended_reps\": 推奨回数（整数）,\n      \"comment\": \"短い理由（日本語）\"\n    }\n  ],\n  \"general_advice\": \"全体的なアドバイス（日本語）\"\n}"@
}

/// The growth-analysis template, before the embedded history.
pub open spec fn analysis_head() -> Seq<char> {
    "あなたは専門的なフィットネスアナライザーです。\n以下の全期間のトレーニング履歴を分析し、ユーザーの成長傾向に関する長期的なインサイトを提供してください。\n\n## 分析のポイント\n1. 重量やボリュームの伸び（プログレッシブ・オーバーロードが達成されているか）\n2. 成長が止まっている種目（プラトー）の特定\n3. 種目間のバランスや得意・不得意の分析\n\n## トレーニング全履歴\n"@
}

/// The growth-analysis template, after the embedded history.
pub open spec fn analysis_tail() -> Seq<char> {
    "\n\n## 出力形式\n以下のJSON形式「のみ」で回答してください。説明文は不要です：\n{\n  \"insights\": [\"具体的な分析結果1\", \"具体的な分析結果2\"],\n  \"plateau_warnings\": [\"停滞が懸念される種目と理由\"],\n  \"encouragement\": \"ユーザーを鼓舞するメッセージ\"\n}"@
}

/// The menu-generation template, before the embedded history summary.
pub open spec fn menus_head() -> Seq<char> {
    "あなたはダンベルトレーニング専門のパーソナルトレーナーです。\n以下のトレーニング履歴を元に、3つの部位（push/pull/legs）× 3つの時間（15分/30分/60分）= 合計9パターンのトレーニングメニューを生成してください。\n\n## 重要なルール\n- ダンベルのみで実施可能なエクササイズに限定\n- 種目はコンパウンド（複合関節）からアイソレーション（単関節）の順に並べる\n- レスト時間は種目の強度と時間枠に応じて最適化\n  - 15分メニュー: レスト30-45秒（テンポ重視）\n  - 30分メニュー: レスト45-90秒（バランス重視）\n  - 60分メニュー: レスト90-180秒（筋力重視）\n- 各メニューの合計時間（エクササイズ時間＋レスト）が指定時間に収まるように調整\n\n## ユーザーの直近履歴\n"@
}

/// The menu-generation template, after the embedded history summary.
pub open spec fn menus_tail() -> Seq<char> {
    "\n\n## 出力形式\n以下のJSON形式「のみ」で回答してください：\n[\n  {\n    \"bodyPart\": \"push\",\n    \"durationMinutes\": 15,\n    \"exercises\": [\n      {\n        \"exerciseName\": \"種目名（日本語）\",\n        \"sets\": 3,\n        \"reps\": 12,\n        \"recommendedWeight\": 10.0,\n        \"restSeconds\": 30,\n        \"notes\": \"フォームのポイント\"\n      }\n    ],\n    \"totalRestSeconds\": 180,\n    \"generatedAt\": \"2026-02-17T21:00:00Z\"\n  }\n]\n\n合計9パターン（push×3時間, pull×3時間, legs×3時間）を配列で返してください。"@
}

/// The history summary used when the user has no history at all: the
/// model is asked for beginner menus instead.
pub open spec fn menus_no_history() -> Seq<char> {
    "トレーニング履歴なし（初心者向けメニューを作成してください）"@
}

/// Builds the recommendation prompt around a serialized history.
pub fn build_recommend_prompt(history_json: &str) -> (r: String)
    ensures
        r@ == recommend_head() + history_json@ + recommend_tail(),
{
    concat3(
        "あなたはパーソナルトレーニングコーチです。\n以下のトレーニング履歴を分析し、次回のトレーニングにおける推奨重量と回数を提案してください。\n\n## RPEの意味\n- easy: 余裕があった（重量を上げることを推奨）\n- just: ちょうど良い（現状維持または微増を推奨）\n- limit: 限界だった（重量維持または回数調整を推奨）\n\n## トレーニング履歴（直近7日間）\n",
        history_json,
        "\n\n## 出力形式\n以下のJSON形式「のみ」で回答してください。説明文は不要です：\n{\n  \"recommendations\": [\n    {\n      \"exercise_id\": \"エクササイズID\",\n      \"recommended_weight\": 推奨重量（数値）,\n      \"recommended_reps\": 推奨回数（整数）,\n      \"comment\": \"短い理由（日本語）\"\n    }\n  ],\n  \"general_advice\": \"全体的なアドバイス（日本語）\"\n}",
    )
}

/// Builds the growth-analysis prompt around a serialized history.
pub fn build_analysis_prompt(history_json: &str) -> (r: String)
    ensures
        r@ == analysis_head() + history_json@ + analysis_tail(),
{
    concat3(
        "あなたは専門的なフィットネスアナライザーです。\n以下の全期間のトレーニング履歴を分析し、ユーザーの成長傾向に関する長期的なインサイトを提供してください。\n\n## 分析のポイント\n1. 重量やボリュームの伸び（プログレッシブ・オーバーロードが達成されているか）\n2. 成長が止まっている種目（プラトー）の特定\n3. 種目間のバランスや得意・不得意の分析\n\n## トレーニング全履歴\n",
        history_json,
        "\n\n## 出力形式\n以下のJSON形式「のみ」で回答してください。説明文は不要です：\n{\n  \"insights\": [\"具体的な分析結果1\", \"具体的な分析結果2\"],\n  \"plateau_warnings\": [\"停滞が懸念される種目と理由\"],\n  \"encouragement\": \"ユーザーを鼓舞するメッセージ\"\n}",
    )
}

/// Builds the menu-generation prompt around a history summary.
pub fn build_menus_prompt(history_summary: &str) -> (r: String)
    ensures
        r@ == menus_head() + history_summary@ + menus_tail(),
{
    concat3(
        "あなたはダンベルトレーニング専門のパーソナルトレーナーです。\n以下のトレーニング履歴を元に、3つの部位（push/pull/legs）× 3つの時間（15分/30分/60分）= 合計9パターンのトレーニングメニューを生成してください。\n\n## 重要なルール\n- ダンベルのみで実施可能なエクササイズに限定\n- 種目はコンパウンド（複合関節）からアイソレーション（単関節）の順に並べる\n- レスト時間は種目の強度と時間枠に応じて最適化\n  - 15分メニュー: レスト30-45秒（テンポ重視）\n  - 30分メニュー: レスト45-90秒（バランス重視）\n  - 60分メニュー: レスト90-180秒（筋力重視）\n- 各メニューの合計時間（エクササイズ時間＋レスト）が指定時間に収まるように調整\n\n## ユーザーの直近履歴\n",
        history_summary,
        "\n\n## 出力形式\n以下のJSON形式「のみ」で回答してください：\n[\n  {\n    \"bodyPart\": \"push\",\n    \"durationMinutes\": 15,\n    \"exercises\": [\n      {\n        \"exerciseName\": \"種目名（日本語）\",\n        \"sets\": 3,\n        \"reps\": 12,\n        \"recommendedWeight\": 10.0,\n        \"restSeconds\": 30,\n        \"notes\": \"フォームのポイント\"\n      }\n    ],\n    \"totalRestSeconds\": 180,\n    \"generatedAt\": \"2026-02-17T21:00:00Z\"\n  }\n]\n\n合計9パターン（push×3時間, pull×3時間, legs×3時間）を配列で返してください。",
    )
}

/// The no-history summary line, as a string.
pub fn no_history_summary() -> (r: String)
    ensures
        r@ == menus_no_history(),
{
    String::from_str("トレーニング履歴なし（初心者向けメニューを作成してください）")
}

} // verus!
