//! The three coaching pipelines, as decisions from plain values to plain
//! values.
//!
//! Each pipeline splits at its one suspension point, the provider call:
//! a first step turns the stored history into either a finished fallback
//! reply (recommendation and analysis short-circuit on an empty history;
//! menu generation deliberately does not) or the exact prompt to send,
//! and a second step validates the provider's raw text against the strict
//! reply schema. The caller owns the transport in between.

use vstd::prelude::*;
use vstd::string::*;
use crate::codec::{
    clone_u8s, encode_history_text, history_text, menus_of_text, recommend_of_text,
    analysis_of_text, decode_analysis_text, decode_menus_text, decode_recommend_text, menu_jsonv,
};
use crate::errors::AiError;
use crate::json::Decimal;
use crate::keys::{menu_sk, user_pk};
use crate::prompt::{
    analysis_head, analysis_tail, build_analysis_prompt, build_menus_prompt,
    build_recommend_prompt, menus_head, menus_no_history, menus_tail, no_history_summary,
    recommend_head, recommend_tail,
};
use crate::table::{ItemV, Table, spec_put};
use crate::types::{
    AIAnalysisResponse, AIInfoResponse, AIRecommendResponse, GenerateMenusResponse, TimedMenu,
    TimedMenuV, WorkoutSet, WorkoutSetV, wf_workout,
};

verus! {

/// The first step of the recommendation pipeline: either a finished
/// fallback reply, or the prompt to send to the provider.
#[derive(Debug)]
pub enum RecommendStep {
    Done(AIRecommendResponse),
    Prompt(String),
}

/// The first step of the growth-analysis pipeline.
#[derive(Debug)]
pub enum AnalysisStep {
    Done(AIAnalysisResponse),
    Prompt(String),
}

/// Prepares the recommendation request for one user's recent history.
///
/// An empty history never reaches the provider: it yields the fixed
/// advisory reply with no per-exercise recommendations. A non-empty
/// history yields the exact recommendation prompt with the serialized
/// history embedded.
pub fn get_training_recommendation(history: &Vec<WorkoutSet>) -> (r: RecommendStep)
    requires
        forall|i: int| 0 <= i < history@.len() ==> wf_workout(#[trigger] history@[i]@),
    ensures
        history@.len() == 0 ==> (r matches RecommendStep::Done(resp)
            && resp.recommendations@.len() == 0 && resp.general_advice@
            == "トレーニング履歴がありません。まずトレーニングを記録してください。"@),
        history@.len() > 0 ==> (r matches RecommendStep::Prompt(p) && p@ == recommend_head()
            + history_text(Seq::new(history@.len(), |i: int| history@[i]@)) + recommend_tail()),
{
    if history.len() == 0 {
        RecommendStep::Done(
            AIRecommendResponse {
                recommendations: Vec::new(),
                general_advice: String::from_str(
                    "トレーニング履歴がありません。まずトレーニングを記録してください。",
                ),
            },
        )
    } else {
        let hist = encode_history_text(history);
        RecommendStep::Prompt(build_recommend_prompt(hist.as_str()))
    }
}

/// Validates a provider reply against the recommendation schema.
///
/// Text that is not the expected JSON document yields a `ParseError`
/// carrying that text verbatim.
pub fn parse_recommendation_reply(text: &str) -> (r: Result<AIRecommendResponse, AiError>)
    ensures
        match recommend_of_text(text@) {
            Some(v) => (r matches Ok(x) && x@ == v),
            None => (r matches Err(e) && e matches AiError::ParseError(_, raw) && raw@ == text@),
        },
{
    match decode_recommend_text(text) {
        Some(x) => Ok(x),
        None => Err(
            AiError::ParseError(
                String::from_str("the reply is not a recommendation document"),
                String::from_str(text),
            ),
        ),
    }
}

/// Prepares the growth-analysis request for one user's full history.
///
/// An empty history never reaches the provider: it yields exactly one
/// fixed insight, no plateau warnings, and the fixed encouragement line.
pub fn get_growth_analysis(history: &Vec<WorkoutSet>) -> (r: AnalysisStep)
    requires
        forall|i: int| 0 <= i < history@.len() ==> wf_workout(#[trigger] history@[i]@),
    ensures
        history@.len() == 0 ==> (r matches AnalysisStep::Done(resp) && resp.insights@.len() == 1
            && resp.insights@[0]@
            == "まだ十分なデータがありません。トレーニングを継続しましょう！"@
            && resp.plateau_warnings@.len() == 0 && resp.encouragement@
            == "最初の一歩を踏み出しましょう。"@),
        history@.len() > 0 ==> (r matches AnalysisStep::Prompt(p) && p@ == analysis_head()
            + history_text(Seq::new(history@.len(), |i: int| history@[i]@)) + analysis_tail()),
{
    if history.len() == 0 {
        let mut insights: Vec<String> = Vec::new();
        insights.push(
            String::from_str(
                "まだ十分なデータがありません。トレーニングを継続しましょう！",
            ),
        );
        AnalysisStep::Done(
            AIAnalysisResponse {
                insights,
                plateau_warnings: Vec::new(),
                encouragement: String::from_str("最初の一歩を踏み出しましょう。"),
            },
        )
    } else {
        let hist = encode_history_text(history);
        AnalysisStep::Prompt(build_analysis_prompt(hist.as_str()))
    }
}

/// Validates a provider reply against the growth-analysis schema.
pub fn parse_analysis_reply(text: &str) -> (r: Result<AIAnalysisResponse, AiError>)
    ensures
        match analysis_of_text(text@) {
            Some(v) => (r matches Ok(x) && x@ == v),
            None => (r matches Err(e) && e matches AiError::ParseError(_, raw) && raw@ == text@),
        },
{
    match decode_analysis_text(text) {
        Some(x) => Ok(x),
        None => Err(
            AiError::ParseError(
                String::from_str("the reply is not a growth-analysis document"),
                String::from_str(text),
            ),
        ),
    }
}

/// The slice of history embedded into the menu prompt: the most recent
/// sets first, at most twenty of them.
pub open spec fn recent_window(ws: Seq<WorkoutSetV>) -> Seq<WorkoutSetV> {
    let r = ws.reverse();
    if r.len() <= 20 {
        r
    } else {
        r.take(20)
    }
}

/// Structural copy of one training set.
pub fn clone_workout(w: &WorkoutSet) -> (r: WorkoutSet)
    ensures
        r@ == w@,
{
    let r = WorkoutSet {
        user_id: w.user_id.clone(),
        timestamp: w.timestamp.clone(),
        exercise_id: w.exercise_id.clone(),
        weight: Decimal {
            neg: w.weight.neg,
            int_part: w.weight.int_part,
            frac: clone_u8s(&w.weight.frac),
        },
        reps: w.reps,
        rpe: w.rpe,
    };
    proof {
        assert(r@ =~= w@);
    }
    r
}

/// Prepares the menu-generation prompt. There is no empty-history
/// fallback here: with no history, the prompt asks for beginner menus
/// instead — the model is always consulted.
pub fn generate_timed_menus(history: &Vec<WorkoutSet>) -> (p: String)
    requires
        forall|i: int| 0 <= i < history@.len() ==> wf_workout(#[trigger] history@[i]@),
    ensures
        history@.len() == 0 ==> p@ == menus_head() + menus_no_history() + menus_tail(),
        history@.len() > 0 ==> p@ == menus_head() + history_text(
            recent_window(Seq::new(history@.len(), |i: int| history@[i]@)),
        ) + menus_tail(),
{
    if history.len() == 0 {
        let summary = no_history_summary();
        build_menus_prompt(summary.as_str())
    } else {
        let ghost hv = Seq::new(history@.len(), |i: int| history@[i]@);
        let n = history.len();
        let mut recent: Vec<WorkoutSet> = Vec::new();
        let mut taken: usize = 0;
        while taken < 20 && taken < n
            invariant
                n == history@.len(),
                hv == Seq::new(history@.len(), |i: int| history@[i]@),
                taken <= n,
                taken <= 20,
                recent@.len() == taken,
                forall|k: int|
                    0 <= k < taken ==> (#[trigger] recent@[k])@ == hv[n - 1 - k],
                forall|i: int| 0 <= i < history@.len() ==> wf_workout(#[trigger] history@[i]@),
            decreases n - taken,
        {
            let w = clone_workout(&history[n - 1 - taken]);
            recent.push(w);
            taken += 1;
        }
        proof {
            let rv = Seq::new(recent@.len(), |i: int| recent@[i]@);
            let want = recent_window(hv);
            assert(hv.reverse().len() == n);
            assert forall|k: int| 0 <= k < rv.len() implies rv[k] == want[k] by {
                assert(recent@[k]@ == hv[n - 1 - k]);
                assert(hv.reverse()[k] == hv[n - 1 - k]);
            }
            assert(rv =~= want);
            assert forall|k: int| 0 <= k < rv.len() implies wf_workout(rv[k]) by {
                assert(recent@[k]@ == hv[n - 1 - k]);
                assert(hv[n - 1 - k] == history@[n - 1 - k]@);
            }
        }
        let hist = encode_history_text(&recent);
        build_menus_prompt(hist.as_str())
    }
}

/// Validates a provider reply against the menu-list schema.
pub fn parse_menus_reply(text: &str) -> (r: Result<Vec<TimedMenu>, AiError>)
    ensures
        match menus_of_text(text@) {
            Some(v) => (r matches Ok(ms) && Seq::new(ms@.len(), |i: int| ms@[i]@) == v),
            None => (r matches Err(e) && e matches AiError::ParseError(_, raw) && raw@ == text@),
        },
{
    match decode_menus_text(text) {
        Some(ms) => Ok(ms),
        None => Err(
            AiError::ParseError(
                String::from_str("the reply is not a menu list"),
                String::from_str(text),
            ),
        ),
    }
}

/// The table after the first `k` of the generated menus are written.
pub open spec fn put_menus(s: Seq<ItemV>, user: Seq<char>, ms: Seq<TimedMenuV>, k: int) -> Seq<
    ItemV,
>
    decreases k,
{
    if k <= 0 {
        s
    } else {
        spec_put(
            put_menus(s, user, ms, k - 1),
            ItemV {
                pk: user_pk(user),
                sk: menu_sk(ms[k - 1].body_part, Some(ms[k - 1].duration_minutes)),
                val: menu_jsonv(ms[k - 1]),
            },
        )
    }
}

/// Writes the generated menus one by one, stopping at the write the
/// backing store refused.
///
/// `failed_write` is the index at which the caller's store reported a
/// failure, as its sequential write loop observed it; the in-memory
/// table itself never fails. A failure partway through leaves the
/// earlier menus written — there is no rollback — and surfaces a
/// `StorageError` for the call as a whole.
pub fn persist_menus(
    table: &mut Table,
    user: &str,
    menus: &Vec<TimedMenu>,
    failed_write: Option<usize>,
) -> (r: Result<usize, AiError>)
    requires
        old(table).wf(),
    ensures
        final(table).wf(),
        (match failed_write {
            Some(f) => f < menus@.len(),
            None => false,
        }) ==> (final(table)@ == put_menus(
            old(table)@,
            user@,
            Seq::new(menus@.len(), |i: int| menus@[i]@),
            failed_write->0 as int,
        ) && (r matches Err(e) && e is StorageError)),
        !(match failed_write {
            Some(f) => f < menus@.len(),
            None => false,
        }) ==> (final(table)@ == put_menus(
            old(table)@,
            user@,
            Seq::new(menus@.len(), |i: int| menus@[i]@),
            menus@.len() as int,
        ) && (r matches Ok(c) && c == menus@.len())),
{
    let ghost s0 = old(table)@;
    let ghost mv = Seq::new(menus@.len(), |i: int| menus@[i]@);
    let n = menus.len();
    let mut i: usize = 0;
    while i < n
        invariant
            n == menus@.len(),
            i <= n,
            s0 == old(table)@,
            mv == Seq::new(menus@.len(), |k: int| menus@[k]@),
            table.wf(),
            table@ == put_menus(s0, user@, mv, i as int),
            match failed_write {
                Some(f) => i <= f,
                None => true,
            },
        decreases n - i,
    {
        match failed_write {
            Some(f) => {
                if i == f {
                    return Err(
                        AiError::StorageError(String::from_str("the store refused the write")),
                    );
                }
            },
            None => {},
        }
        table.put_menu(user, &menus[i]);
        proof {
            assert(mv[i as int] == menus@[i as int]@);
            assert(table@ == put_menus(s0, user@, mv, i + 1));
        }
        i += 1;
    }
    Ok(n)
}

/// Packs freshly generated menus into the reply shape; the count always
/// matches the number of menus carried.
pub fn build_generate_menus_response(menus: Vec<TimedMenu>) -> (r: GenerateMenusResponse)
    ensures
        r.generated_count == r.menus@.len(),
        Seq::new(r.menus@.len(), |i: int| r.menus@[i]@) == Seq::new(
            menus@.len(),
            |i: int| menus@[i]@,
        ),
{
    let count = menus.len();
    let r = GenerateMenusResponse { menus, generated_count: count };
    proof {
        assert(Seq::new(r.menus@.len(), |i: int| r.menus@[i]@) =~= Seq::new(
            menus@.len(),
            |i: int| menus@[i]@,
        ));
    }
    r
}

/// Which model the service consults, for the administration view.
pub fn get_ai_info(model_id: &str) -> (r: AIInfoResponse)
    ensures
        r.model_name@ == "Gemini 3 Flash Preview"@,
        r.provider@ == "Google AI Studio"@,
        r.model_id@ == model_id@,
{
    AIInfoResponse {
        model_name: String::from_str("Gemini 3 Flash Preview"),
        provider: String::from_str("Google AI Studio"),
        model_id: String::from_str(model_id),
    }
}

} // verus!
