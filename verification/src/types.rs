//! The domain data model: logged training sets, generated menus, and the
//! request/response shapes of the coaching endpoints.
//!
//! Weights are decimals (`crate::json::Decimal`), so every value a record
//! can hold is exactly representable and exactly encodable.

use vstd::prelude::*;
use crate::json::{DecV, Decimal, check_wf_dec, wf_dec};
use crate::text::is_clean_text;
use crate::keys::{user_pk, user_pk_of, workout_sk, workout_sk_of};
use crate::text::clean_str;

verus! {

/// Self-reported perceived effort of one set.
#[derive(Debug, Clone, Copy, PartialEq, Eq, Structural)]
pub enum RpeLevel {
    Easy,
    Just,
    Limit,
}

/// One completed training set. Immutable once written.
#[derive(Debug, Clone, PartialEq, Eq)]
pub struct WorkoutSet {
    pub user_id: String,
    pub timestamp: String,
    pub exercise_id: String,
    pub weight: Decimal,
    pub reps: u32,
    pub rpe: RpeLevel,
}

/// The mathematical shape of a `WorkoutSet`.
#[verifier::ext_equal]
pub struct WorkoutSetV {
    pub user_id: Seq<char>,
    pub timestamp: Seq<char>,
    pub exercise_id: Seq<char>,
    pub weight: DecV,
    pub reps: u32,
    pub rpe: RpeLevel,
}

impl View for WorkoutSet {
    type V = WorkoutSetV;

    open spec fn view(&self) -> WorkoutSetV {
        WorkoutSetV {
            user_id: self.user_id@,
            timestamp: self.timestamp@,
            exercise_id: self.exercise_id@,
            weight: self.weight@,
            reps: self.reps,
            rpe: self.rpe,
        }
    }
}

/// Strings clean, weight digits valid.
pub open spec fn wf_workout(v: WorkoutSetV) -> bool {
    clean_str(v.user_id) && clean_str(v.timestamp) && clean_str(v.exercise_id) && wf_dec(v.weight)
}

impl WorkoutSet {
    /// Storage partition key: `USER#<user_id>`.
    pub fn pk(&self) -> (r: String)
        ensures
            r@ == user_pk(self.user_id@),
    {
        user_pk_of(self.user_id.as_str())
    }

    /// Storage sort key: `WORKOUT#<timestamp>`.
    pub fn sk(&self) -> (r: String)
        ensures
            r@ == workout_sk(self.timestamp@),
    {
        workout_sk_of(self.timestamp.as_str())
    }
}

/// One exercise inside a generated menu.
#[derive(Debug, Clone, PartialEq, Eq)]
pub struct MenuExercise {
    pub exercise_name: String,
    pub sets: u32,
    pub reps: u32,
    pub recommended_weight: Decimal,
    pub rest_seconds: u32,
    pub notes: String,
}

/// The mathematical shape of a `MenuExercise`.
#[verifier::ext_equal]
pub struct MenuExerciseV {
    pub exercise_name: Seq<char>,
    pub sets: u32,
    pub reps: u32,
    pub recommended_weight: DecV,
    pub rest_seconds: u32,
    pub notes: Seq<char>,
}

impl View for MenuExercise {
    type V = MenuExerciseV;

    open spec fn view(&self) -> MenuExerciseV {
        MenuExerciseV {
            exercise_name: self.exercise_name@,
            sets: self.sets,
            reps: self.reps,
            recommended_weight: self.recommended_weight@,
            rest_seconds: self.rest_seconds,
            notes: self.notes@,
        }
    }
}

pub open spec fn wf_menu_exercise(v: MenuExerciseV) -> bool {
    clean_str(v.exercise_name) && wf_dec(v.recommended_weight) && clean_str(v.notes)
}

/// A generated menu for one body region and one target session duration.
/// At most one current menu is kept per `(user, body part, duration)`.
#[derive(Debug, Clone, PartialEq, Eq)]
pub struct TimedMenu {
    pub body_part: String,
    pub duration_minutes: u32,
    pub exercises: Vec<MenuExercise>,
    pub total_rest_seconds: u32,
    pub generated_at: String,
}

/// The mathematical shape of a `TimedMenu`.
#[verifier::ext_equal]
pub struct TimedMenuV {
    pub body_part: Seq<char>,
    pub duration_minutes: u32,
    pub exercises: Seq<MenuExerciseV>,
    pub total_rest_seconds: u32,
    pub generated_at: Seq<char>,
}

impl View for TimedMenu {
    type V = TimedMenuV;

    open spec fn view(&self) -> TimedMenuV {
        TimedMenuV {
            body_part: self.body_part@,
            duration_minutes: self.duration_minutes,
            exercises: Seq::new(self.exercises@.len(), |i: int| self.exercises@[i]@),
            total_rest_seconds: self.total_rest_seconds,
            generated_at: self.generated_at@,
        }
    }
}

pub open spec fn wf_timed_menu(v: TimedMenuV) -> bool {
    clean_str(v.body_part) && clean_str(v.generated_at) && forall|i: int|
        0 <= i < v.exercises.len() ==> wf_menu_exercise(#[trigger] v.exercises[i])
}

/// A request that names the user whose history is to be analysed.
#[derive(Debug, Clone, PartialEq, Eq)]
pub struct AIRecommendRequest {
    pub user_id: String,
}

/// One per-exercise suggestion in a recommendation reply.
#[derive(Debug, Clone, PartialEq, Eq)]
pub struct ExerciseRecommendation {
    pub exercise_id: String,
    pub recommended_weight: Decimal,
    pub recommended_reps: u32,
    pub comment: String,
}

/// The mathematical shape of an `ExerciseRecommendation`.
#[verifier::ext_equal]
pub struct ExerciseRecommendationV {
    pub exercise_id: Seq<char>,
    pub recommended_weight: DecV,
    pub recommended_reps: u32,
    pub comment: Seq<char>,
}

impl View for ExerciseRecommendation {
    type V = ExerciseRecommendationV;

    open spec fn view(&self) -> ExerciseRecommendationV {
        ExerciseRecommendationV {
            exercise_id: self.exercise_id@,
            recommended_weight: self.recommended_weight@,
            recommended_reps: self.recommended_reps,
            comment: self.comment@,
        }
    }
}

pub open spec fn wf_exercise_recommendation(v: ExerciseRecommendationV) -> bool {
    clean_str(v.exercise_id) && wf_dec(v.recommended_weight) && clean_str(v.comment)
}

/// Per-exercise suggestions plus one overall advice line.
#[derive(Debug, Clone, PartialEq, Eq)]
pub struct AIRecommendResponse {
    pub recommendations: Vec<ExerciseRecommendation>,
    pub general_advice: String,
}

/// The mathematical shape of an `AIRecommendResponse`.
#[verifier::ext_equal]
pub struct AIRecommendResponseV {
    pub recommendations: Seq<ExerciseRecommendationV>,
    pub general_advice: Seq<char>,
}

impl View for AIRecommendResponse {
    type V = AIRecommendResponseV;

    open spec fn view(&self) -> AIRecommendResponseV {
        AIRecommendResponseV {
            recommendations: Seq::new(
                self.recommendations@.len(),
                |i: int| self.recommendations@[i]@,
            ),
            general_advice: self.general_advice@,
        }
    }
}

/// Long-term growth insights, plateau warnings and an encouragement line.
#[derive(Debug, Clone, PartialEq, Eq)]
pub struct AIAnalysisResponse {
    pub insights: Vec<String>,
    pub plateau_warnings: Vec<String>,
    pub encouragement: String,
}

/// The mathematical shape of an `AIAnalysisResponse`.
#[verifier::ext_equal]
pub struct AIAnalysisResponseV {
    pub insights: Seq<Seq<char>>,
    pub plateau_warnings: Seq<Seq<char>>,
    pub encouragement: Seq<char>,
}

impl View for AIAnalysisResponse {
    type V = AIAnalysisResponseV;

    open spec fn view(&self) -> AIAnalysisResponseV {
        AIAnalysisResponseV {
            insights: Seq::new(self.insights@.len(), |i: int| self.insights@[i]@),
            plateau_warnings: Seq::new(
                self.plateau_warnings@.len(),
                |i: int| self.plateau_warnings@[i]@,
            ),
            encouragement: self.encouragement@,
        }
    }
}

/// A request to regenerate the user's menus.
#[derive(Debug, Clone, PartialEq, Eq)]
pub struct GenerateMenusRequest {
    pub user_id: String,
}

/// The generated menus together with how many were produced.
#[derive(Debug, Clone, PartialEq, Eq)]
pub struct GenerateMenusResponse {
    pub menus: Vec<TimedMenu>,
    pub generated_count: usize,
}

/// A menu lookup bound to a target session duration.
#[derive(Debug, Clone, PartialEq, Eq)]
pub struct MenuByDurationRequest {
    pub user_id: String,
    pub duration_minutes: u32,
}

/// Which model the service is configured to consult.
#[derive(Debug, Clone, PartialEq, Eq)]
pub struct AIInfoResponse {
    pub model_name: String,
    pub provider: String,
    pub model_id: String,
}

/// A catalogue exercise.
#[derive(Debug, Clone, PartialEq, Eq)]
pub struct Exercise {
    pub id: String,
    pub name: String,
    pub notes: Option<String>,
}


/// Whether one training set is well formed, executably.
pub fn check_wf_workout(w: &WorkoutSet) -> (r: bool)
    ensures
        r == wf_workout(w@),
{
    is_clean_text(w.user_id.as_str()) && is_clean_text(w.timestamp.as_str()) && is_clean_text(
        w.exercise_id.as_str(),
    ) && check_wf_dec(&w.weight)
}

/// Whether every training set of a history is well formed, executably.
pub fn check_wf_workouts(ws: &Vec<WorkoutSet>) -> (r: bool)
    ensures
        r == (forall|i: int| 0 <= i < ws@.len() ==> wf_workout(#[trigger] ws@[i]@)),
{
    let n = ws.len();
    let mut i: usize = 0;
    while i < n
        invariant
            i <= n,
            n == ws@.len(),
            forall|k: int| 0 <= k < i ==> wf_workout(#[trigger] ws@[k]@),
        decreases n - i,
    {
        if !check_wf_workout(&ws[i]) {
            return false;
        }
        i += 1;
    }
    true
}

/// Whether one menu exercise is well formed, executably.
pub fn check_wf_menu_exercise(e: &MenuExercise) -> (r: bool)
    ensures
        r == wf_menu_exercise(e@),
{
    is_clean_text(e.exercise_name.as_str()) && check_wf_dec(&e.recommended_weight)
        && is_clean_text(e.notes.as_str())
}

/// Whether one menu is well formed, executably.
pub fn check_wf_menu(m: &TimedMenu) -> (r: bool)
    ensures
        r == wf_timed_menu(m@),
{
    if !(is_clean_text(m.body_part.as_str()) && is_clean_text(m.generated_at.as_str())) {
        return false;
    }
    let n = m.exercises.len();
    let mut i: usize = 0;
    while i < n
        invariant
            i <= n,
            n == m.exercises@.len(),
            forall|k: int| 0 <= k < i ==> wf_menu_exercise(#[trigger] m.exercises@[k]@),
        decreases n - i,
    {
        if !check_wf_menu_exercise(&m.exercises[i]) {
            proof {
                assert(m@.exercises[i as int] == m.exercises@[i as int]@);
            }
            return false;
        }
        i += 1;
    }
    proof {
        assert forall|k: int| 0 <= k < m@.exercises.len() implies wf_menu_exercise(
            #[trigger] m@.exercises[k],
        ) by {
            assert(m@.exercises[k] == m.exercises@[k]@);
        }
    }
    true
}

} // verus!
