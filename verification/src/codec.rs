//! Mapping the domain records to and from JSON documents, field for field,
//! with the exact key names of the wire contract.

use vstd::prelude::*;
use vstd::string::*;
use crate::json::{
    DecV, Decimal, Json, JsonV, Member, MemberV, jsonv_list, jsonv_of, lemma_jsonv_list_index,
    lemma_memberv_list_index, lemma_wf_arr, lemma_wf_obj, memberv_list, memberv_of,
    wf_jsonv,
};
use crate::text::clean_str;
use crate::types::{
    AIAnalysisResponse, AIAnalysisResponseV, AIRecommendResponse, AIRecommendResponseV,
    ExerciseRecommendation, ExerciseRecommendationV, MenuExercise, MenuExerciseV, RpeLevel,
    TimedMenu, TimedMenuV, WorkoutSet, WorkoutSetV, wf_menu_exercise,
    wf_timed_menu, wf_workout,
};

verus! {

/// The wire name of a perceived-effort level.
pub open spec fn rpe_str(r: RpeLevel) -> Seq<char> {
    match r {
        RpeLevel::Easy => "easy"@,
        RpeLevel::Just => "just"@,
        RpeLevel::Limit => "limit"@,
    }
}

/// A whole number as a JSON number.
pub open spec fn u32_jsonv(n: u32) -> JsonV {
    JsonV::Num(DecV { neg: false, int_part: n as u64, frac: Seq::<u8>::empty() })
}

/// First value under `key`, if the object has one.
pub open spec fn obj_get(ms: Seq<MemberV>, key: Seq<char>) -> Option<JsonV>
    decreases ms.len(),
{
    if ms.len() == 0 {
        None
    } else if ms[0].key == key {
        Some(ms[0].val)
    } else {
        obj_get(ms.drop_first(), key)
    }
}

/// Values found in a well-formed object are well formed.
pub proof fn lemma_obj_get_wf(ms: Seq<MemberV>, key: Seq<char>)
    requires
        wf_jsonv(JsonV::Obj(ms)),
    ensures
        obj_get(ms, key) matches Some(v) ==> wf_jsonv(v),
    decreases ms.len(),
{
    lemma_wf_obj(ms);
    if ms.len() > 0 && ms[0].key != key {
        assert(wf_jsonv(JsonV::Obj(ms.drop_first()))) by {
            lemma_wf_obj(ms.drop_first());
            assert(forall|i: int|
                0 <= i < ms.drop_first().len() ==> #[trigger] ms.drop_first()[i] == ms[i + 1]);
        }
        lemma_obj_get_wf(ms.drop_first(), key);
    }
}

/// Executable first-match lookup.
pub fn obj_get_x<'a>(ms: &'a Vec<Member>, key: &str) -> (r: Option<&'a Json>)
    ensures
        match r {
            Some(v) => obj_get(memberv_list(*ms, 0), key@) == Some(v@),
            None => obj_get(memberv_list(*ms, 0), key@) is None,
        },
{
    let n = ms.len();
    let mut k: usize = 0;
    proof {
        lemma_memberv_list_index(*ms, 0);
    }
    while k < n
        invariant
            n == ms@.len(),
            k <= n,
            obj_get(memberv_list(*ms, 0), key@) == obj_get(memberv_list(*ms, k as int), key@),
        decreases n - k,
    {
        proof {
            lemma_memberv_list_index(*ms, k as int);
        }
        if crate::text::str_eq(ms[k].key.as_str(), key) {
            proof {
                assert(memberv_list(*ms, k as int)[0] == memberv_of(ms@[k as int]));
            }
            return Some(&ms[k].val);
        }
        proof {
            let cur = memberv_list(*ms, k as int);
            assert(cur[0] == memberv_of(ms@[k as int]));
            assert(cur.drop_first() =~= memberv_list(*ms, k + 1));
        }
        k += 1;
    }
    proof {
        lemma_memberv_list_index(*ms, k as int);
        assert(memberv_list(*ms, k as int).len() == 0);
    }
    None
}

/// A JSON value as an unsigned 32-bit whole number.
pub open spec fn as_u32(v: JsonV) -> Option<u32> {
    match v {
        JsonV::Num(d) => if !d.neg && d.frac.len() == 0 && d.int_part <= u32::MAX as u64 {
            Some(d.int_part as u32)
        } else {
            None
        },
        _ => None,
    }
}

pub fn as_u32_x(v: &Json) -> (r: Option<u32>)
    ensures
        r == as_u32(v@),
{
    match v {
        Json::Num(d) => {
            if !d.neg && d.frac.len() == 0 && d.int_part <= 0xffff_ffffu64 {
                proof {
                    assert(d@.frac.len() == 0);
                }
                Some(d.int_part as u32)
            } else {
                proof {
                    assert(d.frac@.len() == 0 ==> d@.frac.len() == 0);
                }
                None
            }
        },
        _ => None,
    }
}

/// A JSON value as a string.
pub open spec fn as_str(v: JsonV) -> Option<Seq<char>> {
    match v {
        JsonV::Str(s) => Some(s),
        _ => None,
    }
}

pub fn as_str_x(v: &Json) -> (r: Option<String>)
    ensures
        match r {
            Some(s) => as_str(v@) == Some(s@),
            None => as_str(v@) is None,
        },
{
    match v {
        Json::Str(s) => Some(s.clone()),
        _ => None,
    }
}

/// A JSON value as a decimal number.
pub open spec fn as_dec(v: JsonV) -> Option<DecV> {
    match v {
        JsonV::Num(d) => Some(d),
        _ => None,
    }
}

pub fn as_dec_x(v: &Json) -> (r: Option<Decimal>)
    ensures
        match r {
            Some(d) => as_dec(v@) == Some(d@),
            None => as_dec(v@) is None,
        },
{
    match v {
        Json::Num(d) => {
            let copy = Decimal { neg: d.neg, int_part: d.int_part, frac: clone_u8s(&d.frac) };
            Some(copy)
        },
        _ => None,
    }
}

/// Plain copy of a byte vector.
pub(crate) fn clone_u8s(v: &Vec<u8>) -> (r: Vec<u8>)
    ensures
        r@ == v@,
{
    let mut r: Vec<u8> = Vec::new();
    let n = v.len();
    let mut i: usize = 0;
    while i < n
        invariant
            n == v@.len(),
            i <= n,
            r@ == v@.take(i as int),
        decreases n - i,
    {
        r.push(v[i]);
        proof {
            assert(r@ =~= v@.take(i + 1));
        }
        i += 1;
    }
    proof {
        assert(v@.take(n as int) =~= v@);
    }
    r
}

/// The wire form of one training set: its fields under their snake-case
/// names, the effort level as its lowercase name.
pub open spec fn workout_jsonv(w: WorkoutSetV) -> JsonV {
    JsonV::Obj(
        seq![
            MemberV { key: "user_id"@, val: JsonV::Str(w.user_id) },
            MemberV { key: "timestamp"@, val: JsonV::Str(w.timestamp) },
            MemberV { key: "exercise_id"@, val: JsonV::Str(w.exercise_id) },
            MemberV { key: "weight"@, val: JsonV::Num(w.weight) },
            MemberV { key: "reps"@, val: u32_jsonv(w.reps) },
            MemberV { key: "rpe"@, val: JsonV::Str(rpe_str(w.rpe)) },
        ],
    )
}

/// Executable name of an effort level.
pub fn rpe_str_x(r: RpeLevel) -> (s: String)
    ensures
        s@ == rpe_str(r),
{
    match r {
        RpeLevel::Easy => String::from_str("easy"),
        RpeLevel::Just => String::from_str("just"),
        RpeLevel::Limit => String::from_str("limit"),
    }
}

/// Executable encoding of one training set.
pub fn workout_to_json(w: &WorkoutSet) -> (r: Json)
    ensures
        r@ == workout_jsonv(w@),
{
    let mut ms: Vec<Member> = Vec::new();
    ms.push(Member { key: String::from_str("user_id"), val: Json::Str(w.user_id.clone()) });
    ms.push(Member { key: String::from_str("timestamp"), val: Json::Str(w.timestamp.clone()) });
    ms.push(
        Member { key: String::from_str("exercise_id"), val: Json::Str(w.exercise_id.clone()) },
    );
    ms.push(
        Member {
            key: String::from_str("weight"),
            val: Json::Num(
                Decimal {
                    neg: w.weight.neg,
                    int_part: w.weight.int_part,
                    frac: clone_u8s(&w.weight.frac),
                },
            ),
        },
    );
    ms.push(Member { key: String::from_str("reps"), val: Json::Num(Decimal::whole(w.reps as u64)) });
    ms.push(Member { key: String::from_str("rpe"), val: Json::Str(rpe_str_x(w.rpe)) });
    let r = Json::Obj(ms);
    proof {
        lemma_memberv_list_index(ms, 0);
        let got = memberv_list(ms, 0);
        let want = workout_jsonv(w@)->Obj_0;
        assert(ms@.len() == 6);
        assert(memberv_of(ms@[0]).key == "user_id"@);
        assert(memberv_of(ms@[0]).val == JsonV::Str(w@.user_id));
        assert(got[0] == want[0]);
        assert(memberv_of(ms@[1]).key == "timestamp"@);
        assert(memberv_of(ms@[1]).val == JsonV::Str(w@.timestamp));
        assert(got[1] == want[1]);
        assert(memberv_of(ms@[2]).key == "exercise_id"@);
        assert(memberv_of(ms@[2]).val == JsonV::Str(w@.exercise_id));
        assert(got[2] == want[2]);
        assert(memberv_of(ms@[3]).key == "weight"@);
        assert(ms@[3].val->Num_0@ =~= w@.weight);
        assert(memberv_of(ms@[3]).val == JsonV::Num(w@.weight));
        assert(got[3] == want[3]);
        assert(memberv_of(ms@[4]).key == "reps"@);
        assert(ms@[4].val->Num_0@ =~= (DecV { neg: false, int_part: w@.reps as u64, frac: Seq::<u8>::empty() }));
        assert(memberv_of(ms@[4]).val == u32_jsonv(w@.reps));
        assert(got[4] == want[4]);
        assert(memberv_of(ms@[5]).key == "rpe"@);
        assert(memberv_of(ms@[5]).val == JsonV::Str(rpe_str(w@.rpe)));
        assert(got[5] == want[5]);
        assert(got =~= want);
    }
    r
}


/// An optional JSON value as a string.
pub open spec fn opt_str(o: Option<JsonV>) -> Option<Seq<char>> {
    match o {
        Some(v) => as_str(v),
        None => None,
    }
}

/// An optional JSON value as a decimal.
pub open spec fn opt_dec(o: Option<JsonV>) -> Option<DecV> {
    match o {
        Some(v) => as_dec(v),
        None => None,
    }
}

/// An optional JSON value as a 32-bit whole number.
pub open spec fn opt_u32(o: Option<JsonV>) -> Option<u32> {
    match o {
        Some(v) => as_u32(v),
        None => None,
    }
}

/// The effort level named by a string.
pub open spec fn rpe_of_str(s: Seq<char>) -> Option<RpeLevel> {
    if s == "easy"@ {
        Some(RpeLevel::Easy)
    } else if s == "just"@ {
        Some(RpeLevel::Just)
    } else if s == "limit"@ {
        Some(RpeLevel::Limit)
    } else {
        None
    }
}

/// Executable effort-level lookup.
pub fn rpe_of_str_x(s: &str) -> (r: Option<RpeLevel>)
    ensures
        r == rpe_of_str(s@),
{
    if crate::text::str_eq(s, "easy") {
        Some(RpeLevel::Easy)
    } else if crate::text::str_eq(s, "just") {
        Some(RpeLevel::Just)
    } else if crate::text::str_eq(s, "limit") {
        Some(RpeLevel::Limit)
    } else {
        None
    }
}

/// Reading one training set out of a JSON document.
pub open spec fn workout_of_jsonv(v: JsonV) -> Option<WorkoutSetV> {
    if !(v is Obj) {
        None
    } else {
        let ms = v->Obj_0;
        let f0 = opt_str(obj_get(ms, "user_id"@));
        let f1 = opt_str(obj_get(ms, "timestamp"@));
        let f2 = opt_str(obj_get(ms, "exercise_id"@));
        let f3 = opt_dec(obj_get(ms, "weight"@));
        let f4 = opt_u32(obj_get(ms, "reps"@));
        let f5 = match opt_str(obj_get(ms, "rpe"@)) {
            Some(s) => rpe_of_str(s),
            None => None,
        };
        if f0 is Some && f1 is Some && f2 is Some && f3 is Some && f4 is Some && f5 is Some {
            Some(
                WorkoutSetV {
                    user_id: f0->0,
                    timestamp: f1->0,
                    exercise_id: f2->0,
                    weight: f3->0,
                    reps: f4->0,
                    rpe: f5->0,
                },
            )
        } else {
            None
        }
    }
}

/// Executable decoding of one training set.
pub fn workout_from_json(v: &Json) -> (r: Option<WorkoutSet>)
    ensures
        match r {
            Some(w) => workout_of_jsonv(v@) == Some(w@),
            None => workout_of_jsonv(v@) is None,
        },
{
    match v {
        Json::Obj(ms) => {
            proof {
                assert(v@ == JsonV::Obj(memberv_list(*ms, 0)));
            }
            let f0 = match obj_get_x(ms, "user_id") {
                Some(x) => as_str_x(x),
                None => None,
            };
            let f1 = match obj_get_x(ms, "timestamp") {
                Some(x) => as_str_x(x),
                None => None,
            };
            let f2 = match obj_get_x(ms, "exercise_id") {
                Some(x) => as_str_x(x),
                None => None,
            };
            let f3 = match obj_get_x(ms, "weight") {
                Some(x) => as_dec_x(x),
                None => None,
            };
            let f4 = match obj_get_x(ms, "reps") {
                Some(x) => as_u32_x(x),
                None => None,
            };
            let f5 = match obj_get_x(ms, "rpe") {
                Some(x) => match as_str_x(x) {
                    Some(s) => rpe_of_str_x(s.as_str()),
                    None => None,
                },
                None => None,
            };
            match (f0, f1, f2, f3, f4, f5) {
                (Some(user_id), Some(timestamp), Some(exercise_id), Some(weight), Some(reps), Some(
                    rpe,
                )) => Some(WorkoutSet { user_id, timestamp, exercise_id, weight, reps, rpe }),
                _ => None,
            }
        },
        _ => None,
    }
}

/// Decoding inverts encoding, member for member.
pub proof fn lemma_workout_roundtrip(w: WorkoutSetV)
    ensures
        workout_of_jsonv(workout_jsonv(w)) == Some(w),
{
    reveal_strlit("user_id");
    reveal_strlit("timestamp");
    reveal_strlit("exercise_id");
    reveal_strlit("weight");
    reveal_strlit("reps");
    reveal_strlit("rpe");
    assert("user_id"@.len() == 7);
    assert("timestamp"@.len() == 9);
    assert("exercise_id"@.len() == 11);
    assert("weight"@.len() == 6);
    assert("reps"@.len() == 4);
    assert("rpe"@.len() == 3);
    let msv = workout_jsonv(w)->Obj_0;
    let d1 = msv.drop_first();
    let d2 = d1.drop_first();
    let d3 = d2.drop_first();
    let d4 = d3.drop_first();
    let d5 = d4.drop_first();
    assert(msv.len() == 6);
    assert(msv[0] == MemberV { key: "user_id"@, val: JsonV::Str(w.user_id) });
    assert(msv[1] == MemberV { key: "timestamp"@, val: JsonV::Str(w.timestamp) });
    assert(msv[2] == MemberV { key: "exercise_id"@, val: JsonV::Str(w.exercise_id) });
    assert(msv[3] == MemberV { key: "weight"@, val: JsonV::Num(w.weight) });
    assert(msv[4] == MemberV { key: "reps"@, val: u32_jsonv(w.reps) });
    assert(msv[5] == MemberV { key: "rpe"@, val: JsonV::Str(rpe_str(w.rpe)) });
    assert(d1.len() == 5 && d1[0] == msv[1] && d1[1] == msv[2] && d1[2] == msv[3] && d1[3]
        == msv[4] && d1[4] == msv[5]);
    assert(d2.len() == 4 && d2[0] == msv[2] && d2[1] == msv[3] && d2[2] == msv[4] && d2[3]
        == msv[5]);
    assert(d3.len() == 3 && d3[0] == msv[3] && d3[1] == msv[4] && d3[2] == msv[5]);
    assert(d4.len() == 2 && d4[0] == msv[4] && d4[1] == msv[5]);
    assert(d5.len() == 1 && d5[0] == msv[5]);
    assert(obj_get(msv, "user_id"@) == Some(JsonV::Str(w.user_id)));
    assert(obj_get(d1, "timestamp"@) == Some(JsonV::Str(w.timestamp)));
    assert(obj_get(msv, "timestamp"@) == Some(JsonV::Str(w.timestamp)));
    assert(obj_get(d2, "exercise_id"@) == Some(JsonV::Str(w.exercise_id)));
    assert(obj_get(d1, "exercise_id"@) == obj_get(d2, "exercise_id"@));
    assert(obj_get(msv, "exercise_id"@) == Some(JsonV::Str(w.exercise_id)));
    assert(obj_get(d3, "weight"@) == Some(JsonV::Num(w.weight)));
    assert(obj_get(d2, "weight"@) == obj_get(d3, "weight"@));
    assert(obj_get(d1, "weight"@) == obj_get(d2, "weight"@));
    assert(obj_get(msv, "weight"@) == Some(JsonV::Num(w.weight)));
    assert(obj_get(d4, "reps"@) == Some(u32_jsonv(w.reps)));
    assert(obj_get(d3, "reps"@) == obj_get(d4, "reps"@));
    assert(obj_get(d2, "reps"@) == obj_get(d3, "reps"@));
    assert(obj_get(d1, "reps"@) == obj_get(d2, "reps"@));
    assert(obj_get(msv, "reps"@) == Some(u32_jsonv(w.reps)));
    assert(obj_get(d5, "rpe"@) == Some(JsonV::Str(rpe_str(w.rpe))));
    assert(obj_get(d4, "rpe"@) == obj_get(d5, "rpe"@));
    assert(obj_get(d3, "rpe"@) == obj_get(d4, "rpe"@));
    assert(obj_get(d2, "rpe"@) == obj_get(d3, "rpe"@));
    assert(obj_get(d1, "rpe"@) == obj_get(d2, "rpe"@));
    assert(obj_get(msv, "rpe"@) == Some(JsonV::Str(rpe_str(w.rpe))));
    lemma_rpe_roundtrip(w.rpe);
    assert(workout_of_jsonv(workout_jsonv(w))->0 =~= w);
}

/// The effort names are three distinct strings.
pub proof fn lemma_rpe_roundtrip(r: RpeLevel)
    ensures
        rpe_of_str(rpe_str(r)) == Some(r),
{
    reveal_strlit("easy");
    reveal_strlit("just");
    reveal_strlit("limit");
    match r {
        RpeLevel::Easy => {},
        RpeLevel::Just => {
            assert("just"@[0] != "easy"@[0]);
        },
        RpeLevel::Limit => {
            assert("limit"@.len() != "easy"@.len());
            assert("limit"@.len() != "just"@.len());
        },
    }
}


/// The wire form of one menu exercise, camel-case keys.
pub open spec fn menuex_jsonv(e: MenuExerciseV) -> JsonV {
    JsonV::Obj(
        seq![
            MemberV { key: "exerciseName"@, val: JsonV::Str(e.exercise_name) },
            MemberV { key: "sets"@, val: u32_jsonv(e.sets) },
            MemberV { key: "reps"@, val: u32_jsonv(e.reps) },
            MemberV { key: "recommendedWeight"@, val: JsonV::Num(e.recommended_weight) },
            MemberV { key: "restSeconds"@, val: u32_jsonv(e.rest_seconds) },
            MemberV { key: "notes"@, val: JsonV::Str(e.notes) },
        ],
    )
}

/// Executable encoding of one menu exercise.
pub fn menuex_to_json(e: &MenuExercise) -> (r: Json)
    ensures
        r@ == menuex_jsonv(e@),
{
    let mut ms: Vec<Member> = Vec::new();
    ms.push(
        Member { key: String::from_str("exerciseName"), val: Json::Str(e.exercise_name.clone()) },
    );
    ms.push(Member { key: String::from_str("sets"), val: Json::Num(Decimal::whole(e.sets as u64)) });
    ms.push(Member { key: String::from_str("reps"), val: Json::Num(Decimal::whole(e.reps as u64)) });
    ms.push(
        Member {
            key: String::from_str("recommendedWeight"),
            val: Json::Num(
                Decimal {
                    neg: e.recommended_weight.neg,
                    int_part: e.recommended_weight.int_part,
                    frac: clone_u8s(&e.recommended_weight.frac),
                },
            ),
        },
    );
    ms.push(
        Member {
            key: String::from_str("restSeconds"),
            val: Json::Num(Decimal::whole(e.rest_seconds as u64)),
        },
    );
    ms.push(Member { key: String::from_str("notes"), val: Json::Str(e.notes.clone()) });
    let r = Json::Obj(ms);
    proof {
        lemma_memberv_list_index(ms, 0);
        let got = memberv_list(ms, 0);
        let want = menuex_jsonv(e@)->Obj_0;
        assert(ms@.len() == 6);
        assert(memberv_of(ms@[0]).key == "exerciseName"@);
        assert(memberv_of(ms@[0]).val == JsonV::Str(e@.exercise_name));
        assert(got[0] == want[0]);
        assert(memberv_of(ms@[1]).key == "sets"@);
        assert(ms@[1].val->Num_0@ =~= (DecV { neg: false, int_part: e@.sets as u64, frac: Seq::<u8>::empty() }));
        assert(memberv_of(ms@[1]).val == u32_jsonv(e@.sets));
        assert(got[1] == want[1]);
        assert(memberv_of(ms@[2]).key == "reps"@);
        assert(ms@[2].val->Num_0@ =~= (DecV { neg: false, int_part: e@.reps as u64, frac: Seq::<u8>::empty() }));
        assert(memberv_of(ms@[2]).val == u32_jsonv(e@.reps));
        assert(got[2] == want[2]);
        assert(memberv_of(ms@[3]).key == "recommendedWeight"@);
        assert(ms@[3].val->Num_0@ =~= e@.recommended_weight);
        assert(memberv_of(ms@[3]).val == JsonV::Num(e@.recommended_weight));
        assert(got[3] == want[3]);
        assert(memberv_of(ms@[4]).key == "restSeconds"@);
        assert(ms@[4].val->Num_0@ =~= (DecV { neg: false, int_part: e@.rest_seconds as u64, frac: Seq::<u8>::empty() }));
        assert(memberv_of(ms@[4]).val == u32_jsonv(e@.rest_seconds));
        assert(got[4] == want[4]);
        assert(memberv_of(ms@[5]).key == "notes"@);
        assert(memberv_of(ms@[5]).val == JsonV::Str(e@.notes));
        assert(got[5] == want[5]);
        assert(got =~= want);
    }
    r
}

/// Reading one menu exercise out of a JSON document.
pub open spec fn menuex_of_jsonv(v: JsonV) -> Option<MenuExerciseV> {
    if !(v is Obj) {
        None
    } else {
        let ms = v->Obj_0;
        let f0 = opt_str(obj_get(ms, "exerciseName"@));
        let f1 = opt_u32(obj_get(ms, "sets"@));
        let f2 = opt_u32(obj_get(ms, "reps"@));
        let f3 = opt_dec(obj_get(ms, "recommendedWeight"@));
        let f4 = opt_u32(obj_get(ms, "restSeconds"@));
        let f5 = opt_str(obj_get(ms, "notes"@));
        if f0 is Some && f1 is Some && f2 is Some && f3 is Some && f4 is Some && f5 is Some {
            Some(
                MenuExerciseV {
                    exercise_name: f0->0,
                    sets: f1->0,
                    reps: f2->0,
                    recommended_weight: f3->0,
                    rest_seconds: f4->0,
                    notes: f5->0,
                },
            )
        } else {
            None
        }
    }
}

/// Executable decoding of one menu exercise.
pub fn menuex_from_json(v: &Json) -> (r: Option<MenuExercise>)
    ensures
        match r {
            Some(e) => menuex_of_jsonv(v@) == Some(e@),
            None => menuex_of_jsonv(v@) is None,
        },
{
    match v {
        Json::Obj(ms) => {
            proof {
                assert(v@ == JsonV::Obj(memberv_list(*ms, 0)));
            }
            let f0 = match obj_get_x(ms, "exerciseName") {
                Some(x) => as_str_x(x),
                None => None,
            };
            let f1 = match obj_get_x(ms, "sets") {
                Some(x) => as_u32_x(x),
                None => None,
            };
            let f2 = match obj_get_x(ms, "reps") {
                Some(x) => as_u32_x(x),
                None => None,
            };
            let f3 = match obj_get_x(ms, "recommendedWeight") {
                Some(x) => as_dec_x(x),
                None => None,
            };
            let f4 = match obj_get_x(ms, "restSeconds") {
                Some(x) => as_u32_x(x),
                None => None,
            };
            let f5 = match obj_get_x(ms, "notes") {
                Some(x) => as_str_x(x),
                None => None,
            };
            match (f0, f1, f2, f3, f4, f5) {
                (Some(exercise_name), Some(sets), Some(reps), Some(recommended_weight), Some(
                    rest_seconds,
                ), Some(notes)) => Some(
                    MenuExercise {
                        exercise_name,
                        sets,
                        reps,
                        recommended_weight,
                        rest_seconds,
                        notes,
                    },
                ),
                _ => None,
            }
        },
        _ => None,
    }
}

/// Decoding a menu exercise inverts encoding it.
pub proof fn lemma_menuex_roundtrip(e: MenuExerciseV)
    ensures
        menuex_of_jsonv(menuex_jsonv(e)) == Some(e),
{
    reveal_strlit("exerciseName");
    reveal_strlit("sets");
    reveal_strlit("reps");
    reveal_strlit("recommendedWeight");
    reveal_strlit("restSeconds");
    reveal_strlit("notes");
    assert("exerciseName"@.len() == 12);
    assert("sets"@.len() == 4);
    assert("reps"@.len() == 4);
    assert("recommendedWeight"@.len() == 17);
    assert("restSeconds"@.len() == 11);
    assert("notes"@.len() == 5);
    assert("sets"@[0] == 's');
    assert("reps"@[0] == 'r');
    let msv = menuex_jsonv(e)->Obj_0;
    let d1 = msv.drop_first();
    let d2 = d1.drop_first();
    let d3 = d2.drop_first();
    let d4 = d3.drop_first();
    let d5 = d4.drop_first();
    assert(msv.len() == 6);
    assert(msv[0] == MemberV { key: "exerciseName"@, val: JsonV::Str(e.exercise_name) });
    assert(msv[1] == MemberV { key: "sets"@, val: u32_jsonv(e.sets) });
    assert(msv[2] == MemberV { key: "reps"@, val: u32_jsonv(e.reps) });
    assert(msv[3] == MemberV { key: "recommendedWeight"@, val: JsonV::Num(e.recommended_weight) });
    assert(msv[4] == MemberV { key: "restSeconds"@, val: u32_jsonv(e.rest_seconds) });
    assert(msv[5] == MemberV { key: "notes"@, val: JsonV::Str(e.notes) });
    assert(d1.len() == 5 && d1[0] == msv[1] && d1[1] == msv[2] && d1[2] == msv[3] && d1[3]
        == msv[4] && d1[4] == msv[5]);
    assert(d2.len() == 4 && d2[0] == msv[2] && d2[1] == msv[3] && d2[2] == msv[4] && d2[3]
        == msv[5]);
    assert(d3.len() == 3 && d3[0] == msv[3] && d3[1] == msv[4] && d3[2] == msv[5]);
    assert(d4.len() == 2 && d4[0] == msv[4] && d4[1] == msv[5]);
    assert(d5.len() == 1 && d5[0] == msv[5]);
    assert(obj_get(msv, "exerciseName"@) == Some(JsonV::Str(e.exercise_name)));
    assert(obj_get(d1, "sets"@) == Some(u32_jsonv(e.sets)));
    assert(obj_get(msv, "sets"@) == Some(u32_jsonv(e.sets)));
    assert(obj_get(d2, "reps"@) == Some(u32_jsonv(e.reps)));
    assert(obj_get(d1, "reps"@) == obj_get(d2, "reps"@));
    assert(obj_get(msv, "reps"@) == Some(u32_jsonv(e.reps)));
    assert(obj_get(d3, "recommendedWeight"@) == Some(JsonV::Num(e.recommended_weight)));
    assert(obj_get(d2, "recommendedWeight"@) == obj_get(d3, "recommendedWeight"@));
    assert(obj_get(d1, "recommendedWeight"@) == obj_get(d2, "recommendedWeight"@));
    assert(obj_get(msv, "recommendedWeight"@) == Some(JsonV::Num(e.recommended_weight)));
    assert(obj_get(d4, "restSeconds"@) == Some(u32_jsonv(e.rest_seconds)));
    assert(obj_get(d3, "restSeconds"@) == obj_get(d4, "restSeconds"@));
    assert(obj_get(d2, "restSeconds"@) == obj_get(d3, "restSeconds"@));
    assert(obj_get(d1, "restSeconds"@) == obj_get(d2, "restSeconds"@));
    assert(obj_get(msv, "restSeconds"@) == Some(u32_jsonv(e.rest_seconds)));
    assert(obj_get(d5, "notes"@) == Some(JsonV::Str(e.notes)));
    assert(obj_get(d4, "notes"@) == obj_get(d5, "notes"@));
    assert(obj_get(d3, "notes"@) == obj_get(d4, "notes"@));
    assert(obj_get(d2, "notes"@) == obj_get(d3, "notes"@));
    assert(obj_get(d1, "notes"@) == obj_get(d2, "notes"@));
    assert(obj_get(msv, "notes"@) == Some(JsonV::Str(e.notes)));
    assert(menuex_of_jsonv(menuex_jsonv(e))->0 =~= e);
}


/// The wire forms of a list of menu exercises.
pub open spec fn menuexs_jsonv(es: Seq<MenuExerciseV>) -> Seq<JsonV> {
    Seq::new(es.len(), |i: int| menuex_jsonv(es[i]))
}

/// Executable encoding of a list of menu exercises.
pub fn menuexs_to_json(es: &Vec<MenuExercise>) -> (r: Vec<Json>)
    ensures
        jsonv_list(r, 0) == menuexs_jsonv(Seq::new(es@.len(), |i: int| es@[i]@)),
{
    let n = es.len();
    let mut out: Vec<Json> = Vec::new();
    let mut i: usize = 0;
    while i < n
        invariant
            n == es@.len(),
            i <= n,
            out@.len() == i,
            forall|k: int| 0 <= k < i ==> jsonv_of(#[trigger] out@[k]) == menuex_jsonv(es@[k]@),
        decreases n - i,
    {
        let j = menuex_to_json(&es[i]);
        out.push(j);
        i += 1;
    }
    proof {
        lemma_jsonv_list_index(out, 0);
        let want = menuexs_jsonv(Seq::new(es@.len(), |i: int| es@[i]@));
        assert forall|k: int| 0 <= k < out@.len() implies jsonv_list(out, 0)[k] == want[k] by {
            assert(jsonv_list(out, 0)[k] == jsonv_of(out@[k]));
            assert(jsonv_of(out@[k]) == menuex_jsonv(es@[k]@));
        }
        assert(jsonv_list(out, 0) =~= want);
    }
    out
}

/// Reading a list of menu exercises from index `k` on.
pub open spec fn menuexs_of(es: Seq<JsonV>, k: int) -> Option<Seq<MenuExerciseV>>
    decreases es.len() - k,
{
    if k < 0 || k >= es.len() {
        Some(Seq::<MenuExerciseV>::empty())
    } else {
        match menuex_of_jsonv(es[k]) {
            None => None,
            Some(e) => match menuexs_of(es, k + 1) {
                None => None,
                Some(t) => Some(seq![e] + t),
            },
        }
    }
}

/// Executable decoding of a list of menu exercises.
pub fn menuexs_from(es: &Vec<Json>, k: usize) -> (r: Option<Vec<MenuExercise>>)
    requires
        k <= es@.len(),
    ensures
        match r {
            Some(v) => menuexs_of(jsonv_list(*es, 0), k as int) == Some(
                Seq::new(v@.len(), |i: int| v@[i]@),
            ),
            None => menuexs_of(jsonv_list(*es, 0), k as int) is None,
        },
    decreases es@.len() - k,
{
    let n = es.len();
    proof {
        lemma_jsonv_list_index(*es, 0);
    }
    if k >= n {
        let v: Vec<MenuExercise> = Vec::new();
        proof {
            assert(Seq::new(v@.len(), |i: int| v@[i]@) =~= Seq::<MenuExerciseV>::empty());
        }
        return Some(v);
    }
    proof {
        assert(jsonv_list(*es, 0)[k as int] == jsonv_of(es@[k as int]));
    }
    match menuex_from_json(&es[k]) {
        None => None,
        Some(e) => {
            match menuexs_from(es, k + 1) {
                None => None,
                Some(mut v) => {
                    let ghost vold = v;
                    v.insert(0, e);
                    proof {
                        assert(v@ =~= seq![e] + vold@);
                        let lhs = Seq::new(v@.len(), |i: int| v@[i]@);
                        let rhs = seq![e@] + Seq::new(vold@.len(), |i: int| vold@[i]@);
                        assert forall|i: int| 0 <= i < lhs.len() implies lhs[i] == rhs[i] by {
                            if i == 0 {
                                assert(v@[0] == e);
                            } else {
                                assert(v@[i] == vold@[i - 1]);
                            }
                        }
                        assert(lhs =~= rhs);
                    }
                    Some(v)
                },
            }
        },
    }
}

/// Reading back an encoded exercise list.
pub proof fn lemma_menuexs_roundtrip(es: Seq<MenuExerciseV>, k: int)
    requires
        0 <= k <= es.len(),
    ensures
        menuexs_of(menuexs_jsonv(es), k) == Some(es.skip(k)),
    decreases es.len() - k,
{
    let js = menuexs_jsonv(es);
    if k >= es.len() {
        assert(es.skip(k) =~= Seq::<MenuExerciseV>::empty());
    } else {
        assert(js[k] == menuex_jsonv(es[k]));
        lemma_menuex_roundtrip(es[k]);
        lemma_menuexs_roundtrip(es, k + 1);
        assert(seq![es[k]] + es.skip(k + 1) =~= es.skip(k));
    }
}

/// The wire form of one menu, camel-case keys.
pub open spec fn menu_jsonv(m: TimedMenuV) -> JsonV {
    JsonV::Obj(
        seq![
            MemberV { key: "bodyPart"@, val: JsonV::Str(m.body_part) },
            MemberV { key: "durationMinutes"@, val: u32_jsonv(m.duration_minutes) },
            MemberV { key: "exercises"@, val: JsonV::Arr(menuexs_jsonv(m.exercises)) },
            MemberV { key: "totalRestSeconds"@, val: u32_jsonv(m.total_rest_seconds) },
            MemberV { key: "generatedAt"@, val: JsonV::Str(m.generated_at) },
        ],
    )
}

/// Executable encoding of one menu.
pub fn menu_to_json(m: &TimedMenu) -> (r: Json)
    ensures
        r@ == menu_jsonv(m@),
{
    let mut ms: Vec<Member> = Vec::new();
    ms.push(Member { key: String::from_str("bodyPart"), val: Json::Str(m.body_part.clone()) });
    ms.push(
        Member {
            key: String::from_str("durationMinutes"),
            val: Json::Num(Decimal::whole(m.duration_minutes as u64)),
        },
    );
    let exs = menuexs_to_json(&m.exercises);
    ms.push(Member { key: String::from_str("exercises"), val: Json::Arr(exs) });
    ms.push(
        Member {
            key: String::from_str("totalRestSeconds"),
            val: Json::Num(Decimal::whole(m.total_rest_seconds as u64)),
        },
    );
    ms.push(Member { key: String::from_str("generatedAt"), val: Json::Str(m.generated_at.clone()) });
    let r = Json::Obj(ms);
    proof {
        lemma_memberv_list_index(ms, 0);
        let got = memberv_list(ms, 0);
        let want = menu_jsonv(m@)->Obj_0;
        assert(ms@.len() == 5);
        assert(memberv_of(ms@[0]).key == "bodyPart"@);
        assert(memberv_of(ms@[0]).val == JsonV::Str(m@.body_part));
        assert(got[0] == want[0]);
        assert(memberv_of(ms@[1]).key == "durationMinutes"@);
        assert(ms@[1].val->Num_0@ =~= (DecV { neg: false, int_part: m@.duration_minutes as u64, frac: Seq::<u8>::empty() }));
        assert(memberv_of(ms@[1]).val == u32_jsonv(m@.duration_minutes));
        assert(got[1] == want[1]);
        assert(memberv_of(ms@[2]).key == "exercises"@);
        assert(jsonv_of(ms@[2].val) == JsonV::Arr(jsonv_list(exs, 0)));
        assert(jsonv_list(exs, 0) == menuexs_jsonv(m@.exercises)) by {
            assert(Seq::new(m.exercises@.len(), |i: int| m.exercises@[i]@) == m@.exercises);
        }
        assert(memberv_of(ms@[2]).val == JsonV::Arr(menuexs_jsonv(m@.exercises)));
        assert(got[2] == want[2]);
        assert(memberv_of(ms@[3]).key == "totalRestSeconds"@);
        assert(ms@[3].val->Num_0@ =~= (DecV { neg: false, int_part: m@.total_rest_seconds as u64, frac: Seq::<u8>::empty() }));
        assert(memberv_of(ms@[3]).val == u32_jsonv(m@.total_rest_seconds));
        assert(got[3] == want[3]);
        assert(memberv_of(ms@[4]).key == "generatedAt"@);
        assert(memberv_of(ms@[4]).val == JsonV::Str(m@.generated_at));
        assert(got[4] == want[4]);
        assert(got =~= want);
    }
    r
}

/// Reading one menu out of a JSON document.
pub open spec fn menu_of_jsonv(v: JsonV) -> Option<TimedMenuV> {
    if !(v is Obj) {
        None
    } else {
        let ms = v->Obj_0;
        let f0 = opt_str(obj_get(ms, "bodyPart"@));
        let f1 = opt_u32(obj_get(ms, "durationMinutes"@));
        let f2 = match obj_get(ms, "exercises"@) {
            Some(a) => if a is Arr {
                menuexs_of(a->Arr_0, 0)
            } else {
                None
            },
            None => None,
        };
        let f3 = opt_u32(obj_get(ms, "totalRestSeconds"@));
        let f4 = opt_str(obj_get(ms, "generatedAt"@));
        if f0 is Some && f1 is Some && f2 is Some && f3 is Some && f4 is Some {
            Some(
                TimedMenuV {
                    body_part: f0->0,
                    duration_minutes: f1->0,
                    exercises: f2->0,
                    total_rest_seconds: f3->0,
                    generated_at: f4->0,
                },
            )
        } else {
            None
        }
    }
}

/// Executable decoding of one menu.
pub fn menu_from_json(v: &Json) -> (r: Option<TimedMenu>)
    ensures
        match r {
            Some(m) => menu_of_jsonv(v@) == Some(m@),
            None => menu_of_jsonv(v@) is None,
        },
{
    match v {
        Json::Obj(ms) => {
            proof {
                assert(v@ == JsonV::Obj(memberv_list(*ms, 0)));
            }
            let f0 = match obj_get_x(ms, "bodyPart") {
                Some(x) => as_str_x(x),
                None => None,
            };
            let f1 = match obj_get_x(ms, "durationMinutes") {
                Some(x) => as_u32_x(x),
                None => None,
            };
            let f2 = match obj_get_x(ms, "exercises") {
                Some(x) => match x {
                    Json::Arr(es) => {
                        proof {
                            assert(x@ == JsonV::Arr(jsonv_list(*es, 0)));
                        }
                        menuexs_from(es, 0)
                    },
                    _ => None,
                },
                None => None,
            };
            let f3 = match obj_get_x(ms, "totalRestSeconds") {
                Some(x) => as_u32_x(x),
                None => None,
            };
            let f4 = match obj_get_x(ms, "generatedAt") {
                Some(x) => as_str_x(x),
                None => None,
            };
            match (f0, f1, f2, f3, f4) {
                (Some(body_part), Some(duration_minutes), Some(exercises), Some(
                    total_rest_seconds,
                ), Some(generated_at)) => {
                    let m = TimedMenu {
                        body_part,
                        duration_minutes,
                        exercises,
                        total_rest_seconds,
                        generated_at,
                    };
                    proof {
                        assert(menu_of_jsonv(v@)->0 =~= m@);
                    }
                    Some(m)
                },
                _ => None,
            }
        },
        _ => None,
    }
}

/// Decoding a menu inverts encoding it.
pub proof fn lemma_menu_roundtrip(m: TimedMenuV)
    ensures
        menu_of_jsonv(menu_jsonv(m)) == Some(m),
{
    reveal_strlit("bodyPart");
    reveal_strlit("durationMinutes");
    reveal_strlit("exercises");
    reveal_strlit("totalRestSeconds");
    reveal_strlit("generatedAt");
    assert("bodyPart"@.len() == 8);
    assert("durationMinutes"@.len() == 15);
    assert("exercises"@.len() == 9);
    assert("totalRestSeconds"@.len() == 16);
    assert("generatedAt"@.len() == 11);
    assert("durationMinutes"@[0] == 'd');
    assert("totalRestSeconds"@[0] == 't');
    let msv = menu_jsonv(m)->Obj_0;
    let d1 = msv.drop_first();
    let d2 = d1.drop_first();
    let d3 = d2.drop_first();
    let d4 = d3.drop_first();
    assert(msv.len() == 5);
    assert(msv[0] == MemberV { key: "bodyPart"@, val: JsonV::Str(m.body_part) });
    assert(msv[1] == MemberV { key: "durationMinutes"@, val: u32_jsonv(m.duration_minutes) });
    assert(msv[2] == MemberV { key: "exercises"@, val: JsonV::Arr(menuexs_jsonv(m.exercises)) });
    assert(msv[3] == MemberV { key: "totalRestSeconds"@, val: u32_jsonv(m.total_rest_seconds) });
    assert(msv[4] == MemberV { key: "generatedAt"@, val: JsonV::Str(m.generated_at) });
    assert(d1.len() == 4 && d1[0] == msv[1] && d1[1] == msv[2] && d1[2] == msv[3] && d1[3]
        == msv[4]);
    assert(d2.len() == 3 && d2[0] == msv[2] && d2[1] == msv[3] && d2[2] == msv[4]);
    assert(d3.len() == 2 && d3[0] == msv[3] && d3[1] == msv[4]);
    assert(d4.len() == 1 && d4[0] == msv[4]);
    assert(obj_get(msv, "bodyPart"@) == Some(JsonV::Str(m.body_part)));
    assert(obj_get(d1, "durationMinutes"@) == Some(u32_jsonv(m.duration_minutes)));
    assert(obj_get(msv, "durationMinutes"@) == Some(u32_jsonv(m.duration_minutes)));
    assert(obj_get(d2, "exercises"@) == Some(JsonV::Arr(menuexs_jsonv(m.exercises))));
    assert(obj_get(d1, "exercises"@) == obj_get(d2, "exercises"@));
    assert(obj_get(msv, "exercises"@) == Some(JsonV::Arr(menuexs_jsonv(m.exercises))));
    assert(obj_get(d3, "totalRestSeconds"@) == Some(u32_jsonv(m.total_rest_seconds)));
    assert(obj_get(d2, "totalRestSeconds"@) == obj_get(d3, "totalRestSeconds"@));
    assert(obj_get(d1, "totalRestSeconds"@) == obj_get(d2, "totalRestSeconds"@));
    assert(obj_get(msv, "totalRestSeconds"@) == Some(u32_jsonv(m.total_rest_seconds)));
    assert(obj_get(d4, "generatedAt"@) == Some(JsonV::Str(m.generated_at)));
    assert(obj_get(d3, "generatedAt"@) == obj_get(d4, "generatedAt"@));
    assert(obj_get(d2, "generatedAt"@) == obj_get(d3, "generatedAt"@));
    assert(obj_get(d1, "generatedAt"@) == obj_get(d2, "generatedAt"@));
    assert(obj_get(msv, "generatedAt"@) == Some(JsonV::Str(m.generated_at)));
    lemma_menuexs_roundtrip(m.exercises, 0);
    assert(m.exercises.skip(0) =~= m.exercises);
    assert(menu_of_jsonv(menu_jsonv(m))->0 =~= m);
}


/// The printed text of one menu exercise.
pub open spec fn menuex_text(e: MenuExerciseV) -> Seq<char> {
    crate::json::print_jsonv(menuex_jsonv(e))
}

/// The printed text of one menu.
pub open spec fn menu_text(m: TimedMenuV) -> Seq<char> {
    crate::json::print_jsonv(menu_jsonv(m))
}

/// A well-formed exercise encodes to a well-formed document.
pub proof fn lemma_menuex_jsonv_wf(e: MenuExerciseV)
    requires
        wf_menu_exercise(e),
    ensures
        wf_jsonv(menuex_jsonv(e)),
{
    reveal_strlit("exerciseName");
    reveal_strlit("sets");
    reveal_strlit("reps");
    reveal_strlit("recommendedWeight");
    reveal_strlit("restSeconds");
    reveal_strlit("notes");
    let msv = menuex_jsonv(e)->Obj_0;
    assert forall|i: int| 0 <= i < msv.len() implies clean_str(#[trigger] msv[i].key) && wf_jsonv(
        msv[i].val,
    ) by {
        assert(clean_str("exerciseName"@)) by {
            assert forall|k: int| 0 <= k < "exerciseName"@.len() implies
                crate::text::is_clean_char("exerciseName"@[k]) by {}
        }
        assert(clean_str("sets"@)) by {
            assert forall|k: int| 0 <= k < "sets"@.len() implies crate::text::is_clean_char(
                "sets"@[k],
            ) by {}
        }
        assert(clean_str("reps"@)) by {
            assert forall|k: int| 0 <= k < "reps"@.len() implies crate::text::is_clean_char(
                "reps"@[k],
            ) by {}
        }
        assert(clean_str("recommendedWeight"@)) by {
            assert forall|k: int| 0 <= k < "recommendedWeight"@.len() implies
                crate::text::is_clean_char("recommendedWeight"@[k]) by {}
        }
        assert(clean_str("restSeconds"@)) by {
            assert forall|k: int| 0 <= k < "restSeconds"@.len() implies
                crate::text::is_clean_char("restSeconds"@[k]) by {}
        }
        assert(clean_str("notes"@)) by {
            assert forall|k: int| 0 <= k < "notes"@.len() implies crate::text::is_clean_char(
                "notes"@[k],
            ) by {}
        }
        assert(wf_jsonv(JsonV::Str(e.exercise_name)));
        assert(wf_jsonv(JsonV::Str(e.notes)));
        assert(wf_jsonv(u32_jsonv(e.sets)));
        assert(wf_jsonv(u32_jsonv(e.reps)));
        assert(wf_jsonv(u32_jsonv(e.rest_seconds)));
        assert(wf_jsonv(JsonV::Num(e.recommended_weight)));
    }
    lemma_wf_obj(msv);
}

/// A well-formed menu encodes to a well-formed document.
pub proof fn lemma_menu_jsonv_wf(m: TimedMenuV)
    requires
        wf_timed_menu(m),
    ensures
        wf_jsonv(menu_jsonv(m)),
{
    reveal_strlit("bodyPart");
    reveal_strlit("durationMinutes");
    reveal_strlit("exercises");
    reveal_strlit("totalRestSeconds");
    reveal_strlit("generatedAt");
    let msv = menu_jsonv(m)->Obj_0;
    let exs = menuexs_jsonv(m.exercises);
    assert(wf_jsonv(JsonV::Arr(exs))) by {
        assert forall|i: int| 0 <= i < exs.len() implies wf_jsonv(#[trigger] exs[i]) by {
            assert(exs[i] == menuex_jsonv(m.exercises[i]));
            assert(wf_menu_exercise(m.exercises[i]));
            lemma_menuex_jsonv_wf(m.exercises[i]);
        }
        lemma_wf_arr(exs);
    }
    assert forall|i: int| 0 <= i < msv.len() implies clean_str(#[trigger] msv[i].key) && wf_jsonv(
        msv[i].val,
    ) by {
        assert(clean_str("bodyPart"@)) by {
            assert forall|k: int| 0 <= k < "bodyPart"@.len() implies crate::text::is_clean_char(
                "bodyPart"@[k],
            ) by {}
        }
        assert(clean_str("durationMinutes"@)) by {
            assert forall|k: int| 0 <= k < "durationMinutes"@.len() implies
                crate::text::is_clean_char("durationMinutes"@[k]) by {}
        }
        assert(clean_str("exercises"@)) by {
            assert forall|k: int| 0 <= k < "exercises"@.len() implies
                crate::text::is_clean_char("exercises"@[k]) by {}
        }
        assert(clean_str("totalRestSeconds"@)) by {
            assert forall|k: int| 0 <= k < "totalRestSeconds"@.len() implies
                crate::text::is_clean_char("totalRestSeconds"@[k]) by {}
        }
        assert(clean_str("generatedAt"@)) by {
            assert forall|k: int| 0 <= k < "generatedAt"@.len() implies
                crate::text::is_clean_char("generatedAt"@[k]) by {}
        }
        assert(wf_jsonv(JsonV::Str(m.body_part)));
        assert(wf_jsonv(JsonV::Str(m.generated_at)));
        assert(wf_jsonv(u32_jsonv(m.duration_minutes)));
        assert(wf_jsonv(u32_jsonv(m.total_rest_seconds)));
    }
    lemma_wf_obj(msv);
}

/// Prints one menu as its exact wire text.
pub fn encode_menu_text(m: &TimedMenu) -> (r: String)
    requires
        wf_timed_menu(m@),
    ensures
        r@ == menu_text(m@),
{
    let j = menu_to_json(m);
    proof {
        lemma_menu_jsonv_wf(m@);
    }
    crate::json::encode_json(&j)
}

/// What decoding a menu from raw text yields.
pub open spec fn menu_of_text(s: Seq<char>) -> Option<TimedMenuV> {
    match crate::jsonparse::sparse_json(s) {
        Some(v) => menu_of_jsonv(v),
        None => None,
    }
}

/// Reads one menu back from raw text.
pub fn decode_menu_text(s: &str) -> (r: Option<TimedMenu>)
    ensures
        match r {
            Some(m) => menu_of_text(s@) == Some(m@),
            None => menu_of_text(s@) is None,
        },
{
    match crate::jsonparse::parse_json(s) {
        Some(v) => menu_from_json(&v),
        None => None,
    }
}

/// Encoding a menu to text and decoding it back preserves every field,
/// with the wire key names of the storage contract.
pub proof fn lemma_menu_text_roundtrip(m: TimedMenuV)
    requires
        wf_timed_menu(m),
    ensures
        menu_of_text(menu_text(m)) == Some(m),
{
    lemma_menu_jsonv_wf(m);
    crate::jsonround::lemma_print_parse_json(menu_jsonv(m));
    lemma_menu_roundtrip(m);
}

/// Prints one menu exercise as its exact wire text.
pub fn encode_menuex_text(e: &MenuExercise) -> (r: String)
    requires
        wf_menu_exercise(e@),
    ensures
        r@ == menuex_text(e@),
{
    let j = menuex_to_json(e);
    proof {
        lemma_menuex_jsonv_wf(e@);
    }
    crate::json::encode_json(&j)
}

/// What decoding a menu exercise from raw text yields.
pub open spec fn menuex_of_text(s: Seq<char>) -> Option<MenuExerciseV> {
    match crate::jsonparse::sparse_json(s) {
        Some(v) => menuex_of_jsonv(v),
        None => None,
    }
}

/// Reads one menu exercise back from raw text.
pub fn decode_menuex_text(s: &str) -> (r: Option<MenuExercise>)
    ensures
        match r {
            Some(e) => menuex_of_text(s@) == Some(e@),
            None => menuex_of_text(s@) is None,
        },
{
    match crate::jsonparse::parse_json(s) {
        Some(v) => menuex_from_json(&v),
        None => None,
    }
}

/// Encoding a menu exercise to text and decoding it back preserves every
/// field.
pub proof fn lemma_menuex_text_roundtrip(e: MenuExerciseV)
    requires
        wf_menu_exercise(e),
    ensures
        menuex_of_text(menuex_text(e)) == Some(e),
{
    lemma_menuex_jsonv_wf(e);
    crate::jsonround::lemma_print_parse_json(menuex_jsonv(e));
    lemma_menuex_roundtrip(e);
}


/// The wire forms of a workout history.
pub open spec fn history_jsonv(ws: Seq<WorkoutSetV>) -> JsonV {
    JsonV::Arr(Seq::new(ws.len(), |i: int| workout_jsonv(ws[i])))
}

/// The printed text of a workout history.
pub open spec fn history_text(ws: Seq<WorkoutSetV>) -> Seq<char> {
    crate::json::print_jsonv(history_jsonv(ws))
}

/// A well-formed workout encodes to a well-formed document.
pub proof fn lemma_workout_jsonv_wf(w: WorkoutSetV)
    requires
        wf_workout(w),
    ensures
        wf_jsonv(workout_jsonv(w)),
{
    reveal_strlit("user_id");
    reveal_strlit("timestamp");
    reveal_strlit("exercise_id");
    reveal_strlit("weight");
    reveal_strlit("reps");
    reveal_strlit("rpe");
    reveal_strlit("easy");
    reveal_strlit("just");
    reveal_strlit("limit");
    let msv = workout_jsonv(w)->Obj_0;
    assert forall|i: int| 0 <= i < msv.len() implies clean_str(#[trigger] msv[i].key) && wf_jsonv(
        msv[i].val,
    ) by {
        assert(clean_str("user_id"@)) by {
            assert forall|k: int| 0 <= k < "user_id"@.len() implies crate::text::is_clean_char(
                "user_id"@[k],
            ) by {}
        }
        assert(clean_str("timestamp"@)) by {
            assert forall|k: int| 0 <= k < "timestamp"@.len() implies
                crate::text::is_clean_char("timestamp"@[k]) by {}
        }
        assert(clean_str("exercise_id"@)) by {
            assert forall|k: int| 0 <= k < "exercise_id"@.len() implies
                crate::text::is_clean_char("exercise_id"@[k]) by {}
        }
        assert(clean_str("weight"@)) by {
            assert forall|k: int| 0 <= k < "weight"@.len() implies crate::text::is_clean_char(
                "weight"@[k],
            ) by {}
        }
        assert(clean_str("reps"@)) by {
            assert forall|k: int| 0 <= k < "reps"@.len() implies crate::text::is_clean_char(
                "reps"@[k],
            ) by {}
        }
        assert(clean_str("rpe"@)) by {
            assert forall|k: int| 0 <= k < "rpe"@.len() implies crate::text::is_clean_char(
                "rpe"@[k],
            ) by {}
        }
        assert(clean_str(rpe_str(w.rpe))) by {
            assert forall|k: int| 0 <= k < rpe_str(w.rpe).len() implies
                crate::text::is_clean_char(rpe_str(w.rpe)[k]) by {
                match w.rpe {
                    RpeLevel::Easy => {},
                    RpeLevel::Just => {},
                    RpeLevel::Limit => {},
                }
            }
        }
        assert(wf_jsonv(JsonV::Str(w.user_id)));
        assert(wf_jsonv(JsonV::Str(w.timestamp)));
        assert(wf_jsonv(JsonV::Str(w.exercise_id)));
        assert(wf_jsonv(JsonV::Num(w.weight)));
        assert(wf_jsonv(u32_jsonv(w.reps)));
        assert(wf_jsonv(JsonV::Str(rpe_str(w.rpe))));
    }
    lemma_wf_obj(msv);
}

/// A history of well-formed workouts encodes to a well-formed document.
pub proof fn lemma_history_jsonv_wf(ws: Seq<WorkoutSetV>)
    requires
        forall|i: int| 0 <= i < ws.len() ==> wf_workout(#[trigger] ws[i]),
    ensures
        wf_jsonv(history_jsonv(ws)),
{
    let es = history_jsonv(ws)->Arr_0;
    assert forall|i: int| 0 <= i < es.len() implies wf_jsonv(#[trigger] es[i]) by {
        assert(es[i] == workout_jsonv(ws[i]));
        lemma_workout_jsonv_wf(ws[i]);
    }
    lemma_wf_arr(es);
}

/// Prints a workout history as one JSON array, oldest first as given.
pub fn encode_history_text(ws: &Vec<WorkoutSet>) -> (r: String)
    requires
        forall|i: int| 0 <= i < ws@.len() ==> wf_workout(#[trigger] ws@[i]@),
    ensures
        r@ == history_text(Seq::new(ws@.len(), |i: int| ws@[i]@)),
{
    let n = ws.len();
    let mut out: Vec<Json> = Vec::new();
    let mut i: usize = 0;
    while i < n
        invariant
            n == ws@.len(),
            i <= n,
            out@.len() == i,
            forall|k: int| 0 <= k < i ==> jsonv_of(#[trigger] out@[k]) == workout_jsonv(ws@[k]@),
            forall|k: int| 0 <= k < ws@.len() ==> wf_workout(#[trigger] ws@[k]@),
        decreases n - i,
    {
        let j = workout_to_json(&ws[i]);
        out.push(j);
        i += 1;
    }
    let arr = Json::Arr(out);
    let ghost wsv = Seq::new(ws@.len(), |i: int| ws@[i]@);
    proof {
        lemma_jsonv_list_index(out, 0);
        let want = history_jsonv(wsv)->Arr_0;
        assert forall|k: int| 0 <= k < out@.len() implies jsonv_list(out, 0)[k] == want[k] by {
            assert(jsonv_list(out, 0)[k] == jsonv_of(out@[k]));
            assert(jsonv_of(out@[k]) == workout_jsonv(ws@[k]@));
        }
        assert(jsonv_list(out, 0) =~= want);
        assert(arr@ == history_jsonv(wsv));
        assert forall|i: int| 0 <= i < wsv.len() implies wf_workout(#[trigger] wsv[i]) by {
            assert(wsv[i] == ws@[i]@);
        }
        lemma_history_jsonv_wf(wsv);
    }
    crate::json::encode_json(&arr)
}

/// The wire forms of a list of menus.
pub open spec fn menus_jsonv(msl: Seq<TimedMenuV>) -> Seq<JsonV> {
    Seq::new(msl.len(), |i: int| menu_jsonv(msl[i]))
}

/// Reading a list of menus from index `k` on.
pub open spec fn menus_of(es: Seq<JsonV>, k: int) -> Option<Seq<TimedMenuV>>
    decreases es.len() - k,
{
    if k < 0 || k >= es.len() {
        Some(Seq::<TimedMenuV>::empty())
    } else {
        match menu_of_jsonv(es[k]) {
            None => None,
            Some(m) => match menus_of(es, k + 1) {
                None => None,
                Some(t) => Some(seq![m] + t),
            },
        }
    }
}

/// Executable decoding of a list of menus.
pub fn menus_from(es: &Vec<Json>, k: usize) -> (r: Option<Vec<TimedMenu>>)
    requires
        k <= es@.len(),
    ensures
        match r {
            Some(v) => menus_of(jsonv_list(*es, 0), k as int) == Some(
                Seq::new(v@.len(), |i: int| v@[i]@),
            ),
            None => menus_of(jsonv_list(*es, 0), k as int) is None,
        },
    decreases es@.len() - k,
{
    let n = es.len();
    proof {
        lemma_jsonv_list_index(*es, 0);
    }
    if k >= n {
        let v: Vec<TimedMenu> = Vec::new();
        proof {
            assert(Seq::new(v@.len(), |i: int| v@[i]@) =~= Seq::<TimedMenuV>::empty());
        }
        return Some(v);
    }
    proof {
        assert(jsonv_list(*es, 0)[k as int] == jsonv_of(es@[k as int]));
    }
    match menu_from_json(&es[k]) {
        None => None,
        Some(m) => {
            match menus_from(es, k + 1) {
                None => None,
                Some(mut v) => {
                    let ghost vold = v;
                    v.insert(0, m);
                    proof {
                        assert(v@ =~= seq![m] + vold@);
                        let lhs = Seq::new(v@.len(), |i: int| v@[i]@);
                        let rhs = seq![m@] + Seq::new(vold@.len(), |i: int| vold@[i]@);
                        assert forall|i: int| 0 <= i < lhs.len() implies lhs[i] == rhs[i] by {
                            if i == 0 {
                                assert(v@[0] == m);
                            } else {
                                assert(v@[i] == vold@[i - 1]);
                            }
                        }
                        assert(lhs =~= rhs);
                    }
                    Some(v)
                },
            }
        },
    }
}

/// What decoding a menu list from raw text yields.
pub open spec fn menus_of_text(s: Seq<char>) -> Option<Seq<TimedMenuV>> {
    match crate::jsonparse::sparse_json(s) {
        Some(v) => if v is Arr {
            menus_of(v->Arr_0, 0)
        } else {
            None
        },
        None => None,
    }
}

/// Reads a menu list back from raw text.
pub fn decode_menus_text(s: &str) -> (r: Option<Vec<TimedMenu>>)
    ensures
        match r {
            Some(v) => menus_of_text(s@) == Some(Seq::new(v@.len(), |i: int| v@[i]@)),
            None => menus_of_text(s@) is None,
        },
{
    match crate::jsonparse::parse_json(s) {
        Some(v) => match v {
            Json::Arr(es) => {
                proof {
                    assert(v@ == JsonV::Arr(jsonv_list(es, 0)));
                }
                menus_from(&es, 0)
            },
            _ => None,
        },
        None => None,
    }
}


/// The wire form of one per-exercise recommendation, snake-case keys.
pub open spec fn rec_jsonv(x: ExerciseRecommendationV) -> JsonV {
    JsonV::Obj(
        seq![
            MemberV { key: "exercise_id"@, val: JsonV::Str(x.exercise_id) },
            MemberV { key: "recommended_weight"@, val: JsonV::Num(x.recommended_weight) },
            MemberV { key: "recommended_reps"@, val: u32_jsonv(x.recommended_reps) },
            MemberV { key: "comment"@, val: JsonV::Str(x.comment) },
        ],
    )
}

/// Reading one recommendation out of a JSON document.
pub open spec fn rec_of_jsonv(v: JsonV) -> Option<ExerciseRecommendationV> {
    if !(v is Obj) {
        None
    } else {
        let ms = v->Obj_0;
        let f0 = opt_str(obj_get(ms, "exercise_id"@));
        let f1 = opt_dec(obj_get(ms, "recommended_weight"@));
        let f2 = opt_u32(obj_get(ms, "recommended_reps"@));
        let f3 = opt_str(obj_get(ms, "comment"@));
        if f0 is Some && f1 is Some && f2 is Some && f3 is Some {
            Some(
                ExerciseRecommendationV {
                    exercise_id: f0->0,
                    recommended_weight: f1->0,
                    recommended_reps: f2->0,
                    comment: f3->0,
                },
            )
        } else {
            None
        }
    }
}

/// Executable decoding of one recommendation.
pub fn rec_from_json(v: &Json) -> (r: Option<ExerciseRecommendation>)
    ensures
        match r {
            Some(x) => rec_of_jsonv(v@) == Some(x@),
            None => rec_of_jsonv(v@) is None,
        },
{
    match v {
        Json::Obj(ms) => {
            proof {
                assert(v@ == JsonV::Obj(memberv_list(*ms, 0)));
            }
            let f0 = match obj_get_x(ms, "exercise_id") {
                Some(x) => as_str_x(x),
                None => None,
            };
            let f1 = match obj_get_x(ms, "recommended_weight") {
                Some(x) => as_dec_x(x),
                None => None,
            };
            let f2 = match obj_get_x(ms, "recommended_reps") {
                Some(x) => as_u32_x(x),
                None => None,
            };
            let f3 = match obj_get_x(ms, "comment") {
                Some(x) => as_str_x(x),
                None => None,
            };
            match (f0, f1, f2, f3) {
                (Some(exercise_id), Some(recommended_weight), Some(recommended_reps), Some(
                    comment,
                )) => Some(
                    ExerciseRecommendation {
                        exercise_id,
                        recommended_weight,
                        recommended_reps,
                        comment,
                    },
                ),
                _ => None,
            }
        },
        _ => None,
    }
}

/// Executable encoding of one recommendation.
pub fn rec_to_json(x: &ExerciseRecommendation) -> (r: Json)
    ensures
        r@ == rec_jsonv(x@),
{
    let mut ms: Vec<Member> = Vec::new();
    ms.push(Member { key: String::from_str("exercise_id"), val: Json::Str(x.exercise_id.clone()) });
    ms.push(
        Member {
            key: String::from_str("recommended_weight"),
            val: Json::Num(
                Decimal {
                    neg: x.recommended_weight.neg,
                    int_part: x.recommended_weight.int_part,
                    frac: clone_u8s(&x.recommended_weight.frac),
                },
            ),
        },
    );
    ms.push(
        Member {
            key: String::from_str("recommended_reps"),
            val: Json::Num(Decimal::whole(x.recommended_reps as u64)),
        },
    );
    ms.push(Member { key: String::from_str("comment"), val: Json::Str(x.comment.clone()) });
    let r = Json::Obj(ms);
    proof {
        lemma_memberv_list_index(ms, 0);
        let got = memberv_list(ms, 0);
        let want = rec_jsonv(x@)->Obj_0;
        assert(ms@.len() == 4);
        assert(memberv_of(ms@[0]).key == "exercise_id"@);
        assert(memberv_of(ms@[0]).val == JsonV::Str(x@.exercise_id));
        assert(got[0] == want[0]);
        assert(memberv_of(ms@[1]).key == "recommended_weight"@);
        assert(ms@[1].val->Num_0@ =~= x@.recommended_weight);
        assert(memberv_of(ms@[1]).val == JsonV::Num(x@.recommended_weight));
        assert(got[1] == want[1]);
        assert(memberv_of(ms@[2]).key == "recommended_reps"@);
        assert(ms@[2].val->Num_0@ =~= (DecV { neg: false, int_part: x@.recommended_reps as u64, frac: Seq::<u8>::empty() }));
        assert(memberv_of(ms@[2]).val == u32_jsonv(x@.recommended_reps));
        assert(got[2] == want[2]);
        assert(memberv_of(ms@[3]).key == "comment"@);
        assert(memberv_of(ms@[3]).val == JsonV::Str(x@.comment));
        assert(got[3] == want[3]);
        assert(got =~= want);
    }
    r
}

/// Reading a list of recommendations from index `k` on.
pub open spec fn recs_of(es: Seq<JsonV>, k: int) -> Option<Seq<ExerciseRecommendationV>>
    decreases es.len() - k,
{
    if k < 0 || k >= es.len() {
        Some(Seq::<ExerciseRecommendationV>::empty())
    } else {
        match rec_of_jsonv(es[k]) {
            None => None,
            Some(x) => match recs_of(es, k + 1) {
                None => None,
                Some(t) => Some(seq![x] + t),
            },
        }
    }
}

/// Executable decoding of a list of recommendations.
pub fn recs_from(es: &Vec<Json>, k: usize) -> (r: Option<Vec<ExerciseRecommendation>>)
    requires
        k <= es@.len(),
    ensures
        match r {
            Some(v) => recs_of(jsonv_list(*es, 0), k as int) == Some(
                Seq::new(v@.len(), |i: int| v@[i]@),
            ),
            None => recs_of(jsonv_list(*es, 0), k as int) is None,
        },
    decreases es@.len() - k,
{
    let n = es.len();
    proof {
        lemma_jsonv_list_index(*es, 0);
    }
    if k >= n {
        let v: Vec<ExerciseRecommendation> = Vec::new();
        proof {
            assert(Seq::new(v@.len(), |i: int| v@[i]@) =~= Seq::<ExerciseRecommendationV>::empty());
        }
        return Some(v);
    }
    proof {
        assert(jsonv_list(*es, 0)[k as int] == jsonv_of(es@[k as int]));
    }
    match rec_from_json(&es[k]) {
        None => None,
        Some(x) => {
            match recs_from(es, k + 1) {
                None => None,
                Some(mut v) => {
                    let ghost vold = v;
                    v.insert(0, x);
                    proof {
                        assert(v@ =~= seq![x] + vold@);
                        let lhs = Seq::new(v@.len(), |i: int| v@[i]@);
                        let rhs = seq![x@] + Seq::new(vold@.len(), |i: int| vold@[i]@);
                        assert forall|i: int| 0 <= i < lhs.len() implies lhs[i] == rhs[i] by {
                            if i == 0 {
                                assert(v@[0] == x);
                            } else {
                                assert(v@[i] == vold@[i - 1]);
                            }
                        }
                        assert(lhs =~= rhs);
                    }
                    Some(v)
                },
            }
        },
    }
}

/// The wire form of a recommendation reply.
pub open spec fn recommend_jsonv(v: AIRecommendResponseV) -> JsonV {
    JsonV::Obj(
        seq![
            MemberV {
                key: "recommendations"@,
                val: JsonV::Arr(Seq::new(v.recommendations.len(), |i: int| rec_jsonv(v.recommendations[i]))),
            },
            MemberV { key: "general_advice"@, val: JsonV::Str(v.general_advice) },
        ],
    )
}

/// Reading a recommendation reply out of a JSON document.
pub open spec fn recommend_of_jsonv(v: JsonV) -> Option<AIRecommendResponseV> {
    if !(v is Obj) {
        None
    } else {
        let ms = v->Obj_0;
        let f0 = match obj_get(ms, "recommendations"@) {
            Some(a) => if a is Arr {
                recs_of(a->Arr_0, 0)
            } else {
                None
            },
            None => None,
        };
        let f1 = opt_str(obj_get(ms, "general_advice"@));
        if f0 is Some && f1 is Some {
            Some(AIRecommendResponseV { recommendations: f0->0, general_advice: f1->0 })
        } else {
            None
        }
    }
}

/// Executable decoding of a recommendation reply.
pub fn recommend_from_json(v: &Json) -> (r: Option<AIRecommendResponse>)
    ensures
        match r {
            Some(x) => recommend_of_jsonv(v@) == Some(x@),
            None => recommend_of_jsonv(v@) is None,
        },
{
    match v {
        Json::Obj(ms) => {
            proof {
                assert(v@ == JsonV::Obj(memberv_list(*ms, 0)));
            }
            let f0 = match obj_get_x(ms, "recommendations") {
                Some(x) => match x {
                    Json::Arr(es) => {
                        proof {
                            assert(x@ == JsonV::Arr(jsonv_list(*es, 0)));
                        }
                        recs_from(es, 0)
                    },
                    _ => None,
                },
                None => None,
            };
            let f1 = match obj_get_x(ms, "general_advice") {
                Some(x) => as_str_x(x),
                None => None,
            };
            match (f0, f1) {
                (Some(recommendations), Some(general_advice)) => {
                    let x = AIRecommendResponse { recommendations, general_advice };
                    proof {
                        assert(recommend_of_jsonv(v@)->0 =~= x@);
                    }
                    Some(x)
                },
                _ => None,
            }
        },
        _ => None,
    }
}

/// What decoding a recommendation reply from raw text yields.
pub open spec fn recommend_of_text(s: Seq<char>) -> Option<AIRecommendResponseV> {
    match crate::jsonparse::sparse_json(s) {
        Some(v) => recommend_of_jsonv(v),
        None => None,
    }
}

/// Reads a recommendation reply back from raw text.
pub fn decode_recommend_text(s: &str) -> (r: Option<AIRecommendResponse>)
    ensures
        match r {
            Some(x) => recommend_of_text(s@) == Some(x@),
            None => recommend_of_text(s@) is None,
        },
{
    match crate::jsonparse::parse_json(s) {
        Some(v) => recommend_from_json(&v),
        None => None,
    }
}

/// The wire forms of a list of plain strings.
pub open spec fn strs_jsonv(ss: Seq<Seq<char>>) -> Seq<JsonV> {
    Seq::new(ss.len(), |i: int| JsonV::Str(ss[i]))
}

/// Reading a list of plain strings from index `k` on.
pub open spec fn strs_of(es: Seq<JsonV>, k: int) -> Option<Seq<Seq<char>>>
    decreases es.len() - k,
{
    if k < 0 || k >= es.len() {
        Some(Seq::<Seq<char>>::empty())
    } else {
        match as_str(es[k]) {
            None => None,
            Some(s) => match strs_of(es, k + 1) {
                None => None,
                Some(t) => Some(seq![s] + t),
            },
        }
    }
}

/// Executable decoding of a list of plain strings.
pub fn strs_from(es: &Vec<Json>, k: usize) -> (r: Option<Vec<String>>)
    requires
        k <= es@.len(),
    ensures
        match r {
            Some(v) => strs_of(jsonv_list(*es, 0), k as int) == Some(
                Seq::new(v@.len(), |i: int| v@[i]@),
            ),
            None => strs_of(jsonv_list(*es, 0), k as int) is None,
        },
    decreases es@.len() - k,
{
    let n = es.len();
    proof {
        lemma_jsonv_list_index(*es, 0);
    }
    if k >= n {
        let v: Vec<String> = Vec::new();
        proof {
            assert(Seq::new(v@.len(), |i: int| v@[i]@) =~= Seq::<Seq<char>>::empty());
        }
        return Some(v);
    }
    proof {
        assert(jsonv_list(*es, 0)[k as int] == jsonv_of(es@[k as int]));
    }
    match as_str_x(&es[k]) {
        None => None,
        Some(s) => {
            match strs_from(es, k + 1) {
                None => None,
                Some(mut v) => {
                    let ghost vold = v;
                    v.insert(0, s);
                    proof {
                        let lhs = Seq::new(v@.len(), |i: int| v@[i]@);
                        let rhs = seq![v@[0]@] + Seq::new(vold@.len(), |i: int| vold@[i]@);
                        assert forall|i: int| 0 <= i < lhs.len() implies lhs[i] == rhs[i] by {
                            if i != 0 {
                                assert(v@[i] == vold@[i - 1]);
                            }
                        }
                        assert(lhs =~= rhs);
                    }
                    Some(v)
                },
            }
        },
    }
}

/// The wire form of a growth-analysis reply.
pub open spec fn analysis_jsonv(v: AIAnalysisResponseV) -> JsonV {
    JsonV::Obj(
        seq![
            MemberV { key: "insights"@, val: JsonV::Arr(strs_jsonv(v.insights)) },
            MemberV { key: "plateau_warnings"@, val: JsonV::Arr(strs_jsonv(v.plateau_warnings)) },
            MemberV { key: "encouragement"@, val: JsonV::Str(v.encouragement) },
        ],
    )
}

/// Reading a growth-analysis reply out of a JSON document.
pub open spec fn analysis_of_jsonv(v: JsonV) -> Option<AIAnalysisResponseV> {
    if !(v is Obj) {
        None
    } else {
        let ms = v->Obj_0;
        let f0 = match obj_get(ms, "insights"@) {
            Some(a) => if a is Arr {
                strs_of(a->Arr_0, 0)
            } else {
                None
            },
            None => None,
        };
        let f1 = match obj_get(ms, "plateau_warnings"@) {
            Some(a) => if a is Arr {
                strs_of(a->Arr_0, 0)
            } else {
                None
            },
            None => None,
        };
        let f2 = opt_str(obj_get(ms, "encouragement"@));
        if f0 is Some && f1 is Some && f2 is Some {
            Some(
                AIAnalysisResponseV {
                    insights: f0->0,
                    plateau_warnings: f1->0,
                    encouragement: f2->0,
                },
            )
        } else {
            None
        }
    }
}

/// Executable decoding of a growth-analysis reply.
pub fn analysis_from_json(v: &Json) -> (r: Option<AIAnalysisResponse>)
    ensures
        match r {
            Some(x) => analysis_of_jsonv(v@) == Some(x@),
            None => analysis_of_jsonv(v@) is None,
        },
{
    match v {
        Json::Obj(ms) => {
            proof {
                assert(v@ == JsonV::Obj(memberv_list(*ms, 0)));
            }
            let f0 = match obj_get_x(ms, "insights") {
                Some(x) => match x {
                    Json::Arr(es) => {
                        proof {
                            assert(x@ == JsonV::Arr(jsonv_list(*es, 0)));
                        }
                        strs_from(es, 0)
                    },
                    _ => None,
                },
                None => None,
            };
            let f1 = match obj_get_x(ms, "plateau_warnings") {
                Some(x) => match x {
                    Json::Arr(es) => {
                        proof {
                            assert(x@ == JsonV::Arr(jsonv_list(*es, 0)));
                        }
                        strs_from(es, 0)
                    },
                    _ => None,
                },
                None => None,
            };
            let f2 = match obj_get_x(ms, "encouragement") {
                Some(x) => as_str_x(x),
                None => None,
            };
            match (f0, f1, f2) {
                (Some(insights), Some(plateau_warnings), Some(encouragement)) => {
                    let x = AIAnalysisResponse { insights, plateau_warnings, encouragement };
                    proof {
                        assert(analysis_of_jsonv(v@)->0 =~= x@);
                    }
                    Some(x)
                },
                _ => None,
            }
        },
        _ => None,
    }
}

/// What decoding a growth-analysis reply from raw text yields.
pub open spec fn analysis_of_text(s: Seq<char>) -> Option<AIAnalysisResponseV> {
    match crate::jsonparse::sparse_json(s) {
        Some(v) => analysis_of_jsonv(v),
        None => None,
    }
}

/// Reads a growth-analysis reply back from raw text.
pub fn decode_analysis_text(s: &str) -> (r: Option<AIAnalysisResponse>)
    ensures
        match r {
            Some(x) => analysis_of_text(s@) == Some(x@),
            None => analysis_of_text(s@) is None,
        },
{
    match crate::jsonparse::parse_json(s) {
        Some(v) => analysis_from_json(&v),
        None => None,
    }
}


/// Executable encoding of a recommendation reply.
pub fn recommend_to_json(v: &AIRecommendResponse) -> (r: Json)
    ensures
        r@ == recommend_jsonv(v@),
{
    let n = v.recommendations.len();
    let mut recs: Vec<Json> = Vec::new();
    let mut i: usize = 0;
    while i < n
        invariant
            n == v.recommendations@.len(),
            i <= n,
            recs@.len() == i,
            forall|k: int|
                0 <= k < i ==> jsonv_of(#[trigger] recs@[k]) == rec_jsonv(
                    v.recommendations@[k]@,
                ),
        decreases n - i,
    {
        let j = rec_to_json(&v.recommendations[i]);
        recs.push(j);
        i += 1;
    }
    let mut ms: Vec<Member> = Vec::new();
    ms.push(Member { key: String::from_str("recommendations"), val: Json::Arr(recs) });
    ms.push(
        Member { key: String::from_str("general_advice"), val: Json::Str(v.general_advice.clone()) },
    );
    let r = Json::Obj(ms);
    proof {
        lemma_jsonv_list_index(ms@[0].val->Arr_0, 0);
        lemma_memberv_list_index(ms, 0);
        let got = memberv_list(ms, 0);
        let want = recommend_jsonv(v@)->Obj_0;
        let wantrecs = Seq::new(v@.recommendations.len(), |i: int| rec_jsonv(v@.recommendations[i]));
        assert(ms@.len() == 2);
        assert(memberv_of(ms@[0]).key == "recommendations"@);
        assert forall|k: int| 0 <= k < jsonv_list(ms@[0].val->Arr_0, 0).len() implies jsonv_list(
            ms@[0].val->Arr_0,
            0,
        )[k] == wantrecs[k] by {
            assert(jsonv_list(ms@[0].val->Arr_0, 0)[k] == jsonv_of(ms@[0].val->Arr_0@[k]));
            assert(ms@[0].val->Arr_0@[k] == recs@[k]);
            assert(jsonv_of(recs@[k]) == rec_jsonv(v.recommendations@[k]@));
            assert(v@.recommendations[k] == v.recommendations@[k]@);
        }
        assert(jsonv_list(ms@[0].val->Arr_0, 0) =~= wantrecs);
        assert(memberv_of(ms@[0]).val == JsonV::Arr(wantrecs));
        assert(got[0] == want[0]);
        assert(memberv_of(ms@[1]).key == "general_advice"@);
        assert(memberv_of(ms@[1]).val == JsonV::Str(v@.general_advice));
        assert(got[1] == want[1]);
        assert(got =~= want);
    }
    r
}

/// Executable encoding of a list of plain strings.
pub fn strs_to_json(ss: &Vec<String>) -> (r: Vec<Json>)
    ensures
        jsonv_list(r, 0) == strs_jsonv(Seq::new(ss@.len(), |i: int| ss@[i]@)),
{
    let n = ss.len();
    let mut out: Vec<Json> = Vec::new();
    let mut i: usize = 0;
    while i < n
        invariant
            n == ss@.len(),
            i <= n,
            out@.len() == i,
            forall|k: int| 0 <= k < i ==> jsonv_of(#[trigger] out@[k]) == JsonV::Str(ss@[k]@),
        decreases n - i,
    {
        out.push(Json::Str(ss[i].clone()));
        i += 1;
    }
    proof {
        lemma_jsonv_list_index(out, 0);
        let want = strs_jsonv(Seq::new(ss@.len(), |i: int| ss@[i]@));
        assert forall|k: int| 0 <= k < out@.len() implies jsonv_list(out, 0)[k] == want[k] by {
            assert(jsonv_list(out, 0)[k] == jsonv_of(out@[k]));
        }
        assert(jsonv_list(out, 0) =~= want);
    }
    out
}

/// Executable encoding of a growth-analysis reply.
pub fn analysis_to_json(v: &AIAnalysisResponse) -> (r: Json)
    ensures
        r@ == analysis_jsonv(v@),
{
    let insights = strs_to_json(&v.insights);
    let warnings = strs_to_json(&v.plateau_warnings);
    let mut ms: Vec<Member> = Vec::new();
    ms.push(Member { key: String::from_str("insights"), val: Json::Arr(insights) });
    ms.push(Member { key: String::from_str("plateau_warnings"), val: Json::Arr(warnings) });
    ms.push(
        Member { key: String::from_str("encouragement"), val: Json::Str(v.encouragement.clone()) },
    );
    let r = Json::Obj(ms);
    proof {
        lemma_memberv_list_index(ms, 0);
        let got = memberv_list(ms, 0);
        let want = analysis_jsonv(v@)->Obj_0;
        assert(ms@.len() == 3);
        assert(memberv_of(ms@[0]).key == "insights"@);
        assert(memberv_of(ms@[0]).val == JsonV::Arr(strs_jsonv(v@.insights)));
        assert(got[0] == want[0]);
        assert(memberv_of(ms@[1]).key == "plateau_warnings"@);
        assert(memberv_of(ms@[1]).val == JsonV::Arr(strs_jsonv(v@.plateau_warnings)));
        assert(got[1] == want[1]);
        assert(memberv_of(ms@[2]).key == "encouragement"@);
        assert(memberv_of(ms@[2]).val == JsonV::Str(v@.encouragement));
        assert(got[2] == want[2]);
        assert(got =~= want);
    }
    r
}

/// The wire form of the menu-generation reply: the menus and how many
/// there are, camel-case keys.
pub open spec fn genmenus_jsonv(menus: Seq<TimedMenuV>, count: u64) -> JsonV {
    JsonV::Obj(
        seq![
            MemberV { key: "menus"@, val: JsonV::Arr(menus_jsonv(menus)) },
            MemberV {
                key: "generatedCount"@,
                val: JsonV::Num(DecV { neg: false, int_part: count, frac: Seq::<u8>::empty() }),
            },
        ],
    )
}

/// Executable encoding of a list of menus.
pub fn menus_to_json(menus: &Vec<TimedMenu>) -> (r: Vec<Json>)
    ensures
        jsonv_list(r, 0) == menus_jsonv(Seq::new(menus@.len(), |i: int| menus@[i]@)),
{
    let n = menus.len();
    let mut out: Vec<Json> = Vec::new();
    let mut i: usize = 0;
    while i < n
        invariant
            n == menus@.len(),
            i <= n,
            out@.len() == i,
            forall|k: int|
                0 <= k < i ==> jsonv_of(#[trigger] out@[k]) == menu_jsonv(menus@[k]@),
        decreases n - i,
    {
        let j = menu_to_json(&menus[i]);
        out.push(j);
        i += 1;
    }
    proof {
        lemma_jsonv_list_index(out, 0);
        let want = menus_jsonv(Seq::new(menus@.len(), |i: int| menus@[i]@));
        assert forall|k: int| 0 <= k < out@.len() implies jsonv_list(out, 0)[k] == want[k] by {
            assert(jsonv_list(out, 0)[k] == jsonv_of(out@[k]));
        }
        assert(jsonv_list(out, 0) =~= want);
    }
    out
}

/// Executable encoding of the menu-generation reply.
pub fn genmenus_to_json(v: &crate::types::GenerateMenusResponse) -> (r: Json)
    requires
        v.generated_count <= u64::MAX,
    ensures
        r@ == genmenus_jsonv(
            Seq::new(v.menus@.len(), |i: int| v.menus@[i]@),
            v.generated_count as u64,
        ),
{
    let menus = menus_to_json(&v.menus);
    let mut ms: Vec<Member> = Vec::new();
    ms.push(Member { key: String::from_str("menus"), val: Json::Arr(menus) });
    ms.push(
        Member {
            key: String::from_str("generatedCount"),
            val: Json::Num(Decimal::whole(v.generated_count as u64)),
        },
    );
    let r = Json::Obj(ms);
    proof {
        lemma_memberv_list_index(ms, 0);
        let got = memberv_list(ms, 0);
        let mv = Seq::new(v.menus@.len(), |i: int| v.menus@[i]@);
        let want = genmenus_jsonv(mv, v.generated_count as u64)->Obj_0;
        assert(ms@.len() == 2);
        assert(memberv_of(ms@[0]).key == "menus"@);
        assert(memberv_of(ms@[0]).val == JsonV::Arr(menus_jsonv(mv)));
        assert(got[0] == want[0]);
        assert(memberv_of(ms@[1]).key == "generatedCount"@);
        assert(ms@[1].val->Num_0@ =~= (DecV { neg: false, int_part: v.generated_count as u64, frac: Seq::<u8>::empty() }));
        assert(memberv_of(ms@[1]).val == want[1].val);
        assert(got[1] == want[1]);
        assert(got =~= want);
    }
    r
}

/// The wire form of the model-information reply, camel-case keys.
pub open spec fn info_jsonv(v: crate::types::AIInfoResponse) -> JsonV {
    JsonV::Obj(
        seq![
            MemberV { key: "modelName"@, val: JsonV::Str(v.model_name@) },
            MemberV { key: "provider"@, val: JsonV::Str(v.provider@) },
            MemberV { key: "modelId"@, val: JsonV::Str(v.model_id@) },
        ],
    )
}

/// Executable encoding of the model-information reply.
pub fn info_to_json(v: &crate::types::AIInfoResponse) -> (r: Json)
    ensures
        r@ == info_jsonv(*v),
{
    let mut ms: Vec<Member> = Vec::new();
    ms.push(Member { key: String::from_str("modelName"), val: Json::Str(v.model_name.clone()) });
    ms.push(Member { key: String::from_str("provider"), val: Json::Str(v.provider.clone()) });
    ms.push(Member { key: String::from_str("modelId"), val: Json::Str(v.model_id.clone()) });
    let r = Json::Obj(ms);
    proof {
        lemma_memberv_list_index(ms, 0);
        let got = memberv_list(ms, 0);
        let want = info_jsonv(*v)->Obj_0;
        assert(ms@.len() == 3);
        assert(memberv_of(ms@[0]).key == "modelName"@);
        assert(memberv_of(ms@[0]).val == JsonV::Str(v.model_name@));
        assert(got[0] == want[0]);
        assert(memberv_of(ms@[1]).key == "provider"@);
        assert(memberv_of(ms@[1]).val == JsonV::Str(v.provider@));
        assert(got[1] == want[1]);
        assert(memberv_of(ms@[2]).key == "modelId"@);
        assert(memberv_of(ms@[2]).val == JsonV::Str(v.model_id@));
        assert(got[2] == want[2]);
        assert(got =~= want);
    }
    r
}

} // verus!
