//! The history store: the domain's view of the table.
//!
//! Training sets are appended under `USER#u / WORKOUT#ts`, menus are
//! written under `USER#u / MENU#part#minutes` and so replace the prior
//! menu for the same slot. Queries decode each stored document and drop
//! any row that does not decode as the expected record kind, so one
//! foreign row can never fail a whole query.

use vstd::prelude::*;
use vstd::string::*;
use crate::codec::{menu_jsonv, menu_of_jsonv, menu_from_json, workout_from_json, workout_jsonv, workout_of_jsonv, workout_to_json, menu_to_json};
use crate::json::{Json, JsonV};
use crate::keys::{menu_sk, menu_sk_of, user_pk, user_pk_of, workout_prefix, workout_prefix_of, workout_sk, workout_sk_of};
use crate::table::{ItemV, Table, query_spec, spec_put, table_get};
use crate::types::{TimedMenu, WorkoutSet, WorkoutSetV};

verus! {

/// The training sets among a list of stored documents, in order; rows
/// that do not decode as training sets are dropped, not surfaced.
pub open spec fn decode_workouts(vals: Seq<JsonV>) -> Seq<WorkoutSetV>
    decreases vals.len(),
{
    if vals.len() == 0 {
        Seq::<WorkoutSetV>::empty()
    } else {
        (match workout_of_jsonv(vals[0]) {
            Some(w) => seq![w],
            None => Seq::<WorkoutSetV>::empty(),
        }) + decode_workouts(vals.drop_first())
    }
}

/// Decoding one more document extends the decoded list at the end.
pub proof fn lemma_decode_workouts_push(vals: Seq<JsonV>, x: JsonV)
    ensures
        decode_workouts(vals.push(x)) == decode_workouts(vals) + (match workout_of_jsonv(x) {
            Some(w) => seq![w],
            None => Seq::<WorkoutSetV>::empty(),
        }),
    decreases vals.len(),
{
    if vals.len() == 0 {
        assert(vals.push(x)[0] == x);
        assert(vals.push(x).drop_first() =~= Seq::<JsonV>::empty());
        assert(decode_workouts(Seq::<JsonV>::empty()) == Seq::<WorkoutSetV>::empty());
        assert(decode_workouts(vals.push(x)) =~= decode_workouts(vals) + (
        match workout_of_jsonv(x) {
            Some(w) => seq![w],
            None => Seq::<WorkoutSetV>::empty(),
        }));
    } else {
        assert(vals.push(x)[0] == vals[0]);
        assert(vals.push(x).drop_first() =~= vals.drop_first().push(x));
        lemma_decode_workouts_push(vals.drop_first(), x);
        assert(decode_workouts(vals.push(x)) =~= decode_workouts(vals) + (
        match workout_of_jsonv(x) {
            Some(w) => seq![w],
            None => Seq::<WorkoutSetV>::empty(),
        }));
    }
}

/// Decodes every training set in a list of documents, dropping the rest.
pub fn decode_workout_rows(vals: &Vec<Json>) -> (r: Vec<WorkoutSet>)
    ensures
        Seq::new(r@.len(), |i: int| r@[i]@) == decode_workouts(
            Seq::new(vals@.len(), |i: int| vals@[i]@),
        ),
{
    let ghost vv = Seq::new(vals@.len(), |i: int| vals@[i]@);
    let n = vals.len();
    let mut out: Vec<WorkoutSet> = Vec::new();
    let mut i: usize = 0;
    proof {
        assert(vv.take(0) =~= Seq::<JsonV>::empty());
        assert(Seq::new(out@.len(), |k: int| out@[k]@) =~= decode_workouts(vv.take(0)));
    }
    while i < n
        invariant
            n == vals@.len(),
            i <= n,
            vv == Seq::new(vals@.len(), |k: int| vals@[k]@),
            Seq::new(out@.len(), |k: int| out@[k]@) == decode_workouts(vv.take(i as int)),
        decreases n - i,
    {
        let ghost outv0 = Seq::new(out@.len(), |k: int| out@[k]@);
        let dec = workout_from_json(&vals[i]);
        let ghost d0 = decode_workouts(vv.take(i as int));
        match dec {
            Some(w) => {
                out.push(w);
            },
            None => {},
        }
        proof {
            assert(vv[i as int] == vals@[i as int]@);
            assert(vv.take(i + 1) =~= vv.take(i as int).push(vv[i as int]));
            lemma_decode_workouts_push(vv.take(i as int), vv[i as int]);
            let d1 = decode_workouts(vv.take(i + 1));
            assert(outv0.len() == d0.len());
            assert forall|k: int| 0 <= k < out@.len() implies Seq::new(
                out@.len(),
                |k2: int| out@[k2]@,
            )[k] == d1[k] by {
                if k < outv0.len() {
                    assert(out@[k]@ == outv0[k]);
                    assert(d1[k] == d0[k]);
                }
            }
            assert(out@.len() == d1.len());
            assert(Seq::new(out@.len(), |k: int| out@[k]@) =~= d1);
        }
        i += 1;
    }
    proof {
        assert(vv.take(n as int) =~= vv);
    }
    out
}

impl Table {
    /// Writes one training set under its derived key; an event with the
    /// same user and timestamp replaces the stored one.
    pub fn append_event(&mut self, w: &WorkoutSet)
        requires
            old(self).wf(),
        ensures
            final(self).wf(),
            final(self)@ == spec_put(
                old(self)@,
                ItemV {
                    pk: user_pk(w.user_id@),
                    sk: workout_sk(w.timestamp@),
                    val: workout_jsonv(w@),
                },
            ),
    {
        let pk = w.pk();
        let sk = w.sk();
        let val = workout_to_json(w);
        self.put(pk, sk, val);
    }

    /// All training sets of one user whose timestamp is at or after the
    /// cutoff (when one is given), oldest first, or newest first and
    /// capped when asked.
    pub fn query_workouts(
        &self,
        user: &str,
        cutoff_ts: Option<&str>,
        newest_first: bool,
        limit: Option<usize>,
    ) -> (r: Vec<WorkoutSet>)
        ensures
            Seq::new(r@.len(), |i: int| r@[i]@) == decode_workouts(
                query_spec(
                    self@,
                    user_pk(user@),
                    workout_prefix(),
                    match cutoff_ts {
                        Some(c) => Some(workout_sk(c@)),
                        None => None,
                    },
                    newest_first,
                    limit,
                ),
            ),
    {
        let pk = user_pk_of(user);
        let prefix = workout_prefix_of();
        let rows = match cutoff_ts {
            Some(c) => {
                let csk = workout_sk_of(c);
                self.query(pk.as_str(), prefix.as_str(), Some(csk.as_str()), newest_first, limit)
            },
            None => self.query(pk.as_str(), prefix.as_str(), None, newest_first, limit),
        };
        decode_workout_rows(&rows)
    }

    /// Writes one generated menu under its derived key, replacing the
    /// prior menu for the same user, body part and duration.
    pub fn put_menu(&mut self, user: &str, m: &TimedMenu)
        requires
            old(self).wf(),
        ensures
            final(self).wf(),
            final(self)@ == spec_put(
                old(self)@,
                ItemV {
                    pk: user_pk(user@),
                    sk: menu_sk(m.body_part@, Some(m.duration_minutes)),
                    val: menu_jsonv(m@),
                },
            ),
    {
        let pk = user_pk_of(user);
        let sk = menu_sk_of(m.body_part.as_str(), Some(m.duration_minutes));
        let val = menu_to_json(m);
        self.put(pk, sk, val);
    }

    /// Point lookup of the current menu for one user, body part and
    /// duration; a stored row that is not a menu yields nothing.
    pub fn get_menu(&self, user: &str, part: &str, duration: Option<u32>) -> (r: Option<TimedMenu>)
        ensures
            match table_get(self@, user_pk(user@), menu_sk(part@, duration)) {
                Some(v) => (match r {
                    Some(m) => menu_of_jsonv(v) == Some(m@),
                    None => menu_of_jsonv(v) is None,
                }),
                None => r is None,
            },
    {
        let pk = user_pk_of(user);
        let sk = menu_sk_of(part, duration);
        match self.get(pk.as_str(), sk.as_str()) {
            Some(v) => menu_from_json(v),
            None => None,
        }
    }
}

} // verus!
