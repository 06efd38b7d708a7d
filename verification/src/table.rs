//! The single storage table, modelled exactly.
//!
//! One sorted list of `(partition key, sort key, document)` rows stands
//! for the key-value store. Writing under an existing key replaces the
//! row in place — the append-only history never collides because workout
//! sort keys embed the timestamp, while a regenerated menu deliberately
//! collides and so overwrites its predecessor.

use vstd::prelude::*;
use vstd::string::*;
use crate::json::{Json, JsonV, clone_json};
use crate::text::{
    lemma_lex_le_antisym, lemma_lex_le_total, lemma_lex_le_trans, lex_le,
    lex_lt, str_eq, str_has_prefix, str_le,
};

verus! {

/// One stored row.
pub struct Item {
    pub pk: String,
    pub sk: String,
    pub val: Json,
}

/// The mathematical shape of a row.
#[verifier::ext_equal]
pub struct ItemV {
    pub pk: Seq<char>,
    pub sk: Seq<char>,
    pub val: JsonV,
}

impl View for Item {
    type V = ItemV;

    open spec fn view(&self) -> ItemV {
        ItemV { pk: self.pk@, sk: self.sk@, val: self.val@ }
    }
}

/// Strict order on row keys: by partition key, then by sort key.
pub open spec fn key_lt(a: ItemV, b: ItemV) -> bool {
    lex_lt(a.pk, b.pk) || (a.pk == b.pk && lex_lt(a.sk, b.sk))
}

/// Equal row keys.
pub open spec fn key_eq(a: ItemV, b: ItemV) -> bool {
    a.pk == b.pk && a.sk == b.sk
}

/// Rows strictly ascending, hence keys unique.
pub open spec fn sorted_items(s: Seq<ItemV>) -> bool {
    forall|i: int, j: int| 0 <= i < j < s.len() ==> key_lt(#[trigger] s[i], #[trigger] s[j])
}

/// Key order is total: below, above, or the same key.
pub proof fn lemma_key_total(a: ItemV, b: ItemV)
    ensures
        key_lt(a, b) || key_lt(b, a) || key_eq(a, b),
{
    lemma_lex_le_total(a.pk, b.pk);
    lemma_lex_le_total(a.sk, b.sk);
    if a.pk == b.pk {
    } else {
        if lex_le(a.pk, b.pk) {
        } else {
        }
    }
}

/// Key order is asymmetric and excludes equality.
pub proof fn lemma_key_asym(a: ItemV, b: ItemV)
    ensures
        key_lt(a, b) ==> !key_lt(b, a),
        key_lt(a, b) ==> !key_eq(a, b),
{
    if key_lt(a, b) && key_lt(b, a) {
        if lex_lt(a.pk, b.pk) || lex_lt(b.pk, a.pk) {
            lemma_lex_le_antisym(a.pk, b.pk);
        } else {
            lemma_lex_le_antisym(a.sk, b.sk);
        }
    }
}

/// Key order is transitive.
pub proof fn lemma_key_trans(a: ItemV, b: ItemV, c: ItemV)
    requires
        key_lt(a, b),
        key_lt(b, c),
    ensures
        key_lt(a, c),
{
    if a.pk == b.pk && b.pk == c.pk {
        lemma_lex_le_trans(a.sk, b.sk, c.sk);
        if a.sk == c.sk {
            lemma_lex_le_antisym(a.sk, b.sk);
        }
    } else if a.pk == b.pk {
    } else if b.pk == c.pk {
    } else {
        lemma_lex_le_trans(a.pk, b.pk, c.pk);
        if a.pk == c.pk {
            lemma_lex_le_antisym(a.pk, b.pk);
        }
    }
}

/// The row stored under a key, walking the rows in order.
pub open spec fn table_get(s: Seq<ItemV>, pk: Seq<char>, sk: Seq<char>) -> Option<JsonV>
    decreases s.len(),
{
    if s.len() == 0 {
        None
    } else if s[0].pk == pk && s[0].sk == sk {
        Some(s[0].val)
    } else {
        table_get(s.drop_first(), pk, sk)
    }
}

/// Writing a row into a sorted list: replace on an equal key, otherwise
/// place in order.
pub open spec fn spec_put(s: Seq<ItemV>, it: ItemV) -> Seq<ItemV>
    decreases s.len(),
{
    if s.len() == 0 {
        seq![it]
    } else if key_eq(it, s[0]) {
        seq![it] + s.drop_first()
    } else if key_lt(it, s[0]) {
        seq![it] + s
    } else {
        seq![s[0]] + spec_put(s.drop_first(), it)
    }
}

/// Writing keeps the list sorted.
pub proof fn lemma_spec_put_sorted(s: Seq<ItemV>, it: ItemV)
    requires
        sorted_items(s),
    ensures
        sorted_items(spec_put(s, it)),
    decreases s.len(),
{
    if s.len() == 0 {
    } else if key_eq(it, s[0]) {
        let r = seq![it] + s.drop_first();
        assert forall|i: int, j: int| 0 <= i < j < r.len() implies key_lt(r[i], r[j]) by {
            if i == 0 {
                assert(r[j] == s[j]);
                assert(key_lt(s[0], s[j]));
            } else {
                assert(r[i] == s[i] && r[j] == s[j]);
            }
        }
    } else if key_lt(it, s[0]) {
        let r = seq![it] + s;
        assert forall|i: int, j: int| 0 <= i < j < r.len() implies key_lt(r[i], r[j]) by {
            if i == 0 {
                assert(r[j] == s[j - 1]);
                if j == 1 {
                } else {
                    assert(key_lt(s[0], s[j - 1]));
                    lemma_key_trans(it, s[0], s[j - 1]);
                }
            } else {
                assert(r[i] == s[i - 1] && r[j] == s[j - 1]);
            }
        }
    } else {
        let tail = s.drop_first();
        assert(sorted_items(tail)) by {
            assert(forall|i: int, j: int|
                0 <= i < j < tail.len() ==> #[trigger] tail[i] == s[i + 1] && #[trigger] tail[j]
                    == s[j + 1]);
        }
        lemma_spec_put_sorted(tail, it);
        lemma_key_total(it, s[0]);
        assert(key_lt(s[0], it));
        let rt = spec_put(tail, it);
        let r = seq![s[0]] + rt;
        lemma_spec_put_members(tail, it);
        assert forall|i: int, j: int| 0 <= i < j < r.len() implies key_lt(r[i], r[j]) by {
            if i == 0 {
                let x = rt[j - 1];
                assert(key_lt(s[0], x)) by {
                    if x == it {
                    } else {
                        let k = choose|k: int| 0 <= k < tail.len() && tail[k] == x;
                        assert(key_lt(s[0], s[k + 1]));
                        assert(s[k + 1] == tail[k]);
                    }
                }
            } else {
                assert(r[i] == rt[i - 1] && r[j] == rt[j - 1]);
                assert(key_lt(rt[i - 1], rt[j - 1]));
            }
        }
    }
}

/// Every row of a written list is the new row or one of the old rows.
pub proof fn lemma_spec_put_members(s: Seq<ItemV>, it: ItemV)
    ensures
        forall|j: int|
            0 <= j < spec_put(s, it).len() ==> #[trigger] spec_put(s, it)[j] == it || exists|k: int|
                0 <= k < s.len() && s[k] == spec_put(s, it)[j],
    decreases s.len(),
{
    if s.len() == 0 {
    } else if key_eq(it, s[0]) {
        let r = spec_put(s, it);
        assert forall|j: int| 0 <= j < r.len() implies r[j] == it || exists|k: int|
            0 <= k < s.len() && s[k] == r[j] by {
            if j > 0 {
                assert(s[j] == r[j]);
            }
        }
    } else if key_lt(it, s[0]) {
        let r = spec_put(s, it);
        assert forall|j: int| 0 <= j < r.len() implies r[j] == it || exists|k: int|
            0 <= k < s.len() && s[k] == r[j] by {
            if j > 0 {
                assert(s[j - 1] == r[j]);
            }
        }
    } else {
        lemma_spec_put_members(s.drop_first(), it);
        let r = spec_put(s, it);
        let rt = spec_put(s.drop_first(), it);
        assert forall|j: int| 0 <= j < r.len() implies r[j] == it || exists|k: int|
            0 <= k < s.len() && s[k] == r[j] by {
            if j == 0 {
                assert(s[0] == r[0]);
            } else {
                assert(r[j] == rt[j - 1]);
                if rt[j - 1] == it {
                } else {
                    let k = choose|k: int|
                        0 <= k < s.drop_first().len() && s.drop_first()[k] == rt[j - 1];
                    assert(s[k + 1] == s.drop_first()[k]);
                }
            }
        }
    }
}

/// After a write, a lookup sees the new row under its key and the old
/// rows under every other key.
pub proof fn lemma_put_get(s: Seq<ItemV>, it: ItemV, pk: Seq<char>, sk: Seq<char>)
    ensures
        table_get(spec_put(s, it), pk, sk) == if pk == it.pk && sk == it.sk {
            Some(it.val)
        } else {
            table_get(s, pk, sk)
        },
    decreases s.len(),
{
    let r = spec_put(s, it);
    if s.len() == 0 {
        assert(r == seq![it]);
        assert(r.drop_first() =~= Seq::<ItemV>::empty());
    } else if key_eq(it, s[0]) {
        assert(r == seq![it] + s.drop_first());
        assert(r[0] == it);
        assert(r.drop_first() =~= s.drop_first());
        if pk == it.pk && sk == it.sk {
        } else {
            assert(!(s[0].pk == pk && s[0].sk == sk));
        }
    } else if key_lt(it, s[0]) {
        assert(r == seq![it] + s);
        assert(r[0] == it);
        assert(r.drop_first() =~= s);
    } else {
        lemma_key_total(it, s[0]);
        lemma_key_asym(s[0], it);
        assert(r == seq![s[0]] + spec_put(s.drop_first(), it));
        assert(r[0] == s[0]);
        assert(r.drop_first() =~= spec_put(s.drop_first(), it));
        lemma_put_get(s.drop_first(), it, pk, sk);
        if s[0].pk == pk && s[0].sk == sk {
            assert(!(pk == it.pk && sk == it.sk)) by {
                assert(!key_eq(it, s[0]));
            }
        }
    }
}

/// Writing the same row twice is the same as writing it once: a write
/// under a colliding key is an idempotent replacement.
pub proof fn lemma_spec_put_idempotent(s: Seq<ItemV>, it: ItemV)
    ensures
        spec_put(spec_put(s, it), it) == spec_put(s, it),
    decreases s.len(),
{
    let r = spec_put(s, it);
    if s.len() == 0 {
        assert(r == seq![it]);
        assert(key_eq(it, r[0]));
        assert(spec_put(r, it) =~= r);
    } else if key_eq(it, s[0]) {
        assert(r == seq![it] + s.drop_first());
        assert(r[0] == it);
        assert(key_eq(it, r[0]));
        assert(spec_put(r, it) =~= r);
    } else if key_lt(it, s[0]) {
        assert(r == seq![it] + s);
        assert(r[0] == it);
        assert(key_eq(it, r[0]));
        assert(spec_put(r, it) =~= r);
    } else {
        lemma_key_total(it, s[0]);
        lemma_key_asym(s[0], it);
        assert(key_lt(s[0], it));
        assert(r == seq![s[0]] + spec_put(s.drop_first(), it));
        assert(r[0] == s[0]);
        assert(!key_eq(it, r[0]));
        assert(!key_lt(it, r[0]));
        lemma_spec_put_idempotent(s.drop_first(), it);
        assert(r.drop_first() =~= spec_put(s.drop_first(), it));
        assert(spec_put(r, it) =~= r);
    }
}

/// Whether a row belongs to a query: same user, sort key under the given
/// prefix, and — when a cutoff is given — sort key at or after it.
pub open spec fn row_match(
    it: ItemV,
    pk: Seq<char>,
    prefix: Seq<char>,
    cutoff: Option<Seq<char>>,
) -> bool {
    it.pk == pk && prefix.is_prefix_of(it.sk) && (match cutoff {
        Some(c) => lex_le(c, it.sk),
        None => true,
    })
}

/// The rows of a query, in stored order.
pub open spec fn filter_rows(
    s: Seq<ItemV>,
    pk: Seq<char>,
    prefix: Seq<char>,
    cutoff: Option<Seq<char>>,
) -> Seq<ItemV>
    decreases s.len(),
{
    if s.len() == 0 {
        Seq::<ItemV>::empty()
    } else {
        (if row_match(s[0], pk, prefix, cutoff) {
            seq![s[0]]
        } else {
            Seq::<ItemV>::empty()
        }) + filter_rows(s.drop_first(), pk, prefix, cutoff)
    }
}

/// Filtering one more row extends the filtered list at the end.
pub proof fn lemma_filter_rows_push(
    s: Seq<ItemV>,
    x: ItemV,
    pk: Seq<char>,
    prefix: Seq<char>,
    cutoff: Option<Seq<char>>,
)
    ensures
        filter_rows(s.push(x), pk, prefix, cutoff) == filter_rows(s, pk, prefix, cutoff) + (
        if row_match(x, pk, prefix, cutoff) {
            seq![x]
        } else {
            Seq::<ItemV>::empty()
        }),
    decreases s.len(),
{
    if s.len() == 0 {
        assert(s.push(x)[0] == x);
        assert(s.push(x).drop_first() =~= Seq::<ItemV>::empty());
        assert(filter_rows(Seq::<ItemV>::empty(), pk, prefix, cutoff) == Seq::<ItemV>::empty());
        assert(filter_rows(s.push(x), pk, prefix, cutoff) =~= filter_rows(s, pk, prefix, cutoff)
            + (if row_match(x, pk, prefix, cutoff) {
            seq![x]
        } else {
            Seq::<ItemV>::empty()
        }));
    } else {
        assert(s.push(x)[0] == s[0]);
        assert(s.push(x).drop_first() =~= s.drop_first().push(x));
        lemma_filter_rows_push(s.drop_first(), x, pk, prefix, cutoff);
        assert(filter_rows(s.push(x), pk, prefix, cutoff) =~= filter_rows(s, pk, prefix, cutoff)
            + (if row_match(x, pk, prefix, cutoff) {
            seq![x]
        } else {
            Seq::<ItemV>::empty()
        }));
    }
}

/// The documents of a list of rows.
pub open spec fn vals_of(s: Seq<ItemV>) -> Seq<JsonV> {
    Seq::new(s.len(), |i: int| s[i].val)
}

/// What a query returns: the matching documents in stored (ascending key)
/// order, newest first when asked, capped when asked.
pub open spec fn query_spec(
    s: Seq<ItemV>,
    pk: Seq<char>,
    prefix: Seq<char>,
    cutoff: Option<Seq<char>>,
    newest_first: bool,
    limit: Option<usize>,
) -> Seq<JsonV> {
    let m = vals_of(filter_rows(s, pk, prefix, cutoff));
    let o = if newest_first {
        m.reverse()
    } else {
        m
    };
    match limit {
        Some(l) => if o.len() <= l {
            o
        } else {
            o.take(l as int)
        },
        None => o,
    }
}

/// The in-memory table.
pub struct Table {
    items: Vec<Item>,
}

impl View for Table {
    type V = Seq<ItemV>;

    closed spec fn view(&self) -> Seq<ItemV> {
        Seq::new(self.items@.len(), |i: int| self.items@[i]@)
    }
}

impl Table {
    /// Rows strictly sorted by key.
    pub open spec fn wf(&self) -> bool {
        sorted_items(self@)
    }

    /// An empty table.
    pub fn new() -> (r: Table)
        ensures
            r@ == Seq::<ItemV>::empty(),
            r.wf(),
    {
        let r = Table { items: Vec::new() };
        proof {
            assert(r@ =~= Seq::<ItemV>::empty());
        }
        r
    }

    /// How many rows the table holds.
    pub fn len(&self) -> (r: usize)
        ensures
            r == self@.len(),
    {
        self.items.len()
    }

    /// Writes one row; an existing row under the same key is replaced.
    pub fn put(&mut self, pk: String, sk: String, val: Json)
        requires
            old(self).wf(),
        ensures
            final(self).wf(),
            final(self)@ == spec_put(old(self)@, ItemV { pk: pk@, sk: sk@, val: val@ }),
    {
        let ghost itv = ItemV { pk: pk@, sk: sk@, val: val@ };
        let ghost s0 = self@;
        let n = self.items.len();
        let mut idx: usize = 0;
        while row_below(&self.items, idx, pk.as_str(), sk.as_str())
            invariant
                n == self.items@.len(),
                idx <= n,
                self@ == s0,
                sorted_items(s0),
                itv.pk == pk@,
                itv.sk == sk@,
                forall|k: int| 0 <= k < idx ==> key_lt(#[trigger] s0[k], itv),
            decreases n - idx,
        {
            proof {
                assert(s0[idx as int] == self.items@[idx as int]@);
                assert(key_lt(s0[idx as int], ItemV { pk: pk@, sk: sk@, val: JsonV::Null }));
                assert(key_lt(s0[idx as int], itv));
            }
            idx += 1;
        }
        proof {
            assert(idx < n ==> !key_lt(s0[idx as int], itv)) by {
                if idx < n {
                    assert(s0[idx as int] == self.items@[idx as int]@);
                    assert(!key_lt(s0[idx as int], ItemV { pk: pk@, sk: sk@, val: JsonV::Null }));
                }
            }
        }
        let same = if idx < n {
            let p_eq = str_eq(self.items[idx].pk.as_str(), pk.as_str());
            let s_eq = str_eq(self.items[idx].sk.as_str(), sk.as_str());
            p_eq && s_eq
        } else {
            false
        };
        if same {
            self.items.remove(idx);
            self.items.insert(idx, Item { pk, sk, val });
        } else {
            self.items.insert(idx, Item { pk, sk, val });
        }
        proof {
            lemma_spec_put_at(s0, itv, idx as int);
            assert(final(self)@ =~= spec_put(s0, itv));
            lemma_spec_put_sorted(s0, itv);
        }
    }

    /// Point lookup by exact key.
    pub fn get(&self, pk: &str, sk: &str) -> (r: Option<&Json>)
        ensures
            match r {
                Some(v) => table_get(self@, pk@, sk@) == Some(v@),
                None => table_get(self@, pk@, sk@) is None,
            },
    {
        let n = self.items.len();
        let mut k: usize = 0;
        proof {
            assert(self@.skip(0) =~= self@);
        }
        while k < n
            invariant
                n == self.items@.len(),
                k <= n,
                table_get(self@, pk@, sk@) == table_get(self@.skip(k as int), pk@, sk@),
            decreases n - k,
        {
            proof {
                assert(self@.skip(k as int)[0] == self.items@[k as int]@);
            }
            let p_eq = str_eq(self.items[k].pk.as_str(), pk);
            let s_eq = str_eq(self.items[k].sk.as_str(), sk);
            if p_eq && s_eq {
                return Some(&self.items[k].val);
            }
            proof {
                assert(self@.skip(k as int).drop_first() =~= self@.skip(k + 1));
            }
            k += 1;
        }
        proof {
            assert(self@.skip(k as int).len() == 0);
        }
        None
    }

    /// Range query: all documents whose row matches the user, prefix and
    /// optional cutoff, in ascending key order; reversed and capped on
    /// request.
    pub fn query(
        &self,
        pk: &str,
        prefix: &str,
        cutoff: Option<&str>,
        newest_first: bool,
        limit: Option<usize>,
    ) -> (r: Vec<Json>)
        ensures
            Seq::new(r@.len(), |i: int| r@[i]@) == query_spec(
                self@,
                pk@,
                prefix@,
                match cutoff {
                    Some(c) => Some(c@),
                    None => None,
                },
                newest_first,
                limit,
            ),
    {
        let ghost cv: Option<Seq<char>> = match cutoff {
            Some(c) => Some(c@),
            None => None,
        };
        let n = self.items.len();
        let mut acc: Vec<Json> = Vec::new();
        let mut i: usize = 0;
        proof {
            assert(self@.take(0) =~= Seq::<ItemV>::empty());
            assert(Seq::new(acc@.len(), |k: int| acc@[k]@) =~= vals_of(
                filter_rows(self@.take(0), pk@, prefix@, cv),
            ));
        }
        while i < n
            invariant
                n == self.items@.len(),
                n == self@.len(),
                i <= n,
                cv == (match cutoff {
                    Some(c) => Some(c@),
                    None => None::<Seq<char>>,
                }),
                Seq::new(acc@.len(), |k: int| acc@[k]@) == vals_of(
                    filter_rows(self@.take(i as int), pk@, prefix@, cv),
                ),
            decreases n - i,
        {
            let it = &self.items[i];
            proof {
                assert(self@[i as int] == self.items@[i as int]@);
            }
            let p_eq = str_eq(it.pk.as_str(), pk);
            let pref = str_has_prefix(it.sk.as_str(), prefix);
            let cut_ok = match cutoff {
                Some(c) => str_le(c, it.sk.as_str()),
                None => true,
            };
            let ghost accv0 = Seq::new(acc@.len(), |k: int| acc@[k]@);
            let ghost f0 = filter_rows(self@.take(i as int), pk@, prefix@, cv);
            let matched = p_eq && pref && cut_ok;
            if matched {
                let v = clone_json(&it.val);
                acc.push(v);
            }
            proof {
                assert(self@.take(i + 1) =~= self@.take(i as int).push(self@[i as int]));
                lemma_filter_rows_push(self@.take(i as int), self@[i as int], pk@, prefix@, cv);
                let f1 = filter_rows(self@.take(i + 1), pk@, prefix@, cv);
                let want = vals_of(f1);
                assert(matched == row_match(self@[i as int], pk@, prefix@, cv));
                if matched {
                    assert(f1 == f0 + seq![self@[i as int]]);
                } else {
                    assert(f1 == f0 + Seq::<ItemV>::empty());
                    assert(f1 =~= f0);
                }
                assert forall|k: int| 0 <= k < acc@.len() implies Seq::new(
                    acc@.len(),
                    |k2: int| acc@[k2]@,
                )[k] == want[k] by {
                    if k < accv0.len() {
                        assert(acc@[k]@ == accv0[k]);
                        assert(accv0[k] == vals_of(f0)[k]);
                        assert(vals_of(f0)[k] == f0[k].val);
                        assert(f1[k] == f0[k]);
                    } else {
                        assert(acc@[k]@ == self@[i as int].val);
                        assert(f1[k] == self@[i as int]);
                    }
                }
                assert(accv0.len() == f0.len());
                if matched {
                    assert(acc@.len() == accv0.len() + 1);
                    assert(f1.len() == f0.len() + 1);
                } else {
                    assert(acc@.len() == accv0.len());
                }
                assert(acc@.len() == want.len());
                assert(Seq::new(acc@.len(), |k: int| acc@[k]@) =~= want);
            }
            i += 1;
        }
        proof {
            assert(self@.take(n as int) =~= self@);
        }
        let mut out: Vec<Json>;
        if newest_first {
            out = Vec::new();
            let m = acc.len();
            let mut j: usize = m;
            while j > 0
                invariant
                    m == acc@.len(),
                    j <= m,
                    out@.len() == m - j,
                    forall|k: int|
                        0 <= k < out@.len() ==> (#[trigger] out@[k])@ == acc@[m - 1 - k]@,
                decreases j,
            {
                j -= 1;
                let v = clone_json(&acc[j]);
                out.push(v);
            }
        } else {
            out = acc;
        }
        match limit {
            Some(l) => {
                out.truncate(l);
            },
            None => {},
        }
        proof {
            let mv = vals_of(filter_rows(self@, pk@, prefix@, cv));
            let ov = if newest_first {
                mv.reverse()
            } else {
                mv
            };
            let want = query_spec(self@, pk@, prefix@, cv, newest_first, limit);
            assert(out@.len() == want.len());
            assert forall|k: int| 0 <= k < out@.len() implies (#[trigger] out@[k])@ == want[k] by {
                assert(want[k] == ov[k]);
                if newest_first {
                    assert(ov[k] == mv[mv.len() - 1 - k]);
                } else {
                    assert(ov[k] == mv[k]);
                }
            }
            assert(Seq::new(out@.len(), |i: int| out@[i]@) =~= want);
        }
        out
    }
}

/// The written list is the old rows below the key, the new row, and the
/// old rows above (or past) the key.
pub proof fn lemma_spec_put_at(s: Seq<ItemV>, it: ItemV, idx: int)
    requires
        sorted_items(s),
        0 <= idx <= s.len(),
        forall|k: int| 0 <= k < idx ==> key_lt(#[trigger] s[k], it),
        idx < s.len() ==> !key_lt(s[idx], it),
    ensures
        spec_put(s, it) == if idx < s.len() && key_eq(it, s[idx]) {
            s.take(idx) + seq![it] + s.skip(idx + 1)
        } else {
            s.take(idx) + seq![it] + s.skip(idx)
        },
    decreases idx,
{
    if idx == 0 {
        if s.len() == 0 {
            assert(spec_put(s, it) =~= s.take(0) + seq![it] + s.skip(0));
        } else if key_eq(it, s[0]) {
            assert(spec_put(s, it) =~= s.take(0) + seq![it] + s.skip(1));
        } else {
            lemma_key_total(it, s[0]);
            assert(key_lt(it, s[0]));
            assert(spec_put(s, it) =~= s.take(0) + seq![it] + s.skip(0));
        }
    } else {
        let tail = s.drop_first();
        assert(key_lt(s[0], it));
        lemma_key_asym(s[0], it);
        assert(!key_eq(it, s[0])) by {
            if key_eq(it, s[0]) {
                assert(s[0].pk == it.pk && s[0].sk == it.sk);
            }
        }
        assert(!key_lt(it, s[0]));
        assert(sorted_items(tail)) by {
            assert(forall|i: int, j: int|
                0 <= i < j < tail.len() ==> #[trigger] tail[i] == s[i + 1] && #[trigger] tail[j]
                    == s[j + 1]);
        }
        assert(forall|k: int| 0 <= k < idx - 1 ==> key_lt(#[trigger] tail[k], it)) by {
            assert(forall|k: int| 0 <= k < idx - 1 ==> #[trigger] tail[k] == s[k + 1]);
        }
        assert(idx - 1 < tail.len() ==> !key_lt(tail[idx - 1], it)) by {
            if idx - 1 < tail.len() {
                assert(tail[idx - 1] == s[idx]);
            }
        }
        lemma_spec_put_at(tail, it, idx - 1);
        if idx < s.len() && key_eq(it, s[idx]) {
            assert(tail[idx - 1] == s[idx]);
            assert(spec_put(s, it) =~= s.take(idx) + seq![it] + s.skip(idx + 1)) by {
                assert(tail.take(idx - 1) =~= s.take(idx).drop_first());
                assert(tail.skip(idx) =~= s.skip(idx + 1));
            }
        } else {
            assert(spec_put(s, it) =~= s.take(idx) + seq![it] + s.skip(idx)) by {
                assert(tail.take(idx - 1) =~= s.take(idx).drop_first());
                assert(tail.skip(idx - 1) =~= s.skip(idx));
            }
        }
    }
}

/// Whether the row at `idx` sorts strictly below the key pair.
fn row_below(items: &Vec<Item>, idx: usize, pk: &str, sk: &str) -> (r: bool)
    ensures
        r == (idx < items@.len() && key_lt(
            items@[idx as int]@,
            ItemV { pk: pk@, sk: sk@, val: JsonV::Null },
        )),
{
    if idx < items.len() {
        item_key_lt(&items[idx], pk, sk)
    } else {
        false
    }
}

/// Executable key comparison of a stored row against a key pair.
fn item_key_lt(a: &Item, pk: &str, sk: &str) -> (r: bool)
    ensures
        r == key_lt(a@, ItemV { pk: pk@, sk: sk@, val: JsonV::Null }),
{
    let ple = str_le(a.pk.as_str(), pk);
    let peq = str_eq(a.pk.as_str(), pk);
    if ple && !peq {
        true
    } else if peq {
        let sle = str_le(a.sk.as_str(), sk);
        let seq_ = str_eq(a.sk.as_str(), sk);
        sle && !seq_
    } else {
        false
    }
}

} // verus!
