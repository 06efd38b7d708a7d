//! The key schema of the single storage table.
//!
//! Every record's address is derived from its own fields: the partition
//! key groups records per user, the sort key encodes the record kind and
//! its ordering. ISO-8601 timestamps sort lexicographically in time order,
//! so workout sort keys inherit that order.

use vstd::prelude::*;
use vstd::string::*;
use crate::digits::{dec_digits, render_u64};
use crate::text::{concat2, lex_le, lemma_lex_le_append_prefix, push_char};

verus! {

/// `USER#<user_id>`.
pub open spec fn user_pk(user: Seq<char>) -> Seq<char> {
    seq!['U', 'S', 'E', 'R', '#'] + user
}

/// `WORKOUT#<timestamp>`.
pub open spec fn workout_sk(ts: Seq<char>) -> Seq<char> {
    seq!['W', 'O', 'R', 'K', 'O', 'U', 'T', '#'] + ts
}

/// The prefix shared by all workout sort keys.
pub open spec fn workout_prefix() -> Seq<char> {
    seq!['W', 'O', 'R', 'K', 'O', 'U', 'T', '#']
}

/// `MENU#<body_part>`, or `MENU#<body_part>#<minutes>` for a menu bound to
/// a session duration.
pub open spec fn menu_sk(part: Seq<char>, duration: Option<u32>) -> Seq<char> {
    match duration {
        None => seq!['M', 'E', 'N', 'U', '#'] + part,
        Some(d) => seq!['M', 'E', 'N', 'U', '#'] + part + seq!['#'] + dec_digits(d as int),
    }
}

/// Executable partition key.
pub fn user_pk_of(user: &str) -> (r: String)
    ensures
        r@ == user_pk(user@),
{
    let r = concat2("USER#", user);
    proof {
        reveal_strlit("USER#");
        assert("USER#"@ =~= seq!['U', 'S', 'E', 'R', '#']);
    }
    r
}

/// Executable workout sort key.
pub fn workout_sk_of(ts: &str) -> (r: String)
    ensures
        r@ == workout_sk(ts@),
{
    let r = concat2("WORKOUT#", ts);
    proof {
        reveal_strlit("WORKOUT#");
        assert("WORKOUT#"@ =~= seq!['W', 'O', 'R', 'K', 'O', 'U', 'T', '#']);
    }
    r
}

/// Executable workout prefix.
pub fn workout_prefix_of() -> (r: String)
    ensures
        r@ == workout_prefix(),
{
    let r = String::from_str("WORKOUT#");
    proof {
        reveal_strlit("WORKOUT#");
        assert("WORKOUT#"@ =~= seq!['W', 'O', 'R', 'K', 'O', 'U', 'T', '#']);
    }
    r
}

/// Executable menu sort key.
pub fn menu_sk_of(part: &str, duration: Option<u32>) -> (r: String)
    ensures
        r@ == menu_sk(part@, duration),
{
    let mut r = concat2("MENU#", part);
    proof {
        reveal_strlit("MENU#");
        assert("MENU#"@ =~= seq!['M', 'E', 'N', 'U', '#']);
    }
    match duration {
        None => r,
        Some(d) => {
            push_char(&mut r, '#');
            let ds = render_u64(d as u64);
            r.append(ds.as_str());
            proof {
                assert(r@ =~= seq!['M', 'E', 'N', 'U', '#'] + part@ + seq!['#'] + dec_digits(
                    d as int,
                ));
            }
            r
        },
    }
}

/// The key derivation is a function of the record's fields alone, and the
/// sort key orders exactly as the timestamp does.
pub proof fn lemma_workout_sk_orders_by_timestamp(t1: Seq<char>, t2: Seq<char>)
    ensures
        lex_le(workout_sk(t1), workout_sk(t2)) == lex_le(t1, t2),
{
    lemma_lex_le_append_prefix(workout_prefix(), t1, t2);
}

/// Workout keys and menu keys can never collide: their leading characters
/// already differ.
pub proof fn lemma_workout_menu_sk_disjoint(ts: Seq<char>, part: Seq<char>, duration: Option<u32>)
    ensures
        workout_sk(ts) != menu_sk(part, duration),
{
    assert(workout_sk(ts)[0] == 'W');
    match duration {
        None => {
            assert(menu_sk(part, duration)[0] == 'M');
        },
        Some(d) => {
            assert(menu_sk(part, duration)[0] == 'M');
        },
    }
}

/// A body part that contains no `#` cannot make a duration-bound menu key
/// collide with a plain menu key.
pub proof fn lemma_menu_sk_variants_disjoint(a: Seq<char>, b: Seq<char>, d: u32)
    requires
        forall|i: int| 0 <= i < a.len() ==> #[trigger] a[i] != '#',
    ensures
        menu_sk(a, None) != menu_sk(b, Some(d)),
{
    let ka = menu_sk(a, None);
    let kb = menu_sk(b, Some(d));
    crate::digits::lemma_dec_digits_shape(d as int);
    if ka == kb {
        assert(ka.len() == 5 + a.len());
        assert(kb.len() == 5 + b.len() + 1 + dec_digits(d as int).len());
        assert(a.len() == b.len() + 1 + dec_digits(d as int).len());
        assert(a.len() > b.len());
        let pos: int = 5 + b.len() as int;
        assert(kb[pos] == '#');
        assert(ka[pos] == a[b.len() as int]);
        assert(a[b.len() as int] != '#');
        assert(false);
    }
}

} // verus!
