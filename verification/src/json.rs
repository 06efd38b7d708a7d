//! A small JSON document model with an exactly specified printer.
//!
//! Numbers are kept as decimals (sign, integer part, fraction digits), so
//! the whole model is free of floating point and a printed document can be
//! read back without loss. The printer emits compact JSON: no whitespace,
//! strings escaped only where the escape rules demand it.

use vstd::prelude::*;
use crate::digits::{dec_digits, digit_char, digit_char_of, render_u64};
use crate::text::{clean_str, push_char};

verus! {

/// A decimal number: `(-1)^neg * int_part . frac`, with `frac` the exact
/// digits after the point (possibly empty, trailing zeros preserved).
#[derive(Debug, Clone, PartialEq, Eq)]
pub struct Decimal {
    pub neg: bool,
    pub int_part: u64,
    pub frac: Vec<u8>,
}

/// The mathematical shape of a `Decimal`.
#[verifier::ext_equal]
pub struct DecV {
    pub neg: bool,
    pub int_part: u64,
    pub frac: Seq<u8>,
}

impl View for Decimal {
    type V = DecV;

    open spec fn view(&self) -> DecV {
        DecV { neg: self.neg, int_part: self.int_part, frac: self.frac@ }
    }
}

impl DeepView for Decimal {
    type V = DecV;

    open spec fn deep_view(&self) -> DecV {
        self@
    }
}

/// Fraction digits are digits.
pub open spec fn wf_dec(d: DecV) -> bool {
    forall|i: int| 0 <= i < d.frac.len() ==> #[trigger] d.frac[i] < 10
}

impl Decimal {
    /// A whole number.
    pub fn whole(n: u64) -> (r: Decimal)
        ensures
            r@ == (DecV { neg: false, int_part: n, frac: Seq::<u8>::empty() }),
            wf_dec(r@),
    {
        let r = Decimal { neg: false, int_part: n, frac: Vec::new() };
        assert(r@.frac =~= Seq::<u8>::empty());
        r
    }

    /// A nonnegative number with one digit after the point.
    pub fn with_tenths(n: u64, tenth: u8) -> (r: Decimal)
        requires
            tenth <= 9,
        ensures
            r@ == (DecV { neg: false, int_part: n, frac: seq![tenth] }),
            wf_dec(r@),
    {
        let mut frac: Vec<u8> = Vec::new();
        frac.push(tenth);
        let r = Decimal { neg: false, int_part: n, frac };
        assert(r@.frac =~= seq![tenth]);
        r
    }
}

/// One key/value pair of a JSON object.
#[derive(Debug, PartialEq, Eq)]
pub struct Member {
    pub key: String,
    pub val: Json,
}

/// The mathematical shape of a `Member`.
#[verifier::ext_equal]
pub struct MemberV {
    pub key: Seq<char>,
    pub val: JsonV,
}

/// A JSON document.
#[derive(Debug, PartialEq, Eq)]
pub enum Json {
    Null,
    Bool(bool),
    Num(Decimal),
    Str(String),
    Arr(Vec<Json>),
    Obj(Vec<Member>),
}

/// The mathematical shape of a `Json` document.
#[verifier::ext_equal]
pub enum JsonV {
    Null,
    Bool(bool),
    Num(DecV),
    Str(Seq<char>),
    Arr(Seq<JsonV>),
    Obj(Seq<MemberV>),
}

/// The shape of a document, by mutual recursion with its element lists.
pub open spec fn jsonv_of(v: Json) -> JsonV
    decreases v, 1int, 0int,
{
    match v {
        Json::Null => JsonV::Null,
        Json::Bool(b) => JsonV::Bool(b),
        Json::Num(d) => JsonV::Num(d@),
        Json::Str(s) => JsonV::Str(s@),
        Json::Arr(es) => JsonV::Arr(jsonv_list(es, 0)),
        Json::Obj(ms) => JsonV::Obj(memberv_list(ms, 0)),
    }
}

/// The shapes of the elements of `es` from index `i` on.
pub open spec fn jsonv_list(es: Vec<Json>, i: int) -> Seq<JsonV>
    decreases es, 0int, es@.len() - i,
{
    if i < 0 || i >= es@.len() {
        Seq::<JsonV>::empty()
    } else {
        seq![jsonv_of(es@[i])] + jsonv_list(es, i + 1)
    }
}

/// The shape of one member.
pub open spec fn memberv_of(m: Member) -> MemberV
    decreases m, 1int, 0int,
{
    MemberV { key: m.key@, val: jsonv_of(m.val) }
}

/// The shapes of the members of `ms` from index `i` on.
pub open spec fn memberv_list(ms: Vec<Member>, i: int) -> Seq<MemberV>
    decreases ms, 0int, ms@.len() - i,
{
    if i < 0 || i >= ms@.len() {
        Seq::<MemberV>::empty()
    } else {
        seq![memberv_of(ms@[i])] + memberv_list(ms, i + 1)
    }
}

impl View for Json {
    type V = JsonV;

    open spec fn view(&self) -> JsonV {
        jsonv_of(*self)
    }
}

impl View for Member {
    type V = MemberV;

    open spec fn view(&self) -> MemberV {
        memberv_of(*self)
    }
}

/// Element lists index as expected.
pub proof fn lemma_jsonv_list_index(es: Vec<Json>, i: int)
    requires
        0 <= i <= es@.len(),
    ensures
        jsonv_list(es, i).len() == es@.len() - i,
        forall|k: int| i <= k < es@.len() ==> jsonv_list(es, i)[k - i] == jsonv_of(#[trigger] es@[k]),
    decreases es@.len() - i,
{
    if i < es@.len() {
        lemma_jsonv_list_index(es, i + 1);
    }
}

/// Member lists index as expected.
pub proof fn lemma_memberv_list_index(ms: Vec<Member>, i: int)
    requires
        0 <= i <= ms@.len(),
    ensures
        memberv_list(ms, i).len() == ms@.len() - i,
        forall|k: int| i <= k < ms@.len() ==> memberv_list(ms, i)[k - i] == memberv_of(#[trigger] ms@[k]),
    decreases ms@.len() - i,
{
    if i < ms@.len() {
        lemma_memberv_list_index(ms, i + 1);
    }
}

/// Well-formed documents: every string is clean, every number's fraction
/// digits are digits. Only these can be printed.
pub open spec fn wf_jsonv(v: JsonV) -> bool
    decreases v,
{
    match v {
        JsonV::Null => true,
        JsonV::Bool(_) => true,
        JsonV::Num(d) => wf_dec(d),
        JsonV::Str(s) => clean_str(s),
        JsonV::Arr(es) => forall|i: int| 0 <= i < es.len() ==> wf_jsonv(#[trigger] es[i]),
        JsonV::Obj(ms) => forall|i: int| #![trigger ms[i]]
            0 <= i < ms.len() ==> clean_str(ms[i].key) && wf_jsonv(ms[i].val),
    }
}

/// Well-formedness of an array, spelled out for its elements.
pub proof fn lemma_wf_arr(es: Seq<JsonV>)
    ensures
        wf_jsonv(JsonV::Arr(es)) <==> (forall|i: int| 0 <= i < es.len() ==> wf_jsonv(
            #[trigger] es[i],
        )),
{
    assert(JsonV::Arr(es)->Arr_0 == es);
}

/// Well-formedness of an object, spelled out for its members.
pub proof fn lemma_wf_obj(ms: Seq<MemberV>)
    ensures
        wf_jsonv(JsonV::Obj(ms)) <==> (forall|i: int| #![trigger ms[i]]
            0 <= i < ms.len() ==> clean_str(ms[i].key) && wf_jsonv(ms[i].val)),
{
    assert(JsonV::Obj(ms)->Obj_0 == ms);
}

/// How one character appears inside a printed JSON string.
pub open spec fn escape_char(c: char) -> Seq<char> {
    if c == '"' {
        seq!['\\', '"']
    } else if c == '\\' {
        seq!['\\', '\\']
    } else if c == '\n' {
        seq!['\\', 'n']
    } else if c == '\r' {
        seq!['\\', 'r']
    } else if c == '\t' {
        seq!['\\', 't']
    } else {
        seq![c]
    }
}

/// A whole string, escaped.
pub open spec fn escape_chars(s: Seq<char>) -> Seq<char>
    decreases s.len(),
{
    if s.len() == 0 {
        Seq::<char>::empty()
    } else {
        escape_char(s[0]) + escape_chars(s.drop_first())
    }
}

pub proof fn lemma_escape_chars_push(s: Seq<char>, c: char)
    ensures
        escape_chars(s.push(c)) == escape_chars(s) + escape_char(c),
    decreases s.len(),
{
    if s.len() == 0 {
        assert(s.push(c)[0] == c);
        assert(s.push(c).drop_first() =~= Seq::<char>::empty());
        assert(escape_chars(Seq::<char>::empty()) == Seq::<char>::empty());
        assert(escape_chars(s.push(c)) == escape_char(c) + escape_chars(Seq::<char>::empty()));
        assert(escape_chars(s.push(c)) =~= escape_chars(s) + escape_char(c));
    } else {
        assert(s.push(c)[0] == s[0]);
        assert(s.push(c).drop_first() =~= s.drop_first().push(c));
        lemma_escape_chars_push(s.drop_first(), c);
        assert(escape_char(s[0]) + (escape_chars(s.drop_first()) + escape_char(c)) =~= (
        escape_char(s[0]) + escape_chars(s.drop_first())) + escape_char(c));
    }
}

/// The fraction digits of a number, as characters.
pub open spec fn frac_chars(fr: Seq<u8>) -> Seq<char> {
    Seq::new(fr.len(), |i: int| digit_char(fr[i] as int))
}

/// A printed decimal: optional sign, integer digits, optional point and
/// fraction digits.
pub open spec fn print_dec(d: DecV) -> Seq<char> {
    (if d.neg { seq!['-'] } else { Seq::<char>::empty() }) + dec_digits(d.int_part as int) + (
    if d.frac.len() == 0 { Seq::<char>::empty() } else { seq!['.'] + frac_chars(d.frac) })
}

/// The compact printed form of a document.
pub open spec fn print_jsonv(v: JsonV) -> Seq<char>
    decreases v, 1int, 0int,
{
    match v {
        JsonV::Null => seq!['n', 'u', 'l', 'l'],
        JsonV::Bool(b) => if b { seq!['t', 'r', 'u', 'e'] } else { seq!['f', 'a', 'l', 's', 'e'] },
        JsonV::Num(d) => print_dec(d),
        JsonV::Str(s) => seq!['"'] + escape_chars(s) + seq!['"'],
        JsonV::Arr(es) => seq!['['] + print_elems(es, 0) + seq![']'],
        JsonV::Obj(ms) => seq!['{'] + print_members(ms, 0) + seq!['}'],
    }
}

/// Array elements from index `i` on, comma separated.
pub open spec fn print_elems(es: Seq<JsonV>, i: int) -> Seq<char>
    decreases es, 0int, es.len() - i,
{
    if i < 0 || i >= es.len() {
        Seq::<char>::empty()
    } else if i == es.len() - 1 {
        print_jsonv(es[i])
    } else {
        print_jsonv(es[i]) + seq![','] + print_elems(es, i + 1)
    }
}

/// Object members from index `i` on: `"key":value`, comma separated.
pub open spec fn print_members(ms: Seq<MemberV>, i: int) -> Seq<char>
    decreases ms, 0int, ms.len() - i,
{
    if i < 0 || i >= ms.len() {
        Seq::<char>::empty()
    } else {
        let one = seq!['"'] + escape_chars(ms[i].key) + seq!['"', ':'] + print_jsonv(ms[i].val);
        if i == ms.len() - 1 {
            one
        } else {
            one + seq![','] + print_members(ms, i + 1)
        }
    }
}

/// Appends the escaped form of `s` to `out`.
fn encode_str_body(s: &str, out: &mut String)
    ensures
        final(out)@ == old(out)@ + escape_chars(s@),
{
    let n = s.unicode_len();
    let mut i: usize = 0;
    assert(out@ + escape_chars(s@.take(0)) =~= out@);
    while i < n
        invariant
            i <= n,
            n == s@.len(),
            out@ == old(out)@ + escape_chars(s@.take(i as int)),
        decreases n - i,
    {
        let c = s.get_char(i);
        if c == '"' {
            push_char(out, '\\');
            push_char(out, '"');
        } else if c == '\\' {
            push_char(out, '\\');
            push_char(out, '\\');
        } else if c == '\n' {
            push_char(out, '\\');
            push_char(out, 'n');
        } else if c == '\r' {
            push_char(out, '\\');
            push_char(out, 'r');
        } else if c == '\t' {
            push_char(out, '\\');
            push_char(out, 't');
        } else {
            push_char(out, c);
        }
        proof {
            lemma_escape_chars_push(s@.take(i as int), s@[i as int]);
            assert(s@.take(i as int).push(s@[i as int]) =~= s@.take(i + 1));
            assert(out@ =~= old(out)@ + escape_chars(s@.take(i + 1)));
        }
        i += 1;
    }
    assert(s@.take(n as int) =~= s@);
}

/// Appends the printed form of `d` to `out`.
fn encode_dec(d: &Decimal, out: &mut String)
    requires
        wf_dec(d@),
    ensures
        final(out)@ == old(out)@ + print_dec(d@),
{
    if d.neg {
        push_char(out, '-');
    }
    let digits = render_u64(d.int_part);
    out.append(digits.as_str());
    if d.frac.len() > 0 {
        push_char(out, '.');
        let mut i: usize = 0;
        let ghost mid = out@;
        assert(mid + frac_chars(d.frac@.take(0)) =~= mid);
        while i < d.frac.len()
            invariant
                i <= d.frac@.len(),
                wf_dec(d@),
                out@ == mid + frac_chars(d.frac@.take(i as int)),
            decreases d.frac@.len() - i,
        {
            let b = d.frac[i];
            assert(d@.frac[i as int] < 10);
            push_char(out, digit_char_of(b as u64));
            proof {
                assert(frac_chars(d.frac@.take(i + 1)) =~= frac_chars(d.frac@.take(i as int)).push(
                    digit_char(d.frac@[i as int] as int)));
                assert(mid + frac_chars(d.frac@.take(i as int)).push(digit_char(
                    d.frac@[i as int] as int)) =~= (mid + frac_chars(d.frac@.take(i as int))).push(
                digit_char(d.frac@[i as int] as int)));
            }
            i += 1;
        }
        assert(d.frac@.take(d.frac@.len() as int) =~= d.frac@);
        assert(out@ =~= old(out)@ + print_dec(d@));
    } else {
        assert(out@ =~= old(out)@ + print_dec(d@));
    }
}

/// Appends the printed form of `v` to `out`.
pub fn encode_into(v: &Json, out: &mut String)
    requires
        wf_jsonv(v@),
    ensures
        final(out)@ == old(out)@ + print_jsonv(v@),
    decreases v, 1int, 0int,
{
    match v {
        Json::Null => {
            push_char(out, 'n');
            push_char(out, 'u');
            push_char(out, 'l');
            push_char(out, 'l');
            assert(out@ =~= old(out)@ + print_jsonv(v@));
        },
        Json::Bool(b) => {
            if *b {
                push_char(out, 't');
                push_char(out, 'r');
                push_char(out, 'u');
                push_char(out, 'e');
            } else {
                push_char(out, 'f');
                push_char(out, 'a');
                push_char(out, 'l');
                push_char(out, 's');
                push_char(out, 'e');
            }
            assert(out@ =~= old(out)@ + print_jsonv(v@));
        },
        Json::Num(d) => {
            encode_dec(d, out);
        },
        Json::Str(s) => {
            push_char(out, '"');
            encode_str_body(s.as_str(), out);
            push_char(out, '"');
            assert(out@ =~= old(out)@ + print_jsonv(v@));
        },
        Json::Arr(es) => {
            push_char(out, '[');
            if es.len() > 0 {
                encode_elems(es, 0, out);
            }
            push_char(out, ']');
            proof {
                lemma_jsonv_list_index(*es, 0);
                if es@.len() == 0 {
                    assert(print_elems(jsonv_list(*es, 0), 0) == Seq::<char>::empty());
                }
                assert(out@ =~= old(out)@ + print_jsonv(v@));
            }
        },
        Json::Obj(ms) => {
            push_char(out, '{');
            if ms.len() > 0 {
                encode_members(ms, 0, out);
            }
            push_char(out, '}');
            proof {
                lemma_memberv_list_index(*ms, 0);
                if ms@.len() == 0 {
                    assert(print_members(memberv_list(*ms, 0), 0) == Seq::<char>::empty());
                }
                assert(out@ =~= old(out)@ + print_jsonv(v@));
            }
        },
    }
}

/// Appends the printed elements of `es` from index `i` on.
fn encode_elems(es: &Vec<Json>, i: usize, out: &mut String)
    requires
        i < es@.len(),
        wf_jsonv(JsonV::Arr(jsonv_list(*es, 0))),
    ensures
        final(out)@ == old(out)@ + print_elems(jsonv_list(*es, 0), i as int),
    decreases es@, 0int, es@.len() - i,
{
    let ghost vs = jsonv_list(*es, 0);
    let n = es.len();
    proof {
        lemma_jsonv_list_index(*es, 0);
        assert(vs[i as int] == jsonv_of(es@[i as int]));
        lemma_wf_arr(vs);
        assert(wf_jsonv(vs[i as int]));
        assert(es[i as int]@ == vs[i as int]);
    }
    encode_into(&es[i], out);
    if i + 1 < n {
        push_char(out, ',');
        encode_elems(es, i + 1, out);
        assert(out@ =~= old(out)@ + print_elems(vs, i as int));
    } else {
        assert(out@ =~= old(out)@ + print_elems(vs, i as int));
    }
}

/// Appends the printed members of `ms` from index `i` on.
fn encode_members(ms: &Vec<Member>, i: usize, out: &mut String)
    requires
        i < ms@.len(),
        wf_jsonv(JsonV::Obj(memberv_list(*ms, 0))),
    ensures
        final(out)@ == old(out)@ + print_members(memberv_list(*ms, 0), i as int),
    decreases ms@, 0int, ms@.len() - i,
{
    let ghost vs = memberv_list(*ms, 0);
    let n = ms.len();
    proof {
        lemma_memberv_list_index(*ms, 0);
        assert(vs[i as int] == memberv_of(ms@[i as int]));
        lemma_wf_obj(vs);
        assert(clean_str(vs[i as int].key) && wf_jsonv(vs[i as int].val));
    }
    push_char(out, '"');
    encode_str_body(ms[i].key.as_str(), out);
    push_char(out, '"');
    push_char(out, ':');
    encode_into(&ms[i].val, out);
    if i + 1 < n {
        push_char(out, ',');
        encode_members(ms, i + 1, out);
        assert(out@ =~= old(out)@ + print_members(vs, i as int));
    } else {
        assert(out@ =~= old(out)@ + print_members(vs, i as int));
    }
}

/// The printed form of a document, as a fresh string.
pub fn encode_json(v: &Json) -> (r: String)
    requires
        wf_jsonv(v@),
    ensures
        r@ == print_jsonv(v@),
{
    let mut out = String::new();
    encode_into(v, &mut out);
    assert(out@ =~= print_jsonv(v@));
    out
}


/// Structural copy of a document.
pub fn clone_json(v: &Json) -> (r: Json)
    ensures
        r@ == v@,
    decreases v, 1int, 0int,
{
    match v {
        Json::Null => Json::Null,
        Json::Bool(b) => Json::Bool(*b),
        Json::Num(d) => {
            let mut frac: Vec<u8> = Vec::new();
            let n = d.frac.len();
            let mut i: usize = 0;
            while i < n
                invariant
                    n == d.frac@.len(),
                    i <= n,
                    frac@ == d.frac@.take(i as int),
                decreases n - i,
            {
                frac.push(d.frac[i]);
                proof {
                    assert(frac@ =~= d.frac@.take(i + 1));
                }
                i += 1;
            }
            proof {
                assert(d.frac@.take(n as int) =~= d.frac@);
            }
            let c = Decimal { neg: d.neg, int_part: d.int_part, frac };
            proof {
                assert(c@ =~= d@);
            }
            Json::Num(c)
        },
        Json::Str(s) => Json::Str(s.clone()),
        Json::Arr(es) => {
            let out = clone_elems(es, 0);
            let r = Json::Arr(out);
            proof {
                lemma_jsonv_list_index(out, 0);
                lemma_jsonv_list_index(*es, 0);
                assert forall|k: int| 0 <= k < jsonv_list(out, 0).len() implies jsonv_list(
                    out,
                    0,
                )[k] == jsonv_list(*es, 0)[k] by {
                    assert(jsonv_list(out, 0)[k] == jsonv_of(out@[k]));
                    assert(jsonv_of(out@[k]) == jsonv_of(es@[0 + k]));
                    assert(jsonv_list(*es, 0)[k] == jsonv_of(es@[k]));
                }
                assert(jsonv_list(out, 0) =~= jsonv_list(*es, 0));
            }
            r
        },
        Json::Obj(ms) => {
            let out = clone_members(ms, 0);
            let r = Json::Obj(out);
            proof {
                lemma_memberv_list_index(out, 0);
                lemma_memberv_list_index(*ms, 0);
                assert forall|k: int| 0 <= k < memberv_list(out, 0).len() implies memberv_list(
                    out,
                    0,
                )[k] == memberv_list(*ms, 0)[k] by {
                    assert(memberv_list(out, 0)[k] == memberv_of(out@[k]));
                    assert(memberv_of(out@[k]) == memberv_of(ms@[0 + k]));
                    assert(memberv_list(*ms, 0)[k] == memberv_of(ms@[k]));
                }
                assert(memberv_list(out, 0) =~= memberv_list(*ms, 0));
            }
            r
        },
    }
}

/// Structural copy of the elements of `es` from index `i` on.
fn clone_elems(es: &Vec<Json>, i: usize) -> (r: Vec<Json>)
    requires
        i <= es@.len(),
    ensures
        r@.len() == es@.len() - i,
        forall|k: int|
            0 <= k < r@.len() ==> jsonv_of(#[trigger] r@[k]) == jsonv_of(es@[i + k]),
    decreases es@, 0int, es@.len() - i,
{
    let n = es.len();
    if i >= n {
        Vec::new()
    } else {
        let c = clone_json(&es[i]);
        let mut rest = clone_elems(es, i + 1);
        rest.insert(0, c);
        proof {
            assert forall|k: int| 0 <= k < rest@.len() implies jsonv_of(#[trigger] rest@[k])
                == jsonv_of(es@[i + k]) by {
                if k > 0 {
                    assert(rest@[k] == rest@.subrange(1, rest@.len() as int)[k - 1]);
                }
            }
        }
        rest
    }
}

/// Structural copy of the members of `ms` from index `i` on.
fn clone_members(ms: &Vec<Member>, i: usize) -> (r: Vec<Member>)
    requires
        i <= ms@.len(),
    ensures
        r@.len() == ms@.len() - i,
        forall|k: int|
            0 <= k < r@.len() ==> memberv_of(#[trigger] r@[k]) == memberv_of(ms@[i + k]),
    decreases ms@, 0int, ms@.len() - i,
{
    let n = ms.len();
    if i >= n {
        Vec::new()
    } else {
        let c = clone_json(&ms[i].val);
        let m = Member { key: ms[i].key.clone(), val: c };
        let mut rest = clone_members(ms, i + 1);
        rest.insert(0, m);
        proof {
            assert forall|k: int| 0 <= k < rest@.len() implies memberv_of(#[trigger] rest@[k])
                == memberv_of(ms@[i + k]) by {
                if k > 0 {
                    assert(rest@[k] == rest@.subrange(1, rest@.len() as int)[k - 1]);
                }
            }
        }
        rest
    }
}


/// Whether a decimal's fraction digits are digits, executably.
pub fn check_wf_dec(d: &Decimal) -> (r: bool)
    ensures
        r == wf_dec(d@),
{
    let n = d.frac.len();
    let mut i: usize = 0;
    while i < n
        invariant
            i <= n,
            n == d.frac@.len(),
            forall|k: int| 0 <= k < i ==> #[trigger] d.frac@[k] < 10,
        decreases n - i,
    {
        if d.frac[i] >= 10 {
            proof {
                assert(d@.frac[i as int] >= 10);
                assert(!wf_dec(d@));
            }
            return false;
        }
        i += 1;
    }
    proof {
        assert forall|k: int| 0 <= k < d@.frac.len() implies #[trigger] d@.frac[k] < 10 by {
            assert(d.frac@[k] < 10);
        }
    }
    true
}

/// Whether a document is well formed, executably.
pub fn check_wf_json(v: &Json) -> (r: bool)
    ensures
        r == wf_jsonv(v@),
    decreases v, 1int, 0int,
{
    match v {
        Json::Null => true,
        Json::Bool(_) => true,
        Json::Num(d) => {
            let r = check_wf_dec(d);
            proof {
                assert(v@ == JsonV::Num(d@));
                assert(wf_jsonv(JsonV::Num(d@)) == wf_dec(d@)) by {
                    assert(JsonV::Num(d@)->Num_0 == d@);
                }
            }
            r
        },
        Json::Str(s) => {
            let r = crate::text::is_clean_text(s.as_str());
            proof {
                assert(v@ == JsonV::Str(s@));
                assert(wf_jsonv(JsonV::Str(s@)) == clean_str(s@)) by {
                    assert(JsonV::Str(s@)->Str_0 == s@);
                }
            }
            r
        },
        Json::Arr(es) => {
            let r = check_wf_elems(es, 0);
            proof {
                assert(v@ == JsonV::Arr(jsonv_list(*es, 0)));
                lemma_wf_arr(jsonv_list(*es, 0));
                lemma_jsonv_list_index(*es, 0);
                let vs = jsonv_list(*es, 0);
                assert((forall|k: int| 0 <= k < vs.len() ==> wf_jsonv(#[trigger] vs[k])) == (
                forall|k: int| 0 <= k < es@.len() ==> wf_jsonv(jsonv_of(#[trigger] es@[k]))))
                    by {
                    if forall|k: int| 0 <= k < vs.len() ==> wf_jsonv(#[trigger] vs[k]) {
                        assert forall|k: int| 0 <= k < es@.len() implies wf_jsonv(jsonv_of(
                            #[trigger] es@[k],
                        )) by {
                            assert(vs[k] == jsonv_of(es@[k]));
                            assert(wf_jsonv(vs[k]));
                        }
                    } else {
                        let k = choose|k: int| 0 <= k < vs.len() && !wf_jsonv(#[trigger] vs[k]);
                        assert(vs[k] == jsonv_of(es@[k]));
                    }
                }
            }
            r
        },
        Json::Obj(ms) => {
            let r = check_wf_members(ms, 0);
            proof {
                assert(v@ == JsonV::Obj(memberv_list(*ms, 0)));
                lemma_wf_obj(memberv_list(*ms, 0));
                lemma_memberv_list_index(*ms, 0);
                let vs = memberv_list(*ms, 0);
                assert((forall|k: int| #![trigger vs[k]]
                    0 <= k < vs.len() ==> clean_str(vs[k].key) && wf_jsonv(vs[k].val)) == (
                forall|k: int|
                    0 <= k < ms@.len() ==> clean_str((#[trigger] ms@[k]).key@) && wf_jsonv(
                        jsonv_of(ms@[k].val),
                    ))) by {
                    if forall|k: int| #![trigger vs[k]]
                        0 <= k < vs.len() ==> clean_str(vs[k].key) && wf_jsonv(vs[k].val) {
                        assert forall|k: int| 0 <= k < ms@.len() implies clean_str(
                            (#[trigger] ms@[k]).key@,
                        ) && wf_jsonv(jsonv_of(ms@[k].val)) by {
                            assert(vs[k] == memberv_of(ms@[k]));
                            assert(clean_str(vs[k].key) && wf_jsonv(vs[k].val));
                        }
                    } else {
                        let k = choose|k: int|
                            0 <= k < vs.len() && !(clean_str(#[trigger] vs[k].key) && wf_jsonv(
                                vs[k].val,
                            ));
                        assert(vs[k] == memberv_of(ms@[k]));
                    }
                }
            }
            r
        },
    }
}

/// Whether the elements from index `i` on are all well formed.
fn check_wf_elems(es: &Vec<Json>, i: usize) -> (r: bool)
    requires
        i <= es@.len(),
    ensures
        r == (forall|k: int|
            i <= k < es@.len() ==> wf_jsonv(jsonv_of(#[trigger] es@[k]))),
    decreases es@, 0int, es@.len() - i,
{
    let n = es.len();
    if i >= n {
        return true;
    }
    let head = check_wf_json(&es[i]);
    if !head {
        return false;
    }
    let rest = check_wf_elems(es, i + 1);
    if rest {
        proof {
            assert forall|k: int| i <= k < es@.len() implies wf_jsonv(jsonv_of(
                #[trigger] es@[k],
            )) by {
                if k > i {
                }
            }
        }
    }
    rest
}

/// Whether the members from index `i` on all have clean keys and
/// well-formed values.
fn check_wf_members(ms: &Vec<Member>, i: usize) -> (r: bool)
    requires
        i <= ms@.len(),
    ensures
        r == (forall|k: int|
            i <= k < ms@.len() ==> crate::text::clean_str((#[trigger] ms@[k]).key@) && wf_jsonv(
                jsonv_of(ms@[k].val),
            )),
    decreases ms@, 0int, ms@.len() - i,
{
    let n = ms.len();
    if i >= n {
        return true;
    }
    let key_ok = crate::text::is_clean_text(ms[i].key.as_str());
    if !key_ok {
        return false;
    }
    let val_ok = check_wf_json(&ms[i].val);
    if !val_ok {
        return false;
    }
    check_wf_members(ms, i + 1)
}

/// The printed form of a well-formed document, or nothing if the document
/// holds an unprintable string or digit.
pub fn encode_json_checked(v: &Json) -> (r: Option<String>)
    ensures
        match r {
            Some(s) => wf_jsonv(v@) && s@ == print_jsonv(v@),
            None => !wf_jsonv(v@),
        },
{
    if check_wf_json(v) {
        Some(encode_json(v))
    } else {
        None
    }
}

} // verus!
