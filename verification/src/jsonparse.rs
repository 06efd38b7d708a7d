//! A strict JSON reader for the documents of `crate::json`.
//!
//! The grammar is defined once, as specification functions over character
//! sequences, and the executable reader is proved to return exactly what
//! those functions say. Structural recursion is bounded by a fuel argument;
//! every result is stated for all sufficient fuel, so callers never depend
//! on a particular bound.
//!
//! The reader accepts exactly what the printer can produce, plus
//! insignificant whitespace and the `\/` escape: numbers are decimals
//! without exponents whose integer part fits in 64 bits, and strings use
//! the escapes `\" \\ \/ \n \r \t`, with unescaped control characters
//! rejected.

use vstd::prelude::*;
use vstd::string::*;
use crate::digits::{char_digit, char_digit_of, digits_val, lemma_digits_val_nonneg, lemma_digits_val_push};
use crate::json::{Decimal, DecV, Json, JsonV, Member, MemberV, jsonv_of, jsonv_list, memberv_of, memberv_list, lemma_jsonv_list_index, lemma_memberv_list_index};
use crate::text::{is_digit_char, is_ws_char, push_char};

verus! {

/// First position at or after `i` that does not hold whitespace.
pub open spec fn skip_ws(s: Seq<char>, i: int) -> int
    decreases s.len() - i,
{
    if 0 <= i < s.len() && is_ws_char(s[i]) {
        skip_ws(s, i + 1)
    } else {
        i
    }
}

pub proof fn lemma_skip_ws_bounds(s: Seq<char>, i: int)
    requires
        0 <= i <= s.len(),
    ensures
        i <= skip_ws(s, i) <= s.len(),
        skip_ws(s, i) < s.len() ==> !is_ws_char(s[skip_ws(s, i)]),
    decreases s.len() - i,
{
    if i < s.len() && is_ws_char(s[i]) {
        lemma_skip_ws_bounds(s, i + 1);
    }
}

/// The character named by a string escape, if the escape is recognised.
pub open spec fn unescape(c: char) -> Option<char> {
    if c == '"' {
        Some('"')
    } else if c == '\\' {
        Some('\\')
    } else if c == '/' {
        Some('/')
    } else if c == 'n' {
        Some('\n')
    } else if c == 'r' {
        Some('\r')
    } else if c == 't' {
        Some('\t')
    } else {
        None
    }
}

/// Reads the body of a string from position `i` (just past the opening
/// quote) to just past the closing quote.
pub open spec fn sparse_str_chars(s: Seq<char>, i: int) -> Option<(Seq<char>, int)>
    decreases s.len() - i,
{
    if !(0 <= i < s.len()) {
        None
    } else {
        let c = s[i];
        if c == '"' {
            Some((Seq::<char>::empty(), i + 1))
        } else if c == '\\' {
            if i + 1 < s.len() && unescape(s[i + 1]) is Some {
                match sparse_str_chars(s, i + 2) {
                    Some((t, j)) => Some((seq![unescape(s[i + 1])->0] + t, j)),
                    None => None,
                }
            } else {
                None
            }
        } else if (c as u32) < 0x20 {
            None
        } else {
            match sparse_str_chars(s, i + 1) {
                Some((t, j)) => Some((seq![c] + t, j)),
                None => None,
            }
        }
    }
}

pub proof fn lemma_sparse_str_chars_advance(s: Seq<char>, i: int)
    requires
        0 <= i <= s.len(),
    ensures
        sparse_str_chars(s, i) matches Some((t, j)) ==> i < j <= s.len(),
    decreases s.len() - i,
{
    if 0 <= i < s.len() {
        if s[i] == '\\' {
            if i + 1 < s.len() && unescape(s[i + 1]) is Some {
                lemma_sparse_str_chars_advance(s, i + 2);
            }
        } else if s[i] != '"' && (s[i] as u32) >= 0x20 {
            lemma_sparse_str_chars_advance(s, i + 1);
        }
    }
}

/// End of the run of digit characters starting at `i`.
pub open spec fn digit_end(s: Seq<char>, i: int) -> int
    decreases s.len() - i,
{
    if 0 <= i < s.len() && is_digit_char(s[i]) {
        digit_end(s, i + 1)
    } else {
        i
    }
}

pub proof fn lemma_digit_end(s: Seq<char>, i: int)
    requires
        0 <= i <= s.len(),
    ensures
        i <= digit_end(s, i) <= s.len(),
        forall|k: int| i <= k < digit_end(s, i) ==> is_digit_char(#[trigger] s[k]),
        digit_end(s, i) < s.len() ==> !is_digit_char(s[digit_end(s, i)]),
    decreases s.len() - i,
{
    if i < s.len() && is_digit_char(s[i]) {
        lemma_digit_end(s, i + 1);
    }
}

/// A run of digits that ends exactly where the digits end.
pub proof fn lemma_digit_end_exact(s: Seq<char>, i: int, p: int)
    requires
        0 <= i <= p <= s.len(),
        forall|k: int| i <= k < p ==> is_digit_char(#[trigger] s[k]),
        p < s.len() ==> !is_digit_char(s[p]),
    ensures
        digit_end(s, i) == p,
    decreases p - i,
{
    if i < p {
        lemma_digit_end_exact(s, i + 1, p);
    }
}

/// The digit values of a run of digit characters.
pub open spec fn frac_vals(ds: Seq<char>) -> Seq<u8> {
    Seq::new(ds.len(), |j: int| char_digit(ds[j]) as u8)
}

/// Reads a number at position `i`: optional minus, integer digits without
/// a leading zero, optional point and fraction digits. The integer part
/// must fit in a `u64`; there is no exponent form.
pub open spec fn sparse_number(s: Seq<char>, i: int) -> Option<(DecV, int)> {
    let neg = 0 <= i < s.len() && s[i] == '-';
    let i0 = if neg { i + 1 } else { i };
    if !(0 <= i0 < s.len() && is_digit_char(s[i0])) {
        None
    } else {
        let int_end = if s[i0] == '0' { i0 + 1 } else { digit_end(s, i0) };
        let iv = digits_val(s.subrange(i0, int_end));
        if iv > u64::MAX as int {
            None
        } else if int_end < s.len() && s[int_end] == '.' {
            let fe = digit_end(s, int_end + 1);
            if fe == int_end + 1 {
                None
            } else {
                Some((DecV { neg, int_part: iv as u64, frac: frac_vals(s.subrange(int_end + 1, fe)) }, fe))
            }
        } else {
            Some((DecV { neg, int_part: iv as u64, frac: Seq::<u8>::empty() }, int_end))
        }
    }
}

pub proof fn lemma_sparse_number_advance(s: Seq<char>, i: int)
    requires
        0 <= i <= s.len(),
    ensures
        sparse_number(s, i) matches Some((d, j)) ==> i < j <= s.len(),
{
    let neg = 0 <= i < s.len() && s[i] == '-';
    let i0 = if neg { i + 1 } else { i };
    if 0 <= i0 < s.len() && is_digit_char(s[i0]) {
        lemma_digit_end(s, i0);
        if !(s[i0] == '0') {
            assert(digit_end(s, i0) > i0);
        }
        let int_end = if s[i0] == '0' { i0 + 1 } else { digit_end(s, i0) };
        if int_end < s.len() && s[int_end] == '.' {
            lemma_digit_end(s, int_end + 1);
        }
    }
}

/// The literal `lit` occurs in `s` at position `i`.
pub open spec fn lit_at(s: Seq<char>, i: int, lit: Seq<char>) -> bool {
    0 <= i && i + lit.len() <= s.len() && s.subrange(i, i + lit.len()) == lit
}

/// Fuel that always suffices to read a value at position `i`.
pub open spec fn rem(s: Seq<char>, i: int) -> int {
    if i <= 0 {
        s.len() as int
    } else if i >= s.len() {
        0
    } else {
        s.len() - i
    }
}

pub open spec fn needed_value(s: Seq<char>, i: int) -> nat {
    (2 * rem(s, i) + 1) as nat
}

pub open spec fn needed_list(s: Seq<char>, i: int) -> nat {
    (2 * rem(s, i) + 2) as nat
}

/// Reads one value at position `i`, whitespace allowed in front.
pub open spec fn sparse_value(s: Seq<char>, i: int, fuel: nat) -> Option<(JsonV, int)>
    decreases fuel,
{
    if fuel == 0 {
        None
    } else {
        let j = skip_ws(s, i);
        if !(0 <= j < s.len()) {
            None
        } else {
            let c = s[j];
            if c == 'n' {
                if lit_at(s, j, seq!['n', 'u', 'l', 'l']) {
                    Some((JsonV::Null, j + 4))
                } else {
                    None
                }
            } else if c == 't' {
                if lit_at(s, j, seq!['t', 'r', 'u', 'e']) {
                    Some((JsonV::Bool(true), j + 4))
                } else {
                    None
                }
            } else if c == 'f' {
                if lit_at(s, j, seq!['f', 'a', 'l', 's', 'e']) {
                    Some((JsonV::Bool(false), j + 5))
                } else {
                    None
                }
            } else if c == '"' {
                match sparse_str_chars(s, j + 1) {
                    Some((t, k)) => Some((JsonV::Str(t), k)),
                    None => None,
                }
            } else if c == '[' {
                let j1 = skip_ws(s, j + 1);
                if j1 < s.len() && s[j1] == ']' {
                    Some((JsonV::Arr(Seq::<JsonV>::empty()), j1 + 1))
                } else {
                    match sparse_elems(s, j + 1, (fuel - 1) as nat) {
                        Some((es, k)) => Some((JsonV::Arr(es), k)),
                        None => None,
                    }
                }
            } else if c == '{' {
                let j1 = skip_ws(s, j + 1);
                if j1 < s.len() && s[j1] == '}' {
                    Some((JsonV::Obj(Seq::<MemberV>::empty()), j1 + 1))
                } else {
                    match sparse_members(s, j + 1, (fuel - 1) as nat) {
                        Some((msx, k)) => Some((JsonV::Obj(msx), k)),
                        None => None,
                    }
                }
            } else if c == '-' || is_digit_char(c) {
                match sparse_number(s, j) {
                    Some((d, k)) => Some((JsonV::Num(d), k)),
                    None => None,
                }
            } else {
                None
            }
        }
    }
}

/// Reads the elements of a non-empty array from just past the `[` to just
/// past the closing `]`.
pub open spec fn sparse_elems(s: Seq<char>, i: int, fuel: nat) -> Option<(Seq<JsonV>, int)>
    decreases fuel,
{
    if fuel == 0 {
        None
    } else {
        match sparse_value(s, i, (fuel - 1) as nat) {
            None => None,
            Some((v, j)) => {
                let k = skip_ws(s, j);
                if k < s.len() && s[k] == ',' {
                    match sparse_elems(s, k + 1, (fuel - 1) as nat) {
                        Some((es, m)) => Some((seq![v] + es, m)),
                        None => None,
                    }
                } else if k < s.len() && s[k] == ']' {
                    Some((seq![v], k + 1))
                } else {
                    None
                }
            },
        }
    }
}

/// Reads the members of a non-empty object from just past the `{` to just
/// past the closing `}`.
pub open spec fn sparse_members(s: Seq<char>, i: int, fuel: nat) -> Option<(Seq<MemberV>, int)>
    decreases fuel,
{
    if fuel == 0 {
        None
    } else {
        let j = skip_ws(s, i);
        if !(0 <= j < s.len() && s[j] == '"') {
            None
        } else {
            match sparse_str_chars(s, j + 1) {
                None => None,
                Some((key, k)) => {
                    let m = skip_ws(s, k);
                    if !(m < s.len() && s[m] == ':') {
                        None
                    } else {
                        match sparse_value(s, m + 1, (fuel - 1) as nat) {
                            None => None,
                            Some((v, p)) => {
                                let q = skip_ws(s, p);
                                if q < s.len() && s[q] == ',' {
                                    match sparse_members(s, q + 1, (fuel - 1) as nat) {
                                        Some((rest, r)) => Some(
                                            (seq![MemberV { key, val: v }] + rest, r),
                                        ),
                                        None => None,
                                    }
                                } else if q < s.len() && s[q] == '}' {
                                    Some((seq![MemberV { key, val: v }], q + 1))
                                } else {
                                    None
                                }
                            },
                        }
                    }
                }
            }
        }
    }
}

/// A successful read moves forward and stays in bounds.
pub proof fn lemma_sparse_value_advance(s: Seq<char>, i: int, fuel: nat)
    requires
        0 <= i <= s.len(),
    ensures
        sparse_value(s, i, fuel) matches Some((v, j)) ==> i < j <= s.len(),
    decreases fuel,
{
    if fuel > 0 {
        let j = skip_ws(s, i);
        lemma_skip_ws_bounds(s, i);
        if 0 <= j < s.len() {
            let c = s[j];
            if c == '"' {
                lemma_sparse_str_chars_advance(s, j + 1);
            } else if c == '[' {
                lemma_skip_ws_bounds(s, j + 1);
                lemma_sparse_elems_advance(s, j + 1, (fuel - 1) as nat);
            } else if c == '{' {
                lemma_skip_ws_bounds(s, j + 1);
                lemma_sparse_members_advance(s, j + 1, (fuel - 1) as nat);
            } else if c == '-' || is_digit_char(c) {
                lemma_sparse_number_advance(s, j);
            }
        }
    }
}

pub proof fn lemma_sparse_elems_advance(s: Seq<char>, i: int, fuel: nat)
    requires
        0 <= i <= s.len(),
    ensures
        sparse_elems(s, i, fuel) matches Some((es, j)) ==> i < j <= s.len(),
    decreases fuel,
{
    if fuel > 0 {
        lemma_sparse_value_advance(s, i, (fuel - 1) as nat);
        match sparse_value(s, i, (fuel - 1) as nat) {
            Some((v, j)) => {
                lemma_skip_ws_bounds(s, j);
                let k = skip_ws(s, j);
                if k < s.len() && s[k] == ',' {
                    lemma_sparse_elems_advance(s, k + 1, (fuel - 1) as nat);
                }
            },
            None => {},
        }
    }
}

pub proof fn lemma_sparse_members_advance(s: Seq<char>, i: int, fuel: nat)
    requires
        0 <= i <= s.len(),
    ensures
        sparse_members(s, i, fuel) matches Some((msx, j)) ==> i < j <= s.len(),
    decreases fuel,
{
    if fuel > 0 {
        let j = skip_ws(s, i);
        lemma_skip_ws_bounds(s, i);
        if 0 <= j < s.len() && s[j] == '"' {
            lemma_sparse_str_chars_advance(s, j + 1);
            match sparse_str_chars(s, j + 1) {
                Some((key, k)) => {
                    let m = skip_ws(s, k);
                    lemma_skip_ws_bounds(s, k);
                    if m < s.len() && s[m] == ':' {
                        lemma_sparse_value_advance(s, m + 1, (fuel - 1) as nat);
                        match sparse_value(s, m + 1, (fuel - 1) as nat) {
                            Some((v, p)) => {
                                let q = skip_ws(s, p);
                                lemma_skip_ws_bounds(s, p);
                                if q < s.len() && s[q] == ',' {
                                    lemma_sparse_members_advance(s, q + 1, (fuel - 1) as nat);
                                }
                            },
                            None => {},
                        }
                    }
                },
                None => {},
            }
        }
    }
}

/// Reads a whole document: one value, with nothing but whitespace after it.
pub open spec fn sparse_json(s: Seq<char>) -> Option<JsonV> {
    match sparse_value(s, 0, needed_value(s, 0)) {
        Some((v, j)) => if skip_ws(s, j) == s.len() {
            Some(v)
        } else {
            None
        },
        None => None,
    }
}


/// The shape of an executable value result.
pub open spec fn opt_value_view(r: Option<(Json, usize)>) -> Option<(JsonV, int)> {
    match r {
        Some((v, j)) => Some((jsonv_of(v), j as int)),
        None => None,
    }
}

/// The shape of an executable element-list result.
pub open spec fn opt_elems_view(r: Option<(Vec<Json>, usize)>) -> Option<(Seq<JsonV>, int)> {
    match r {
        Some((es, j)) => Some((jsonv_list(es, 0), j as int)),
        None => None,
    }
}

/// The shape of an executable member-list result.
pub open spec fn opt_members_view(r: Option<(Vec<Member>, usize)>) -> Option<(Seq<MemberV>, int)> {
    match r {
        Some((ms, j)) => Some((memberv_list(ms, 0), j as int)),
        None => None,
    }
}

/// Executable whitespace skip.
fn skip_ws_x(s: &str, n: usize, i: usize) -> (r: usize)
    requires
        n == s@.len(),
        i <= n,
    ensures
        r == skip_ws(s@, i as int),
        i <= r <= n,
    decreases n - i,
{
    if i < n {
        let c = s.get_char(i);
        if c == ' ' || c == '\t' || c == '\n' || c == '\r' {
            return skip_ws_x(s, n, i + 1);
        }
    }
    i
}

/// Executable string-body read, from just past the opening quote.
fn parse_str_x(s: &str, n: usize, i: usize) -> (r: Option<(String, usize)>)
    requires
        n == s@.len(),
        i <= n,
    ensures
        match r {
            Some((t, j)) => sparse_str_chars(s@, i as int) == Some((t@, j as int)) && i < j <= n,
            None => sparse_str_chars(s@, i as int) is None,
        },
{
    let mut acc = String::new();
    let mut cur = i;
    proof {
        lemma_sparse_str_chars_advance(s@, i as int);
        match sparse_str_chars(s@, i as int) {
            Some((t, j)) => {
                assert(Seq::<char>::empty() + t =~= t);
            },
            None => {},
        }
    }
    loop
        invariant
            n == s@.len(),
            i <= cur <= n,
            sparse_str_chars(s@, i as int) == (match sparse_str_chars(s@, cur as int) {
                Some((t, j)) => Some((acc@ + t, j)),
                None => None::<(Seq<char>, int)>,
            }),
            sparse_str_chars(s@, i as int) matches Some((t, j)) ==> i < j <= n,
        decreases n - cur,
    {
        if cur >= n {
            return None;
        }
        let c = s.get_char(cur);
        if c == '"' {
            proof {
                assert(acc@ + Seq::<char>::empty() =~= acc@);
            }
            return Some((acc, cur + 1));
        } else if c == '\\' {
            if cur + 1 >= n {
                return None;
            }
            let e = s.get_char(cur + 1);
            let u_opt: Option<char> = if e == '"' {
                Some('"')
            } else if e == '\\' {
                Some('\\')
            } else if e == '/' {
                Some('/')
            } else if e == 'n' {
                Some('\n')
            } else if e == 'r' {
                Some('\r')
            } else if e == 't' {
                Some('\t')
            } else {
                None
            };
            proof {
                assert(u_opt == unescape(s@[cur + 1]));
            }
            match u_opt {
                None => {
                    return None;
                },
                Some(u) => {
                    let ghost accold = acc@;
                    push_char(&mut acc, u);
                    proof {
                        match sparse_str_chars(s@, cur + 2) {
                            Some((t, j)) => {
                                assert(accold + (seq![u] + t) =~= acc@ + t);
                            },
                            None => {},
                        }
                    }
                    cur = cur + 2;
                },
            }
        } else if (c as u32) < 0x20 {
            return None;
        } else {
            let ghost accold = acc@;
            push_char(&mut acc, c);
            proof {
                match sparse_str_chars(s@, cur + 1) {
                    Some((t, j)) => {
                        assert(accold + (seq![c] + t) =~= acc@ + t);
                    },
                    None => {},
                }
            }
            cur = cur + 1;
        }
    }
}

/// Whether position `p` holds a digit.
fn at_digit(s: &str, n: usize, p: usize) -> (r: bool)
    requires
        n == s@.len(),
        p <= n,
    ensures
        r == ((p as int) < s@.len() && is_digit_char(s@[p as int])),
{
    if p < n {
        let c = s.get_char(p);
        (c as u32) >= 0x30 && (c as u32) <= 0x39
    } else {
        false
    }
}

/// Executable number read.
fn parse_num_x(s: &str, n: usize, i: usize) -> (r: Option<(Decimal, usize)>)
    requires
        n == s@.len(),
        i <= n,
    ensures
        match r {
            Some((d, j)) => sparse_number(s@, i as int) == Some((d@, j as int)) && i < j <= n,
            None => sparse_number(s@, i as int) is None,
        },
{
    let neg = i < n && s.get_char(i) == '-';
    let i0 = if neg { i + 1 } else { i };
    if i0 >= n {
        return None;
    }
    let first = s.get_char(i0);
    if !((first as u32) >= 0x30 && (first as u32) <= 0x39) {
        return None;
    }
    // integer part
    let mut int_end: usize = i0;
    let mut val: u64 = 0;
    let mut overflow = false;
    proof {
        assert(digits_val(s@.subrange(i0 as int, i0 as int)) == 0) by {
            assert(s@.subrange(i0 as int, i0 as int) =~= Seq::<char>::empty());
        }
    }
    if first == '0' {
        int_end = i0 + 1;
        val = 0;
        proof {
            let sub = s@.subrange(i0 as int, i0 + 1);
            assert(sub =~= seq![s@[i0 as int]]);
            assert(sub.drop_last() =~= Seq::<char>::empty());
            assert(digits_val(Seq::<char>::empty()) == 0);
            assert(sub.last() == s@[i0 as int]);
            assert(digits_val(sub) == 0 * 10 + char_digit(s@[i0 as int]));
            assert(char_digit('0') == 0);
        }
    } else {
        while at_digit(s, n, int_end)
            invariant
                n == s@.len(),
                i0 <= int_end <= n,
                forall|k: int| i0 <= k < int_end ==> is_digit_char(#[trigger] s@[k]),
                !overflow ==> val == digits_val(s@.subrange(i0 as int, int_end as int)),
                overflow ==> digits_val(s@.subrange(i0 as int, int_end as int)) > u64::MAX as int,
            decreases n - int_end,
        {
            let c = s.get_char(int_end);
            let d = char_digit_of(c);
            proof {
                let sub = s@.subrange(i0 as int, int_end as int);
                let sub2 = s@.subrange(i0 as int, int_end + 1);
                assert(sub2 =~= sub.push(s@[int_end as int]));
                lemma_digits_val_push(sub, s@[int_end as int]);
                lemma_digits_val_nonneg(sub);
            }
            if !overflow {
                match val.checked_mul(10) {
                    Some(v10) => {
                        match v10.checked_add(d as u64) {
                            Some(v2) => {
                                val = v2;
                            },
                            None => {
                                overflow = true;
                            },
                        }
                    },
                    None => {
                        overflow = true;
                    },
                }
            }
            int_end = int_end + 1;
        }
        if int_end == i0 {
            return None;
        }
    }
    let ghost ie_spec = if s@[i0 as int] == '0' { i0 + 1 } else { digit_end(s@, i0 as int) };
    proof {
        if s@[i0 as int] != '0' {
            lemma_digit_end_exact(s@, i0 as int, int_end as int);
        }
        assert(ie_spec == int_end as int);
    }
    if overflow {
        return None;
    }
    // optional fraction
    if int_end < n && s.get_char(int_end) == '.' {
        let fs = int_end + 1;
        let mut fe: usize = fs;
        let mut frac: Vec<u8> = Vec::new();
        proof {
            assert(frac@ =~= frac_vals(s@.subrange(fs as int, fs as int)));
        }
        while at_digit(s, n, fe)
            invariant
                n == s@.len(),
                fs <= fe <= n,
                forall|k: int| fs <= k < fe ==> is_digit_char(#[trigger] s@[k]),
                frac@ == frac_vals(s@.subrange(fs as int, fe as int)),
            decreases n - fe,
        {
            let c = s.get_char(fe);
            let d = char_digit_of(c);
            frac.push(d);
            proof {
                assert(frac@ =~= frac_vals(s@.subrange(fs as int, fe + 1)));
            }
            fe = fe + 1;
        }
        proof {
            lemma_digit_end_exact(s@, fs as int, fe as int);
        }
        if fe == fs {
            return None;
        }
        let d = Decimal { neg, int_part: val, frac };
        return Some((d, fe));
    }
    let d = Decimal { neg, int_part: val, frac: Vec::new() };
    proof {
        assert(d@.frac =~= Seq::<u8>::empty());
    }
    Some((d, int_end))
}

/// Executable value read.
pub(crate) fn parse_value_x(s: &str, n: usize, i: usize) -> (r: Option<(Json, usize)>)
    requires
        n == s@.len(),
        i <= n,
    ensures
        r matches Some((v, j)) ==> i < j <= n,
        forall|f: nat|
            f >= needed_value(s@, i as int) ==> sparse_value(s@, i as int, f) == opt_value_view(r),
    decreases n - i, 0int,
{
    let ghost ii = i as int;
    let j = skip_ws_x(s, n, i);
    if j >= n {
        assert forall|f: nat| f >= needed_value(s@, ii) implies sparse_value(s@, ii, f)
            == opt_value_view(None::<(Json, usize)>) by {}
        return None;
    }
    let c = s.get_char(j);
    if c == 'n' || c == 't' {
        let ghost lit = if c == 'n' { seq!['n', 'u', 'l', 'l'] } else { seq!['t', 'r', 'u', 'e'] };
        if n - j >= 4 && s.get_char(j + 1) == (if c == 'n' { 'u' } else { 'r' }) && s.get_char(j + 2)
            == (if c == 'n' { 'l' } else { 'u' }) && s.get_char(j + 3) == (if c == 'n' {
            'l'
        } else {
            'e'
        }) {
            proof {
                assert(s@.subrange(j as int, j + 4) =~= lit);
            }
            let r = if c == 'n' {
                Some((Json::Null, j + 4))
            } else {
                Some((Json::Bool(true), j + 4))
            };
            assert forall|f: nat| f >= needed_value(s@, ii) implies sparse_value(s@, ii, f)
                == opt_value_view(r) by {}
            return r;
        }
        proof {
            if lit_at(s@, j as int, lit) {
                assert(s@[j + 1] == s@.subrange(j as int, j + 4)[1]);
                assert(s@[j + 2] == s@.subrange(j as int, j + 4)[2]);
                assert(s@[j + 3] == s@.subrange(j as int, j + 4)[3]);
            }
        }
        assert forall|f: nat| f >= needed_value(s@, ii) implies sparse_value(s@, ii, f)
            == opt_value_view(None::<(Json, usize)>) by {}
        return None;
    }
    if c == 'f' {
        if n - j >= 5 && s.get_char(j + 1) == 'a' && s.get_char(j + 2) == 'l' && s.get_char(j + 3)
            == 's' && s.get_char(j + 4) == 'e' {
            proof {
                assert(s@.subrange(j as int, j + 5) =~= seq!['f', 'a', 'l', 's', 'e']);
            }
            let r = Some((Json::Bool(false), j + 5));
            assert forall|f: nat| f >= needed_value(s@, ii) implies sparse_value(s@, ii, f)
                == opt_value_view(r) by {}
            return r;
        }
        proof {
            if lit_at(s@, j as int, seq!['f', 'a', 'l', 's', 'e']) {
                assert(s@[j + 1] == s@.subrange(j as int, j + 5)[1]);
                assert(s@[j + 2] == s@.subrange(j as int, j + 5)[2]);
                assert(s@[j + 3] == s@.subrange(j as int, j + 5)[3]);
                assert(s@[j + 4] == s@.subrange(j as int, j + 5)[4]);
            }
        }
        assert forall|f: nat| f >= needed_value(s@, ii) implies sparse_value(s@, ii, f)
            == opt_value_view(None::<(Json, usize)>) by {}
        return None;
    }
    if c == '"' {
        let r = match parse_str_x(s, n, j + 1) {
            Some((t, k)) => Some((Json::Str(t), k)),
            None => None,
        };
        assert forall|f: nat| f >= needed_value(s@, ii) implies sparse_value(s@, ii, f)
            == opt_value_view(r) by {}
        return r;
    }
    if c == '[' {
        let j1 = skip_ws_x(s, n, j + 1);
        if j1 < n && s.get_char(j1) == ']' {
            let es: Vec<Json> = Vec::new();
            proof {
                assert(jsonv_list(es, 0) =~= Seq::<JsonV>::empty());
            }
            let r = Some((Json::Arr(es), j1 + 1));
            assert forall|f: nat| f >= needed_value(s@, ii) implies sparse_value(s@, ii, f)
                == opt_value_view(r) by {}
            return r;
        }
        let sub = parse_elems_x(s, n, j + 1);
        let r = match sub {
            Some((es, k)) => Some((Json::Arr(es), k)),
            None => None,
        };
        assert forall|f: nat| f >= needed_value(s@, ii) implies sparse_value(s@, ii, f)
            == opt_value_view(r) by {
            assert((f - 1) as nat >= needed_list(s@, j + 1));
            assert(sparse_elems(s@, j + 1, (f - 1) as nat) == opt_elems_view(sub));
        }
        return r;
    }
    if c == '{' {
        let j1 = skip_ws_x(s, n, j + 1);
        if j1 < n && s.get_char(j1) == '}' {
            let ms: Vec<Member> = Vec::new();
            proof {
                assert(memberv_list(ms, 0) =~= Seq::<MemberV>::empty());
            }
            let r = Some((Json::Obj(ms), j1 + 1));
            assert forall|f: nat| f >= needed_value(s@, ii) implies sparse_value(s@, ii, f)
                == opt_value_view(r) by {}
            return r;
        }
        let sub = parse_members_x(s, n, j + 1);
        let r = match sub {
            Some((ms, k)) => Some((Json::Obj(ms), k)),
            None => None,
        };
        assert forall|f: nat| f >= needed_value(s@, ii) implies sparse_value(s@, ii, f)
            == opt_value_view(r) by {
            assert((f - 1) as nat >= needed_list(s@, j + 1));
            assert(sparse_members(s@, j + 1, (f - 1) as nat) == opt_members_view(sub));
        }
        return r;
    }
    if c == '-' || ((c as u32) >= 0x30 && (c as u32) <= 0x39) {
        let r = match parse_num_x(s, n, j) {
            Some((d, k)) => Some((Json::Num(d), k)),
            None => None,
        };
        assert forall|f: nat| f >= needed_value(s@, ii) implies sparse_value(s@, ii, f)
            == opt_value_view(r) by {}
        return r;
    }
    assert forall|f: nat| f >= needed_value(s@, ii) implies sparse_value(s@, ii, f)
        == opt_value_view(None::<(Json, usize)>) by {}
    None
}

/// Executable read of the elements of a non-empty array.
fn parse_elems_x(s: &str, n: usize, i: usize) -> (r: Option<(Vec<Json>, usize)>)
    requires
        n == s@.len(),
        i <= n,
    ensures
        r matches Some((es, j)) ==> i < j <= n,
        forall|f: nat|
            f >= needed_list(s@, i as int) ==> sparse_elems(s@, i as int, f) == opt_elems_view(r),
    decreases n - i, 1int,
{
    let ghost ii = i as int;
    let head = parse_value_x(s, n, i);
    match head {
        None => {
            assert forall|f: nat| f >= needed_list(s@, ii) implies sparse_elems(s@, ii, f)
                == opt_elems_view(None::<(Vec<Json>, usize)>) by {
                assert((f - 1) as nat >= needed_value(s@, ii));
                assert(sparse_value(s@, ii, (f - 1) as nat) == opt_value_view(head));
            }
            None
        },
        Some((v, j)) => {
            let k = skip_ws_x(s, n, j);
            if k < n && s.get_char(k) == ',' {
                let rest = parse_elems_x(s, n, k + 1);
                match rest {
                    Some((mut es, m)) => {
                        let ghost esold = es;
                        es.insert(0, v);
                        proof {
                            lemma_jsonv_list_index(esold, 0);
                            lemma_jsonv_list_index(es, 0);
                            assert(es@ =~= seq![v] + esold@);
                            assert forall|k: int| 0 <= k < es@.len() implies jsonv_list(es, 0)[k]
                                == (seq![jsonv_of(v)] + jsonv_list(esold, 0))[k] by {
                                assert(jsonv_list(es, 0)[k] == jsonv_of(es@[k]));
                                if k == 0 {
                                    assert(es@[0] == v);
                                } else {
                                    assert(es@[k] == esold@[k - 1]);
                                    assert(jsonv_list(esold, 0)[k - 1] == jsonv_of(
                                        esold@[k - 1],
                                    ));
                                }
                            }
                            assert(jsonv_list(es, 0) =~= seq![jsonv_of(v)] + jsonv_list(
                                esold,
                                0,
                            ));
                        }
                        let r = Some((es, m));
                        assert forall|f: nat| f >= needed_list(s@, ii) implies sparse_elems(
                            s@,
                            ii,
                            f,
                        ) == opt_elems_view(r) by {
                            assert((f - 1) as nat >= needed_value(s@, ii));
                            assert(sparse_value(s@, ii, (f - 1) as nat) == opt_value_view(head));
                            assert((f - 1) as nat >= needed_list(s@, k + 1));
                            assert(sparse_elems(s@, k + 1, (f - 1) as nat) == opt_elems_view(
                                rest,
                            ));
                        }
                        r
                    },
                    None => {
                        assert forall|f: nat| f >= needed_list(s@, ii) implies sparse_elems(
                            s@,
                            ii,
                            f,
                        ) == opt_elems_view(None::<(Vec<Json>, usize)>) by {
                            assert((f - 1) as nat >= needed_value(s@, ii));
                            assert(sparse_value(s@, ii, (f - 1) as nat) == opt_value_view(head));
                            assert((f - 1) as nat >= needed_list(s@, k + 1));
                            assert(sparse_elems(s@, k + 1, (f - 1) as nat) == opt_elems_view(
                                rest,
                            ));
                        }
                        None
                    },
                }
            } else if k < n && s.get_char(k) == ']' {
                let mut es: Vec<Json> = Vec::new();
                es.push(v);
                proof {
                    lemma_jsonv_list_index(es, 0);
                    assert(jsonv_list(es, 0) =~= seq![jsonv_of(v)]);
                }
                let r = Some((es, k + 1));
                assert forall|f: nat| f >= needed_list(s@, ii) implies sparse_elems(s@, ii, f)
                    == opt_elems_view(r) by {
                    assert((f - 1) as nat >= needed_value(s@, ii));
                    assert(sparse_value(s@, ii, (f - 1) as nat) == opt_value_view(head));
                }
                r
            } else {
                assert forall|f: nat| f >= needed_list(s@, ii) implies sparse_elems(s@, ii, f)
                    == opt_elems_view(None::<(Vec<Json>, usize)>) by {
                    assert((f - 1) as nat >= needed_value(s@, ii));
                    assert(sparse_value(s@, ii, (f - 1) as nat) == opt_value_view(head));
                }
                None
            }
        },
    }
}

/// Executable read of the members of a non-empty object.
fn parse_members_x(s: &str, n: usize, i: usize) -> (r: Option<(Vec<Member>, usize)>)
    requires
        n == s@.len(),
        i <= n,
    ensures
        r matches Some((ms, j)) ==> i < j <= n,
        forall|f: nat|
            f >= needed_list(s@, i as int) ==> sparse_members(s@, i as int, f) == opt_members_view(
                r,
            ),
    decreases n - i, 1int,
{
    let ghost ii = i as int;
    let j = skip_ws_x(s, n, i);
    if !(j < n && s.get_char(j) == '"') {
        assert forall|f: nat| f >= needed_list(s@, ii) implies sparse_members(s@, ii, f)
            == opt_members_view(None::<(Vec<Member>, usize)>) by {}
        return None;
    }
    let keyr = parse_str_x(s, n, j + 1);
    match keyr {
        None => {
            assert forall|f: nat| f >= needed_list(s@, ii) implies sparse_members(s@, ii, f)
                == opt_members_view(None::<(Vec<Member>, usize)>) by {}
            None
        },
        Some((key, k)) => {
            let m = skip_ws_x(s, n, k);
            if !(m < n && s.get_char(m) == ':') {
                assert forall|f: nat| f >= needed_list(s@, ii) implies sparse_members(s@, ii, f)
                    == opt_members_view(None::<(Vec<Member>, usize)>) by {}
                return None;
            }
            let valr = parse_value_x(s, n, m + 1);
            match valr {
                None => {
                    assert forall|f: nat| f >= needed_list(s@, ii) implies sparse_members(
                        s@,
                        ii,
                        f,
                    ) == opt_members_view(None::<(Vec<Member>, usize)>) by {
                        assert((f - 1) as nat >= needed_value(s@, m + 1));
                        assert(sparse_value(s@, m + 1, (f - 1) as nat) == opt_value_view(valr));
                    }
                    None
                },
                Some((v, p)) => {
                    let q = skip_ws_x(s, n, p);
                    if q < n && s.get_char(q) == ',' {
                        let rest = parse_members_x(s, n, q + 1);
                        match rest {
                            Some((mut ms, rr)) => {
                                let ghost mnew = Member { key, val: v };
                                let ghost msold = ms;
                                ms.insert(0, Member { key, val: v });
                                proof {
                                    lemma_memberv_list_index(msold, 0);
                                    lemma_memberv_list_index(ms, 0);
                                    assert(ms@ =~= seq![mnew] + msold@);
                                    assert forall|k: int| 0 <= k < ms@.len() implies memberv_list(
                                        ms,
                                        0,
                                    )[k] == (seq![memberv_of(mnew)] + memberv_list(msold, 0))[k]
                                        by {
                                        assert(memberv_list(ms, 0)[k] == memberv_of(ms@[k]));
                                        if k == 0 {
                                            assert(ms@[0] == mnew);
                                        } else {
                                            assert(ms@[k] == msold@[k - 1]);
                                            assert(memberv_list(msold, 0)[k - 1] == memberv_of(
                                                msold@[k - 1],
                                            ));
                                        }
                                    }
                                    assert(memberv_list(ms, 0) =~= seq![memberv_of(mnew)]
                                        + memberv_list(msold, 0));
                                    assert(memberv_of(mnew) == (MemberV { key: key@, val: jsonv_of(v) }));
                                }
                                let r = Some((ms, rr));
                                assert forall|f: nat| f >= needed_list(s@, ii) implies
                                    sparse_members(s@, ii, f) == opt_members_view(r) by {
                                    assert((f - 1) as nat >= needed_value(s@, m + 1));
                                    assert(sparse_value(s@, m + 1, (f - 1) as nat)
                                        == opt_value_view(valr));
                                    assert((f - 1) as nat >= needed_list(s@, q + 1));
                                    assert(sparse_members(s@, q + 1, (f - 1) as nat)
                                        == opt_members_view(rest));
                                }
                                r
                            },
                            None => {
                                assert forall|f: nat| f >= needed_list(s@, ii) implies
                                    sparse_members(s@, ii, f) == opt_members_view(
                                    None::<(Vec<Member>, usize)>,
                                ) by {
                                    assert((f - 1) as nat >= needed_value(s@, m + 1));
                                    assert(sparse_value(s@, m + 1, (f - 1) as nat)
                                        == opt_value_view(valr));
                                    assert((f - 1) as nat >= needed_list(s@, q + 1));
                                    assert(sparse_members(s@, q + 1, (f - 1) as nat)
                                        == opt_members_view(rest));
                                }
                                None
                            },
                        }
                    } else if q < n && s.get_char(q) == '}' {
                        let mut ms: Vec<Member> = Vec::new();
                        ms.push(Member { key, val: v });
                        proof {
                            lemma_memberv_list_index(ms, 0);
                            assert(memberv_list(ms, 0) =~= seq![
                                MemberV { key: key@, val: jsonv_of(v) },
                            ]);
                        }
                        let r = Some((ms, q + 1));
                        assert forall|f: nat| f >= needed_list(s@, ii) implies sparse_members(
                            s@,
                            ii,
                            f,
                        ) == opt_members_view(r) by {
                            assert((f - 1) as nat >= needed_value(s@, m + 1));
                            assert(sparse_value(s@, m + 1, (f - 1) as nat) == opt_value_view(
                                valr,
                            ));
                        }
                        r
                    } else {
                        assert forall|f: nat| f >= needed_list(s@, ii) implies sparse_members(
                            s@,
                            ii,
                            f,
                        ) == opt_members_view(None::<(Vec<Member>, usize)>) by {
                            assert((f - 1) as nat >= needed_value(s@, m + 1));
                            assert(sparse_value(s@, m + 1, (f - 1) as nat) == opt_value_view(
                                valr,
                            ));
                        }
                        None
                    }
                },
            }
        },
    }
}

/// Reads a whole document, strictly: one value with only whitespace after.
pub fn parse_json(s: &str) -> (r: Option<Json>)
    ensures
        match r {
            Some(v) => sparse_json(s@) == Some(jsonv_of(v)),
            None => sparse_json(s@) is None,
        },
{
    let n = s.unicode_len();
    let vr = parse_value_x(s, n, 0);
    proof {
        assert(sparse_value(s@, 0, needed_value(s@, 0)) == opt_value_view(vr));
    }
    match vr {
        Some((v, j)) => {
            let e = skip_ws_x(s, n, j);
            if e == n {
                Some(v)
            } else {
                None
            }
        },
        None => None,
    }
}
} // verus!
