//! What the printer writes, the reader reads back unchanged.
//!
//! The main result: for every well-formed document `v`, reading
//! `print_jsonv(v)` yields exactly `v`. It is proved compositionally: each
//! lemma places the printed form inside a larger text, so array and object
//! cases can chain their elements.

use vstd::prelude::*;
use crate::digits::{
    dec_digits, digit_char, digits_val, lemma_dec_digits_shape, lemma_digit_char_val,
    lemma_digits_val_dec_digits,
};
use crate::json::{
    DecV, JsonV, MemberV, escape_char, escape_chars, frac_chars, print_dec, print_elems,
    print_jsonv, print_members, wf_dec, wf_jsonv, lemma_wf_arr, lemma_wf_obj,
};
use crate::jsonparse::{
    digit_end, lemma_digit_end_exact, lit_at, needed_list, needed_value, skip_ws, sparse_elems,
    sparse_json, sparse_members, sparse_number, sparse_str_chars, sparse_value, unescape,
};
use crate::text::{clean_str, is_clean_char, is_digit_char, is_ws_char};

verus! {

/// The text `t` stands in `s` at position `i`.
pub open spec fn at_seq(s: Seq<char>, i: int, t: Seq<char>) -> bool {
    0 <= i && i + t.len() <= s.len() && s.subrange(i, i + t.len()) == t
}

/// Position `e` cannot extend a number that ends just before it.
pub open spec fn num_delim(s: Seq<char>, e: int) -> bool {
    e == s.len() || (!is_digit_char(s[e]) && s[e] != '.')
}

/// Splitting a stand-in of a concatenation.
pub proof fn lemma_at_seq_split(s: Seq<char>, i: int, a: Seq<char>, b: Seq<char>)
    requires
        at_seq(s, i, a + b),
    ensures
        at_seq(s, i, a),
        at_seq(s, i + a.len(), b),
{
    let ab = a + b;
    assert forall|m: int| 0 <= m < a.len() implies s.subrange(i, i + a.len())[m] == a[m] by {
        assert(s.subrange(i, i + ab.len())[m] == s[i + m]);
        assert(s.subrange(i, i + a.len())[m] == s[i + m]);
        assert(ab[m] == a[m]);
    }
    assert(s.subrange(i, i + a.len()) =~= a);
    assert forall|m: int| 0 <= m < b.len() implies s.subrange(
        i + a.len(),
        i + a.len() + b.len(),
    )[m] == b[m] by {
        assert(s.subrange(i, i + ab.len())[a.len() + m] == s[i + a.len() + m]);
        assert(s.subrange(i + a.len(), i + a.len() + b.len())[m] == s[i + a.len() + m]);
        assert(ab[a.len() + m] == b[m]);
    }
    assert(s.subrange(i + a.len(), i + a.len() + b.len()) =~= b);
}

/// Characters under a stand-in.
pub proof fn lemma_at_seq_index(s: Seq<char>, i: int, t: Seq<char>)
    requires
        at_seq(s, i, t),
    ensures
        forall|k: int| 0 <= k < t.len() ==> s[i + k] == #[trigger] t[k],
{
    assert forall|k: int| 0 <= k < t.len() implies s[i + k] == t[k] by {
        assert(s.subrange(i, i + t.len())[k] == s[i + k]);
    }
}

/// One character stands at `pos`.
pub proof fn lemma_at_one(s: Seq<char>, pos: int, c: char)
    requires
        at_seq(s, pos, seq![c]),
    ensures
        s[pos] == c,
{
    assert(s.subrange(pos, pos + 1)[0] == s[pos]);
}

/// Two characters stand at `pos`.
pub proof fn lemma_at_two(s: Seq<char>, pos: int, c0: char, c1: char)
    requires
        at_seq(s, pos, seq![c0, c1]),
    ensures
        s[pos] == c0,
        s[pos + 1] == c1,
{
    assert(s.subrange(pos, pos + 2)[0] == s[pos]);
    assert(s.subrange(pos, pos + 2)[1] == s[pos + 1]);
}

/// The first character of a printed value: never whitespace, never a
/// closing bracket, comma or colon.
pub proof fn lemma_print_head(v: JsonV)
    ensures
        print_jsonv(v).len() >= 1,
        ({
            let h = print_jsonv(v)[0];
            h == 'n' || h == 't' || h == 'f' || h == '"' || h == '[' || h == '{' || h == '-'
                || is_digit_char(h)
        }),
{
    match v {
        JsonV::Num(d) => {
            lemma_dec_digits_shape(d.int_part as int);
            if d.neg {
                assert(print_dec(d)[0] == '-');
            } else {
                assert(print_dec(d)[0] == dec_digits(d.int_part as int)[0]);
            }
        },
        _ => {},
    }
}

/// Reading back an escaped string body followed by its closing quote.
pub proof fn lemma_parse_str_print(cs: Seq<char>, s: Seq<char>, i: int)
    requires
        clean_str(cs),
        at_seq(s, i, escape_chars(cs)),
        i + escape_chars(cs).len() + 1 <= s.len(),
        s[i + escape_chars(cs).len()] == '"',
    ensures
        sparse_str_chars(s, i) == Some((cs, i + escape_chars(cs).len() + 1)),
    decreases cs.len(),
{
    if cs.len() == 0 {
        assert(escape_chars(cs).len() == 0);
        assert(s[i] == '"');
    } else {
        let c = cs[0];
        let rest = cs.drop_first();
        assert(is_clean_char(c));
        assert(escape_chars(cs) == escape_char(c) + escape_chars(rest));
        lemma_at_seq_split(s, i, escape_char(c), escape_chars(rest));
        let i2 = i + escape_char(c).len();
        assert(clean_str(rest)) by {
            assert(forall|k: int| 0 <= k < rest.len() ==> rest[k] == cs[k + 1]);
        }
        lemma_parse_str_print(rest, s, i2);
        if c == '"' {
            lemma_at_two(s, i, '\\', '"');
            assert(unescape(s[i + 1]) == Some(c));
            assert(seq![c] + rest =~= cs);
        } else if c == '\\' {
            lemma_at_two(s, i, '\\', '\\');
            assert(unescape(s[i + 1]) == Some(c));
            assert(seq![c] + rest =~= cs);
        } else if c == '\n' {
            lemma_at_two(s, i, '\\', 'n');
            assert(unescape(s[i + 1]) == Some(c));
            assert(seq![c] + rest =~= cs);
        } else if c == '\r' {
            lemma_at_two(s, i, '\\', 'r');
            assert(unescape(s[i + 1]) == Some(c));
            assert(seq![c] + rest =~= cs);
        } else if c == '\t' {
            lemma_at_two(s, i, '\\', 't');
            assert(unescape(s[i + 1]) == Some(c));
            assert(seq![c] + rest =~= cs);
        } else {
            lemma_at_one(s, i, c);
            assert(s[i] == c);
            assert((c as u32) >= 0x20);
            assert(s[i] != '"' && s[i] != '\\');
            assert(seq![c] + rest =~= cs);
        }
    }
}

/// Reading back a printed decimal.
pub proof fn lemma_parse_num_print(d: DecV, s: Seq<char>, i: int)
    requires
        wf_dec(d),
        at_seq(s, i, print_dec(d)),
        num_delim(s, i + print_dec(d).len()),
    ensures
        sparse_number(s, i) == Some((d, i + print_dec(d).len())),
{
    let ds = dec_digits(d.int_part as int);
    let sign: Seq<char> = if d.neg { seq!['-'] } else { Seq::<char>::empty() };
    let tail: Seq<char> = if d.frac.len() == 0 {
        Seq::<char>::empty()
    } else {
        seq!['.'] + frac_chars(d.frac)
    };
    lemma_dec_digits_shape(d.int_part as int);
    lemma_digits_val_dec_digits(d.int_part as int);
    assert(print_dec(d) == sign + ds + tail);
    lemma_at_seq_split(s, i, sign + ds, tail);
    lemma_at_seq_split(s, i, sign, ds);
    lemma_at_seq_index(s, i, sign);
    let i0 = i + sign.len();
    lemma_at_seq_index(s, i0, ds);
    let e = i + print_dec(d).len();
    assert(i0 + ds.len() + tail.len() == e);
    assert forall|k: int| i0 <= k < i0 + ds.len() implies is_digit_char(#[trigger] s[k]) by {
        assert(s[i0 + (k - i0)] == ds[k - i0]);
        assert(is_digit_char(ds[k - i0]));
    }
    // the sign is read as printed
    if d.neg {
        lemma_at_one(s, i, '-');
        assert(s[i] == '-');
    } else {
        assert(s[i + 0] == ds[0]) by {
            lemma_at_seq_index(s, i0, ds);
        }
        assert(is_digit_char(s[i]));
        assert(s[i] != '-');
    }
    assert(0 <= i0 < s.len() && is_digit_char(s[i0]));
    // the integer digit run ends exactly at i0 + ds.len()
    let after_int = i0 + ds.len();
    assert(after_int < s.len() ==> !is_digit_char(s[after_int])) by {
        if after_int < s.len() {
            if d.frac.len() == 0 {
                assert(after_int == e);
            } else {
                assert(tail =~= seq!['.'] + frac_chars(d.frac));
                lemma_at_seq_split(s, after_int, seq!['.'], frac_chars(d.frac));
                lemma_at_one(s, after_int, '.');
                assert(s[after_int] == '.');
            }
        }
    }
    lemma_digit_end_exact(s, i0, after_int);
    let int_end_spec = if s[i0] == '0' { i0 + 1 } else { digit_end(s, i0) };
    assert(int_end_spec == after_int) by {
        if s[i0] == '0' {
            assert(ds[0] == '0');
            if d.int_part >= 1 {
                assert(ds[0] != '0');
            }
            assert(d.int_part == 0);
            assert(ds.len() == 1);
        }
    }
    assert(s.subrange(i0, after_int) =~= ds);
    assert(digits_val(s.subrange(i0, after_int)) == d.int_part as int);
    if d.frac.len() == 0 {
        assert(after_int == e);
        assert(!(after_int < s.len() && s[after_int] == '.'));
        let got = sparse_number(s, i);
        assert(got == Some(
            (DecV { neg: d.neg, int_part: d.int_part, frac: Seq::<u8>::empty() }, after_int),
        ));
        assert(DecV { neg: d.neg, int_part: d.int_part, frac: Seq::<u8>::empty() } =~= d);
    } else {
        assert(tail =~= seq!['.'] + frac_chars(d.frac));
        lemma_at_seq_split(s, after_int, seq!['.'], frac_chars(d.frac));
        lemma_at_one(s, after_int, '.');
        assert(s[after_int] == '.');
        assert(after_int < e <= s.len());
        let fs = after_int + 1;
        let fcs = frac_chars(d.frac);
        assert(at_seq(s, fs, fcs)) by {
            assert(tail =~= seq!['.'] + fcs);
            lemma_at_seq_split(s, after_int, seq!['.'], fcs);
        }
        lemma_at_seq_index(s, fs, fcs);
        assert forall|k: int| 0 <= k < fcs.len() implies is_digit_char(#[trigger] fcs[k]) by {
            assert(d.frac[k] < 10);
            lemma_digit_char_val(d.frac[k] as int);
        }
        let fe = fs + fcs.len();
        assert(fe == e);
        assert forall|k: int| fs <= k < fe implies is_digit_char(#[trigger] s[k]) by {
            assert(s[fs + (k - fs)] == fcs[k - fs]);
            assert(is_digit_char(fcs[k - fs]));
        }
        assert(fe < s.len() ==> !is_digit_char(s[fe])) by {
            if fe < s.len() {
                assert(fe == e);
            }
        }
        lemma_digit_end_exact(s, fs, fe);
        assert(fe > fs);
        let got_frac = crate::jsonparse::frac_vals(s.subrange(fs, fe));
        assert forall|k: int| 0 <= k < d.frac.len() implies got_frac[k] == d.frac[k] by {
            assert(s.subrange(fs, fe)[k] == s[fs + k]);
            assert(s[fs + k] == fcs[k]);
            assert(fcs[k] == digit_char(d.frac[k] as int));
            lemma_digit_char_val(d.frac[k] as int);
        }
        assert(got_frac =~= d.frac);
        assert(sparse_number(s, i) == Some((DecV { neg: d.neg, int_part: d.int_part, frac: got_frac }, fe)));
        assert(DecV { neg: d.neg, int_part: d.int_part, frac: got_frac } =~= d);
    }
}

/// Reading back a printed value embedded in a larger text.
pub proof fn lemma_print_parse_value(v: JsonV, s: Seq<char>, i: int, f: nat)
    requires
        wf_jsonv(v),
        at_seq(s, i, print_jsonv(v)),
        num_delim(s, i + print_jsonv(v).len()),
        f >= needed_value(s, i),
    ensures
        sparse_value(s, i, f) == Some((v, i + print_jsonv(v).len())),
    decreases v, 1int, 0int,
{
    let p = print_jsonv(v);
    let e = i + p.len();
    lemma_print_head(v);
    lemma_at_seq_index(s, i, p);
    assert(s[i] == p[0]);
    assert(!is_ws_char(s[i]));
    assert(skip_ws(s, i) == i);
    assert(f >= 1);
    match v {
        JsonV::Null => {
            assert(s.subrange(i, i + 4) =~= seq!['n', 'u', 'l', 'l']);
            assert(lit_at(s, i, seq!['n', 'u', 'l', 'l']));
            assert(s[i] == 'n');
            assert(p.len() == 4);
            assert(sparse_value(s, i, f) == Some((v, i + 4)));
        },
        JsonV::Bool(b) => {
            if b {
                assert(s.subrange(i, i + 4) =~= seq!['t', 'r', 'u', 'e']);
                assert(lit_at(s, i, seq!['t', 'r', 'u', 'e']));
            } else {
                assert(s.subrange(i, i + 5) =~= seq!['f', 'a', 'l', 's', 'e']);
                assert(lit_at(s, i, seq!['f', 'a', 'l', 's', 'e']));
            }
            assert(sparse_value(s, i, f) == Some((v, i + p.len())));
        },
        JsonV::Num(d) => {
            lemma_parse_num_print(d, s, i);
            assert(s[i] == '-' || is_digit_char(s[i]));
            assert(s[i] != 'n' && s[i] != 't' && s[i] != 'f' && s[i] != '"' && s[i] != '['
                && s[i] != '{');
            assert(sparse_value(s, i, f) == Some((v, i + p.len())));
        },
        JsonV::Str(cs) => {
            assert(p =~= (seq!['"'] + escape_chars(cs)).push('"'));
            assert(at_seq(s, i + 1, escape_chars(cs))) by {
                assert(p == seq!['"'] + escape_chars(cs) + seq!['"']);
                lemma_at_seq_split(s, i, seq!['"'] + escape_chars(cs), seq!['"']);
                lemma_at_seq_split(s, i, seq!['"'], escape_chars(cs));
            }
            assert(s[i + 1 + escape_chars(cs).len()] == '"') by {
                assert(p[1 + escape_chars(cs).len() as int] == '"');
            }
            lemma_parse_str_print(cs, s, i + 1);
            assert(sparse_value(s, i, f) == Some((v, i + p.len())));
        },
        JsonV::Arr(es) => {
            assert(p == seq!['['] + print_elems(es, 0) + seq![']']);
            lemma_at_seq_split(s, i, seq!['['] + print_elems(es, 0), seq![']']);
            lemma_at_seq_split(s, i, seq!['['], print_elems(es, 0));
            lemma_at_one(s, i + 1 + print_elems(es, 0).len(), ']');
            assert(s[i + 1 + print_elems(es, 0).len()] == ']');
            if es.len() == 0 {
                assert(es =~= Seq::<JsonV>::empty());
                assert(print_elems(es, 0) == Seq::<char>::empty());
                assert(s[i + 1] == ']');
                assert(!is_ws_char(']'));
                assert(skip_ws(s, i + 1) == i + 1);
            } else {
                lemma_print_head(es[0]);
                assert(print_elems(es, 0)[0] == print_jsonv(es[0])[0]) by {
                    if es.len() == 1 {
                    } else {
                        assert(print_elems(es, 0) == print_jsonv(es[0]) + seq![','] + print_elems(
                            es,
                            1,
                        ));
                    }
                }
                lemma_at_seq_index(s, i + 1, print_elems(es, 0));
                assert(s[i + 1] == print_elems(es, 0)[0]);
                assert(!is_ws_char(s[i + 1]));
                assert(skip_ws(s, i + 1) == i + 1);
                assert(s[i + 1] != ']');
                lemma_print_parse_elems(es, 0, s, i + 1, (f - 1) as nat);
                assert(es.skip(0) =~= es);
            }
            assert(sparse_value(s, i, f) == Some((v, i + p.len())));
        },
        JsonV::Obj(ms) => {
            assert(p == seq!['{'] + print_members(ms, 0) + seq!['}']);
            lemma_at_seq_split(s, i, seq!['{'] + print_members(ms, 0), seq!['}']);
            lemma_at_seq_split(s, i, seq!['{'], print_members(ms, 0));
            lemma_at_one(s, i + 1 + print_members(ms, 0).len(), '}');
            assert(s[i + 1 + print_members(ms, 0).len()] == '}');
            if ms.len() == 0 {
                assert(ms =~= Seq::<MemberV>::empty());
                assert(print_members(ms, 0) == Seq::<char>::empty());
                assert(s[i + 1] == '}');
                assert(skip_ws(s, i + 1) == i + 1);
            } else {
                assert(print_members(ms, 0)[0] == '"') by {
                    let one = seq!['"'] + escape_chars(ms[0].key) + seq!['"', ':'] + print_jsonv(
                        ms[0].val,
                    );
                    assert(one[0] == '"');
                    if ms.len() == 1 {
                    } else {
                        assert(print_members(ms, 0) == one + seq![','] + print_members(ms, 1));
                    }
                }
                lemma_at_seq_index(s, i + 1, print_members(ms, 0));
                assert(s[i + 1] == '"');
                assert(skip_ws(s, i + 1) == i + 1);
                assert(s[i + 1] != '}');
                lemma_print_parse_members(ms, 0, s, i + 1, (f - 1) as nat);
                assert(ms.skip(0) =~= ms);
            }
            assert(sparse_value(s, i, f) == Some((v, i + p.len())));
        },
    }
}

/// Reading back printed elements `es[k..]` followed by `]`.
pub proof fn lemma_print_parse_elems(es: Seq<JsonV>, k: int, s: Seq<char>, i: int, f: nat)
    requires
        wf_jsonv(JsonV::Arr(es)),
        0 <= k < es.len(),
        at_seq(s, i, print_elems(es, k)),
        i + print_elems(es, k).len() + 1 <= s.len(),
        s[i + print_elems(es, k).len()] == ']',
        f >= needed_list(s, i),
    ensures
        sparse_elems(s, i, f) == Some((es.skip(k), i + print_elems(es, k).len() + 1)),
    decreases es, 0int, es.len() - k,
{
    lemma_wf_arr(es);
    let pk = print_elems(es, k);
    let pv = print_jsonv(es[k]);
    if k == es.len() - 1 {
        assert(pk == pv);
        assert(num_delim(s, i + pv.len())) by {
            assert(s[i + pv.len()] == ']');
        }
        lemma_print_parse_value(es[k], s, i, (f - 1) as nat);
        let j = i + pv.len();
        assert(!is_ws_char(']'));
        assert(skip_ws(s, j) == j);
        assert(seq![es[k]] =~= es.skip(k));
    } else {
        assert(pk == pv + seq![','] + print_elems(es, k + 1));
        lemma_at_seq_split(s, i, pv + seq![','], print_elems(es, k + 1));
        lemma_at_seq_split(s, i, pv, seq![',']);
        lemma_at_one(s, i + pv.len(), ',');
        assert(s[i + pv.len()] == ',');
        assert(num_delim(s, i + pv.len()));
        lemma_print_parse_value(es[k], s, i, (f - 1) as nat);
        let j = i + pv.len();
        assert(skip_ws(s, j) == j);
        let i2 = j + 1;
        assert(s[i2 + print_elems(es, k + 1).len()] == ']') by {
            assert(i2 + print_elems(es, k + 1).len() == i + pk.len());
        }
        lemma_print_parse_elems(es, k + 1, s, i2, (f - 1) as nat);
        assert(seq![es[k]] + es.skip(k + 1) =~= es.skip(k));
        assert(i2 + print_elems(es, k + 1).len() + 1 == i + pk.len() + 1);
    }
}

/// Reading back printed members `ms[k..]` followed by `}`.
pub proof fn lemma_print_parse_members(ms: Seq<MemberV>, k: int, s: Seq<char>, i: int, f: nat)
    requires
        wf_jsonv(JsonV::Obj(ms)),
        0 <= k < ms.len(),
        at_seq(s, i, print_members(ms, k)),
        i + print_members(ms, k).len() + 1 <= s.len(),
        s[i + print_members(ms, k).len()] == '}',
        f >= needed_list(s, i),
    ensures
        sparse_members(s, i, f) == Some((ms.skip(k), i + print_members(ms, k).len() + 1)),
    decreases ms, 0int, ms.len() - k,
{
    lemma_wf_obj(ms);
    let pk = print_members(ms, k);
    let key = ms[k].key;
    let pv = print_jsonv(ms[k].val);
    let one = seq!['"'] + escape_chars(key) + seq!['"', ':'] + pv;
    let onehead = seq!['"'] + escape_chars(key) + seq!['"', ':'];
    assert(one == onehead + pv);
    let last = k == ms.len() - 1;
    if last {
        assert(pk == one);
    } else {
        assert(pk == one + seq![','] + print_members(ms, k + 1));
        lemma_at_seq_split(s, i, one + seq![','], print_members(ms, k + 1));
        lemma_at_seq_split(s, i, one, seq![',']);
        lemma_at_one(s, i + one.len(), ',');
    }
    assert(at_seq(s, i, one)) by {
        if last {
        } else {
        }
    }
    assert(onehead =~= (seq!['"'] + escape_chars(key)) + seq!['"', ':']);
    lemma_at_seq_split(s, i, onehead, pv);
    assert(at_seq(s, i, (seq!['"'] + escape_chars(key)) + seq!['"', ':']));
    lemma_at_seq_split(s, i, seq!['"'] + escape_chars(key), seq!['"', ':']);
    lemma_at_seq_split(s, i, seq!['"'], escape_chars(key));
    lemma_at_one(s, i, '"');
    assert(s[i] == '"');
    assert(skip_ws(s, i) == i);
    let qe = i + 1 + escape_chars(key).len();
    lemma_at_two(s, qe, '"', ':');
    assert(s[qe] == '"');
    assert(s[qe + 1] == ':');
    lemma_parse_str_print(key, s, i + 1);
    assert(sparse_str_chars(s, i + 1) == Some((key, qe + 1)));
    assert(skip_ws(s, qe + 1) == qe + 1);
    let vstart = qe + 2;
    assert(vstart == i + onehead.len());
    let vend = vstart + pv.len();
    assert(num_delim(s, vend)) by {
        if last {
            assert(vend == i + pk.len());
            assert(s[vend] == '}');
        } else {
            assert(vend == i + one.len());
            assert(s[vend] == ',');
        }
    }
    lemma_print_parse_value(ms[k].val, s, vstart, (f - 1) as nat);
    assert(skip_ws(s, vend) == vend) by {
        if last {
            assert(s[vend] == '}');
        } else {
            assert(s[vend] == ',');
        }
    }
    if last {
        assert(s[vend] == '}');
        assert(seq![MemberV { key, val: ms[k].val }] =~= ms.skip(k));
        assert(MemberV { key, val: ms[k].val } =~= ms[k]);
    } else {
        assert(s[vend] == ',');
        let i2 = vend + 1;
        assert(at_seq(s, i2, print_members(ms, k + 1)));
        assert(s[i2 + print_members(ms, k + 1).len()] == '}') by {
            assert(i2 + print_members(ms, k + 1).len() == i + pk.len());
        }
        lemma_print_parse_members(ms, k + 1, s, i2, (f - 1) as nat);
        assert(MemberV { key, val: ms[k].val } =~= ms[k]);
        assert(seq![ms[k]] + ms.skip(k + 1) =~= ms.skip(k));
        assert(i2 + print_members(ms, k + 1).len() + 1 == i + pk.len() + 1);
    }
}

/// The round trip: reading a printed well-formed document yields it back.
pub proof fn lemma_print_parse_json(v: JsonV)
    requires
        wf_jsonv(v),
    ensures
        sparse_json(print_jsonv(v)) == Some(v),
{
    let s = print_jsonv(v);
    assert(s.subrange(0, s.len() as int) =~= s);
    assert(at_seq(s, 0, s));
    lemma_print_parse_value(v, s, 0, needed_value(s, 0));
    assert(skip_ws(s, s.len() as int) == s.len());
}

} // verus!
