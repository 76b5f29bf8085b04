//! The JSON writer and parser invert each other: parsing the canonical
//! text of a well-formed value yields that value back.
use vstd::prelude::*;

use crate::json::Jv;
use crate::json::sp_escape_char;
use crate::json::sp_hex_digit;
use crate::json::sp_hex_val;
use crate::json::sp_is_digit;
use crate::json::sp_is_ws;
use crate::json::sp_digits_end;
use crate::json::sp_parse_number;
use crate::json::sp_parse_string_body;
use crate::json::sp_print;
use crate::json::sp_print_string_body;
use crate::json::sp_short_escape;

verus! {

/// Well-formed values: number lexemes are complete, maximal number
/// texts; everything else is unconstrained.
pub open spec fn sp_wf(v: Jv) -> bool
    decreases v, 0int,
{
    match v {
        Jv::Null => true,
        Jv::Bool(_) => true,
        Jv::Str(_) => true,
        Jv::Num(t) => sp_parse_number(t, 0) == Some((t, t.len() as int)),
        Jv::Arr(items) => sp_wf_items(items, 0),
        Jv::Obj(members) => sp_wf_members(members, 0),
    }
}

/// Every element of `items[k..]` is well-formed.
pub open spec fn sp_wf_items(items: Seq<Jv>, k: int) -> bool
    decreases items, items.len() - k, 1int,
{
    if !(0 <= k < items.len()) {
        true
    } else {
        sp_wf(items[k]) && sp_wf_items(items, k + 1)
    }
}

/// Every value of `members[k..]` is well-formed.
pub open spec fn sp_wf_members(members: Seq<(Seq<char>, Jv)>, k: int) -> bool
    decreases members, members.len() - k, 1int,
    via sp_wf_members_decreases
{
    if !(0 <= k < members.len()) {
        true
    } else {
        sp_wf(members[k].1) && sp_wf_members(members, k + 1)
    }
}

#[via_fn]
proof fn sp_wf_members_decreases(members: Seq<(Seq<char>, Jv)>, k: int) {
    if 0 <= k < members.len() {
        assert(decreases_to!(members => members[k]));
        assert(decreases_to!(members[k] => members[k].1));
    }
}

/// Fuel that suffices to parse the printed form of `v`.
pub open spec fn sp_sz(v: Jv) -> nat
    decreases v, 0int,
{
    match v {
        Jv::Arr(items) => 1 + sp_sz_items(items, 0),
        Jv::Obj(members) => 1 + sp_sz_members(members, 0),
        _ => 1nat,
    }
}

/// Fuel that suffices for the elements of `items[k..]`.
pub open spec fn sp_sz_items(items: Seq<Jv>, k: int) -> nat
    decreases items, items.len() - k, 1int,
{
    if !(0 <= k < items.len()) {
        1nat
    } else if sp_sz(items[k]) >= sp_sz_items(items, k + 1) {
        1 + sp_sz(items[k])
    } else {
        1 + sp_sz_items(items, k + 1)
    }
}

/// Fuel that suffices for the members of `members[k..]`.
pub open spec fn sp_sz_members(members: Seq<(Seq<char>, Jv)>, k: int) -> nat
    decreases members, members.len() - k, 1int,
    via sp_sz_members_decreases
{
    if !(0 <= k < members.len()) {
        1nat
    } else if sp_sz(members[k].1) >= sp_sz_members(members, k + 1) {
        1 + sp_sz(members[k].1)
    } else {
        1 + sp_sz_members(members, k + 1)
    }
}

#[via_fn]
proof fn sp_sz_members_decreases(members: Seq<(Seq<char>, Jv)>, k: int) {
    if 0 <= k < members.len() {
        assert(decreases_to!(members => members[k]));
        assert(decreases_to!(members[k] => members[k].1));
    }
}

/// Splitting a matched span splits into matched spans.
proof fn lemma_span_split(s: Seq<char>, i: int, a: Seq<char>, b: Seq<char>)
    requires
        0 <= i,
        i + a.len() + b.len() <= s.len(),
        s.subrange(i, i + a.len() + b.len()) == a + b,
    ensures
        s.subrange(i, i + a.len()) =~= a,
        s.subrange(i + a.len(), i + a.len() + b.len()) =~= b,
        forall|k: int| 0 <= k < a.len() ==> s[i + k] == a[k],
        forall|k: int| 0 <= k < b.len() ==> s[i + a.len() + k] == b[k],
{
    assert forall|k: int| 0 <= k < a.len() implies s[i + k] == a[k] by {
        assert(s.subrange(i, i + a.len() + b.len())[k] == s[i + k]);
        assert((a + b)[k] == a[k]);
    }
    assert forall|k: int| 0 <= k < b.len() implies s[i + a.len() + k] == b[k] by {
        assert(s.subrange(i, i + a.len() + b.len())[a.len() + k] == s[i + a.len() + k]);
        assert((a + b)[a.len() + k] == b[k]);
    }
}

/// A matched span is read off character by character.
proof fn lemma_span_chars(s: Seq<char>, i: int, a: Seq<char>)
    requires
        0 <= i,
        i + a.len() <= s.len(),
        s.subrange(i, i + a.len()) == a,
    ensures
        forall|k: int| 0 <= k < a.len() ==> s[i + k] == a[k],
{
    assert forall|k: int| 0 <= k < a.len() implies s[i + k] == a[k] by {
        assert(s.subrange(i, i + a.len())[k] == s[i + k]);
    }
}

/// Decoding inverts the escape of one character, within a string
/// literal: reading the escape of `c` and then the decoded rest yields
/// `c` before the rest.
proof fn lemma_escape_decodes(s: Seq<char>, i: int, c: char, rest: Seq<char>, j: int)
    requires
        0 <= i,
        i + sp_escape_char(c).len() <= s.len(),
        forall|k: int| 0 <= k < sp_escape_char(c).len() ==> s[i + k] == sp_escape_char(c)[k],
        sp_parse_string_body(s, i + sp_escape_char(c).len()) == Some((rest, j)),
    ensures
        sp_parse_string_body(s, i) == Some((seq![c] + rest, j)),
{
    let e = sp_escape_char(c);
    if c == '"' || c == '\\' {
        assert(s[i] == '\\');
        assert(sp_short_escape(s[i + 1]) == Some(c));
    } else if c == '\n' || c == '\r' || c == '\t' || c == '\u{8}' || c == '\u{c}' {
        assert(s[i] == '\\');
        assert(sp_short_escape(s[i + 1]) == Some(c));
    } else if (c as u32) < 0x20 {
        assert(s[i] == '\\');
        assert(s[i + 1] == 'u');
        assert(s[i + 2] == '0');
        assert(s[i + 3] == '0');
        assert(s[i + 4] == sp_hex_digit(c as u32 as int / 16));
        assert(s[i + 5] == sp_hex_digit(c as u32 as int % 16));
        lemma_hex_digit_val(c as u32 as int / 16);
        lemma_hex_digit_val(c as u32 as int % 16);
        assert(sp_hex_val(s[i + 2]) == 0);
        assert(sp_hex_val(s[i + 3]) == 0);
        let code = sp_hex_val(s[i + 2]) * 4096 + sp_hex_val(s[i + 3]) * 256 + sp_hex_val(s[i + 4])
            * 16 + sp_hex_val(s[i + 5]);
        assert(code == (c as u32 as int / 16) * 16 + (c as u32 as int % 16));
        assert(code == c as u32);
        assert(code < 0xD800);
        assert((code as u32) as char == c);
    } else {
        assert(sp_escape_char(c) =~= seq![c]);
        assert(s[i + 0] == sp_escape_char(c)[0]);
        assert(s[i] == c);
        assert(c != '"' && c != '\\');
        assert(!((s[i] as u32) < 0x20));
    }
}

/// Hexadecimal digits read back as their value.
proof fn lemma_hex_digit_val(d: int)
    requires
        0 <= d < 16,
    ensures
        sp_hex_val(sp_hex_digit(d)) == d,
{
}

/// Parsing the printed body of `t[j..]`, followed by the closing quote,
/// decodes exactly `t[j..]`.
proof fn lemma_string_body_round_trip(t: Seq<char>, j: int, s: Seq<char>, i: int)
    requires
        0 <= j <= t.len(),
        0 <= i,
        i + sp_print_string_body(t, j).len() + 1 <= s.len(),
        s.subrange(i, i + sp_print_string_body(t, j).len() + 1) == sp_print_string_body(t, j)
            + seq!['"'],
    ensures
        sp_parse_string_body(s, i) == Some(
            (t.subrange(j, t.len() as int), i + sp_print_string_body(t, j).len() + 1),
        ),
    decreases t.len() - j,
{
    let body = sp_print_string_body(t, j);
    lemma_span_split(s, i, body, seq!['"']);
    if j == t.len() {
        assert(body =~= Seq::<char>::empty());
        assert(s[i + body.len() + 0] == seq!['"'][0]);
        assert(s[i] == '"');
        assert(t.subrange(j, t.len() as int) =~= Seq::<char>::empty());
    } else {
        let e = sp_escape_char(t[j]);
        let tail = sp_print_string_body(t, j + 1);
        assert(body == e + tail);
        assert((e + tail) + seq!['"'] =~= e + (tail + seq!['"']));
        lemma_span_split(s, i, e, tail + seq!['"']);
        lemma_string_body_round_trip(t, j + 1, s, i + e.len());
        lemma_escape_decodes(s, i, t[j], t.subrange(j + 1, t.len() as int), i + body.len() + 1);
        assert(seq![t[j]] + t.subrange(j + 1, t.len() as int) =~= t.subrange(j, t.len() as int));
    }
}

} // verus!

verus! {

/// A digit scan over an embedded copy of `t` tracks the scan over `t`
/// itself, as long as no digit follows the copy.
proof fn lemma_digits_end_embed(s: Seq<char>, i: int, t: Seq<char>, a: int)
    requires
        0 <= i,
        0 <= a <= t.len(),
        i + t.len() <= s.len(),
        forall|k: int| 0 <= k < t.len() ==> s[i + k] == t[k],
        i + t.len() == s.len() || !sp_is_digit(s[i + t.len()]),
    ensures
        sp_digits_end(s, i + a) == i + sp_digits_end(t, a),
    decreases t.len() - a,
{
    if a < t.len() {
        assert(s[i + a] == t[a]);
        if sp_is_digit(t[a]) {
            lemma_digits_end_embed(s, i, t, a + 1);
        }
    }
}

/// Parsing a number at an embedded copy of a complete number lexeme
/// consumes exactly the lexeme, when what follows cannot extend it.
proof fn lemma_number_round_trip(t: Seq<char>, s: Seq<char>, i: int)
    requires
        sp_parse_number(t, 0) == Some((t, t.len() as int)),
        0 <= i,
        i + t.len() <= s.len(),
        s.subrange(i, i + t.len()) == t,
        i + t.len() == s.len() || (s[i + t.len()] == ',' || s[i + t.len()] == ']' || s[i
            + t.len()] == '}'),
    ensures
        sp_parse_number(s, i) == Some((t, i + t.len())),
{
    lemma_span_chars(s, i, t);
    let bnd = i + t.len();
    assert(bnd == s.len() || (!sp_is_digit(s[bnd]) && s[bnd] != '.' && s[bnd] != 'e' && s[bnd]
        != 'E' && s[bnd] != '+' && s[bnd] != '-'));
    // The standalone parse succeeded, so the lexeme is nonempty.
    assert(t.len() >= 1) by {
        if t.len() == 0 {
            assert(sp_parse_number(t, 0) is None);
        }
    }
    let j0s = if t[0] == '-' {
        1int
    } else {
        0int
    };
    let j0 = i + j0s;
    assert(s[i] == t[0]);
    // The integer part exists.
    assert(0 <= j0s < t.len() && sp_is_digit(t[j0s])) by {
        if !(0 <= j0s < t.len() && sp_is_digit(t[j0s])) {
            assert(sp_parse_number(t, 0) is None);
        }
    }
    assert(s[j0] == t[j0s]);
    lemma_digits_end_embed(s, i, t, j0s);
    let j1s = if t[j0s] == '0' {
        j0s + 1
    } else {
        sp_digits_end(t, j0s)
    };
    let j1 = i + j1s;
    lemma_digits_end_bounds_rt(t, j0s);
    assert(sp_digits_end(s, j0) == i + sp_digits_end(t, j0s));
    // Fraction part: the conditions agree between `t` and `s`.
    let cond_t = j1s < t.len() && t[j1s] == '.' && j1s + 1 < t.len() && sp_is_digit(t[j1s + 1]);
    let cond_s = j1 < s.len() && s[j1] == '.' && j1 + 1 < s.len() && sp_is_digit(s[j1 + 1]);
    assert(j1s <= t.len());
    assert(cond_t == cond_s) by {
        if j1s < t.len() {
            assert(s[j1] == t[j1s]);
            if t[j1s] == '.' {
                // A trailing or digit-less dot would have stopped the
                // standalone parse before the end of the lexeme.
                if !(j1s + 1 < t.len() && sp_is_digit(t[j1s + 1])) {
                    assert(sp_parse_number(t, 0) == Some((t.subrange(0, j1s), j1s)));
                }
                assert(j1s + 1 < t.len());
                assert(s[j1 + 1] == t[j1s + 1]);
            }
        }
    }
    if cond_t {
        lemma_digits_end_embed(s, i, t, j1s + 1);
        lemma_digits_end_bounds_rt(t, j1s + 1);
    }
    let j2s = if cond_t {
        sp_digits_end(t, j1s + 1)
    } else {
        j1s
    };
    let j2 = i + j2s;
    assert(j2s <= t.len());
    // Exponent part: the conditions agree as well.
    let cond2_t = j2s < t.len() && (t[j2s] == 'e' || t[j2s] == 'E');
    let cond2_s = j2 < s.len() && (s[j2] == 'e' || s[j2] == 'E');
    assert(cond2_t == cond2_s) by {
        if j2s < t.len() {
            assert(s[j2] == t[j2s]);
        }
    }
    if cond2_t {
        // The standalone parse reached the end, so the exponent is
        // complete: a sign slot, then at least one digit.
        let k_t = if j2s + 1 < t.len() && (t[j2s + 1] == '+' || t[j2s + 1] == '-') {
            j2s + 2
        } else {
            j2s + 1
        };
        assert(k_t < t.len() && sp_is_digit(t[k_t])) by {
            if !(k_t < t.len() && sp_is_digit(t[k_t])) {
                assert(sp_parse_number(t, 0) is None);
            }
        }
        assert(j2s + 1 < t.len()) by {
            if j2s + 1 >= t.len() {
                assert(k_t == j2s + 1);
            }
        }
        assert(s[j2 + 1] == t[j2s + 1]);
        let k_s = if j2 + 1 < s.len() && (s[j2 + 1] == '+' || s[j2 + 1] == '-') {
            j2 + 2
        } else {
            j2 + 1
        };
        assert(k_s == i + k_t);
        assert(s[k_s] == t[k_t]);
        lemma_digits_end_embed(s, i, t, k_t);
        let j3s = sp_digits_end(t, k_t);
        assert(j3s == t.len()) by {
            if j3s != t.len() {
                lemma_digits_end_bounds_rt(t, k_t);
                assert(sp_parse_number(t, 0) == Some((t.subrange(0, j3s), j3s)));
            }
        }
        assert(s.subrange(i, i + t.len()) == t);
    } else {
        assert(j2s == t.len()) by {
            if j2s != t.len() {
                assert(sp_parse_number(t, 0) == Some((t.subrange(0, j2s), j2s)));
            }
        }
    }
}

/// Bounds of the digit scan, restated here for the round-trip proofs.
proof fn lemma_digits_end_bounds_rt(t: Seq<char>, a: int)
    requires
        0 <= a <= t.len(),
    ensures
        a <= sp_digits_end(t, a) <= t.len(),
    decreases t.len() - a,
{
    if a < t.len() && sp_is_digit(t[a]) {
        lemma_digits_end_bounds_rt(t, a + 1);
    }
}

} // verus!

verus! {

/// The first character of a printed value marks its branch: a quote, a
/// bracket, a brace, a keyword letter, a sign or a digit.
proof fn lemma_print_starts(v: Jv)
    requires
        sp_wf(v),
    ensures
        sp_print(v).len() >= 1,
        ({
            let c = sp_print(v)[0];
            c == '"' || c == '[' || c == '{' || c == 't' || c == 'f' || c == 'n' || c == '-'
                || sp_is_digit(c)
        }),
{
    match v {
        Jv::Num(t) => {
            assert(t.len() >= 1) by {
                if t.len() == 0 {
                    assert(sp_parse_number(t, 0) is None);
                }
            }
            if t[0] != '-' {
                assert(sp_is_digit(t[0])) by {
                    if !sp_is_digit(t[0]) {
                        assert(sp_parse_number(t, 0) is None);
                    }
                }
            }
        },
        Jv::Str(st) => {
            assert(sp_print(v)[0] == '"');
        },
        _ => {},
    }
}

/// The fuel a value needs is at most its printed length.
proof fn lemma_sz_le_print(v: Jv)
    requires
        sp_wf(v),
    ensures
        sp_sz(v) <= sp_print(v).len(),
    decreases v, 0int, 0int,
{
    match v {
        Jv::Arr(items) => {
            if items.len() == 0 {
                assert(crate::json::sp_print_items(items, 0) =~= Seq::<char>::empty());
            } else {
                assert(decreases_to!(v => v->Arr_0));
                lemma_sz_items_le_print(items, 0);
            }
        },
        Jv::Obj(members) => {
            if members.len() == 0 {
                assert(crate::json::sp_print_members(members, 0) =~= Seq::<char>::empty());
            } else {
                assert(decreases_to!(v => v->Obj_0));
                lemma_sz_members_le_print(members, 0);
            }
        },
        Jv::Str(st) => {
            assert(sp_print(v).len() >= 1);
        },
        Jv::Num(t) => {
            lemma_print_starts(v);
        },
        _ => {},
    }
}

/// The fuel a tail of elements needs is at most its printed length plus
/// one.
proof fn lemma_sz_items_le_print(items: Seq<Jv>, k: int)
    requires
        0 <= k < items.len(),
        sp_wf_items(items, k),
    ensures
        sp_sz_items(items, k) <= crate::json::sp_print_items(items, k).len() + 1,
    decreases items, items.len() - k, 1int,
{
    assert(decreases_to!(items => items[k]));
    lemma_sz_le_print(items[k]);
    lemma_print_starts(items[k]);
    if k + 1 < items.len() {
        lemma_sz_items_le_print(items, k + 1);
    }
}

/// The fuel a tail of members needs is at most its printed length plus
/// one.
proof fn lemma_sz_members_le_print(members: Seq<(Seq<char>, Jv)>, k: int)
    requires
        0 <= k < members.len(),
        sp_wf_members(members, k),
    ensures
        sp_sz_members(members, k) <= crate::json::sp_print_members(members, k).len() + 1,
    decreases members, members.len() - k, 1int,
{
    assert(decreases_to!(members => members[k]));
    assert(decreases_to!(members[k] => members[k].1));
    lemma_sz_le_print(members[k].1);
    lemma_print_starts(members[k].1);
    assert(crate::json::sp_print_string(members[k].0).len() >= 2);
    if k + 1 < members.len() {
        lemma_sz_members_le_print(members, k + 1);
    }
}

} // verus!

verus! {

/// Skipping whitespace at a non-whitespace position stays put.
proof fn lemma_skip_ws_at(s: Seq<char>, x: int)
    requires
        0 <= x,
        x >= s.len() || !sp_is_ws(s[x]),
    ensures
        crate::json::sp_skip_ws(s, x) == x,
{
}

/// Parsing at an embedded copy of a printed value recovers the value and
/// stops right after it, for any sufficient fuel, when what follows is a
/// separator, a closing bracket or brace, or the end of the text.
#[verifier::rlimit(60)]
proof fn lemma_value_round_trip_at(v: Jv, s: Seq<char>, i: int, fuel: nat)
    requires
        sp_wf(v),
        0 <= i,
        i + sp_print(v).len() <= s.len(),
        s.subrange(i, i + sp_print(v).len()) == sp_print(v),
        i + sp_print(v).len() == s.len() || (s[i + sp_print(v).len()] == ',' || s[i + sp_print(
            v,
        ).len()] == ']' || s[i + sp_print(v).len()] == '}'),
        fuel >= sp_sz(v),
    ensures
        crate::json::sp_parse_value(s, i, fuel) == Some((v, i + sp_print(v).len())),
    decreases v, 0int, 0int,
{
    let p = sp_print(v);
    lemma_print_starts(v);
    lemma_span_chars(s, i, p);
    assert(s[i] == p[0]);
    match v {
        Jv::Null => {
            assert(s[i + 1] == 'u' && s[i + 2] == 'l' && s[i + 3] == 'l');
        },
        Jv::Bool(b) => {
            if b {
                assert(s[i + 1] == 'r' && s[i + 2] == 'u' && s[i + 3] == 'e');
            } else {
                assert(s[i + 1] == 'a' && s[i + 2] == 'l' && s[i + 3] == 's' && s[i + 4] == 'e');
            }
        },
        Jv::Num(t) => {
            lemma_number_round_trip(t, s, i);
        },
        Jv::Str(st) => {
            let body = sp_print_string_body(st, 0);
            assert(p =~= seq!['"'] + (body + seq!['"']));
            lemma_span_split(s, i, seq!['"'], body + seq!['"']);
            lemma_string_body_round_trip(st, 0, s, i + 1);
            assert(st.subrange(0, st.len() as int) =~= st);
        },
        Jv::Arr(items) => {
            let pi = crate::json::sp_print_items(items, 0);
            assert(p =~= seq!['['] + (pi + seq![']']));
            lemma_span_split(s, i, seq!['['], pi + seq![']']);
            lemma_span_split(s, i + 1, pi, seq![']']);
            assert(s[i + 1 + pi.len() + 0] == seq![']'][0]);
            assert(s[i + 1 + pi.len()] == ']');
            if items.len() == 0 {
                assert(pi =~= Seq::<char>::empty());
                assert(s[i + 1] == ']');
                lemma_skip_ws_at(s, i + 1);
                assert(items =~= Seq::<Jv>::empty());
            } else {
                assert(decreases_to!(v => v->Arr_0));
                lemma_print_starts(items[0]);
                assert(pi == sp_print(items[0]) + (if items.len() > 1 {
                    seq![','] + crate::json::sp_print_items(items, 1)
                } else {
                    Seq::<char>::empty()
                }));
                assert(pi[0] == sp_print(items[0])[0]);
                assert(s[i + 1 + 0] == pi[0]);
                assert(s[i + 1] == pi[0]);
                lemma_skip_ws_at(s, i + 1);
                assert(s[i + 1] != ']');
                lemma_items_round_trip_at(items, 0, s, i + 1, (fuel - 1) as nat);
                assert(items.subrange(0, items.len() as int) =~= items);
            }
        },
        Jv::Obj(members) => {
            let pm = crate::json::sp_print_members(members, 0);
            assert(p =~= seq!['{'] + (pm + seq!['}']));
            lemma_span_split(s, i, seq!['{'], pm + seq!['}']);
            lemma_span_split(s, i + 1, pm, seq!['}']);
            assert(s[i + 1 + pm.len() + 0] == seq!['}'][0]);
            assert(s[i + 1 + pm.len()] == '}');
            if members.len() == 0 {
                assert(pm =~= Seq::<char>::empty());
                assert(s[i + 1] == '}');
                lemma_skip_ws_at(s, i + 1);
                assert(members =~= Seq::<(Seq<char>, Jv)>::empty());
            } else {
                assert(decreases_to!(v => v->Obj_0));
                let one = crate::json::sp_print_string(members[0].0) + seq![':'] + sp_print(
                    members[0].1,
                );
                assert(pm == one + (if members.len() > 1 {
                    seq![','] + crate::json::sp_print_members(members, 1)
                } else {
                    Seq::<char>::empty()
                }));
                assert(crate::json::sp_print_string(members[0].0)[0] == '"');
                assert(pm[0] == '"');
                assert(s[i + 1 + 0] == pm[0]);
                assert(s[i + 1] == '"');
                lemma_skip_ws_at(s, i + 1);
                assert(s[i + 1] != '}');
                lemma_members_round_trip_at(members, 0, s, i + 1, (fuel - 1) as nat);
                assert(members.subrange(0, members.len() as int) =~= members);
            }
        },
    }
}

/// Parsing at an embedded copy of the printed elements `items[k..]`,
/// terminated by a closing bracket, recovers exactly those elements.
#[verifier::rlimit(60)]
proof fn lemma_items_round_trip_at(items: Seq<Jv>, k: int, s: Seq<char>, i: int, fuel: nat)
    requires
        0 <= k < items.len(),
        sp_wf_items(items, k),
        0 <= i,
        i + crate::json::sp_print_items(items, k).len() + 1 <= s.len(),
        s.subrange(i, i + crate::json::sp_print_items(items, k).len()) == crate::json::sp_print_items(
            items,
            k,
        ),
        s[i + crate::json::sp_print_items(items, k).len()] == ']',
        fuel >= sp_sz_items(items, k),
    ensures
        crate::json::sp_parse_items(s, i, fuel) == Some(
            (
                items.subrange(k, items.len() as int),
                i + crate::json::sp_print_items(items, k).len() + 1,
            ),
        ),
    decreases items, items.len() - k, 1int,
{
    assert(decreases_to!(items => items[k]));
    let pik = crate::json::sp_print_items(items, k);
    let pv = sp_print(items[k]);
    lemma_print_starts(items[k]);
    if k + 1 == items.len() {
        assert(pik == pv);
        lemma_value_round_trip_at(items[k], s, i, (fuel - 1) as nat);
        let q = i + pv.len();
        assert(q == i + pik.len());
        assert(s[q] == ']');
        lemma_skip_ws_at(s, q);
        assert(items.subrange(k, items.len() as int) =~= seq![items[k]]);
    } else {
        let rest = crate::json::sp_print_items(items, k + 1);
        assert(pik == pv + seq![','] + rest);
        assert(pik =~= pv + (seq![','] + rest));
        lemma_span_split(s, i, pv, seq![','] + rest);
        lemma_span_split(s, i + pv.len(), seq![','], rest);
        let q = i + pv.len();
        assert(s[q + 0] == seq![','][0]);
        assert(s[q] == ',');
        lemma_value_round_trip_at(items[k], s, i, (fuel - 1) as nat);
        lemma_skip_ws_at(s, q);
        assert(sp_wf_items(items, k + 1));
        assert(sp_wf(items[k + 1]));
        lemma_print_starts(items[k + 1]);
        assert(rest[0] == sp_print(items[k + 1])[0]) by {
            assert(rest == sp_print(items[k + 1]) + (if k + 2 < items.len() {
                seq![','] + crate::json::sp_print_items(items, k + 2)
            } else {
                Seq::<char>::empty()
            }));
        }
        assert(s[q + 1 + 0] == rest[0]);
        assert(s[q + 1] == rest[0]);
        lemma_skip_ws_at(s, q + 1);
        assert(s[i + pik.len()] == ']');
        assert(q + 1 + rest.len() == i + pik.len());
        lemma_items_round_trip_at(items, k + 1, s, q + 1, (fuel - 1) as nat);
        assert(seq![items[k]] + items.subrange(k + 1, items.len() as int) =~= items.subrange(
            k,
            items.len() as int,
        ));
    }
}

/// Parsing at an embedded copy of the printed members `members[k..]`,
/// terminated by a closing brace, recovers exactly those members.
#[verifier::rlimit(60)]
proof fn lemma_members_round_trip_at(
    members: Seq<(Seq<char>, Jv)>,
    k: int,
    s: Seq<char>,
    i: int,
    fuel: nat,
)
    requires
        0 <= k < members.len(),
        sp_wf_members(members, k),
        0 <= i,
        i + crate::json::sp_print_members(members, k).len() + 1 <= s.len(),
        s.subrange(i, i + crate::json::sp_print_members(members, k).len())
            == crate::json::sp_print_members(members, k),
        s[i + crate::json::sp_print_members(members, k).len()] == '}',
        fuel >= sp_sz_members(members, k),
    ensures
        crate::json::sp_parse_members(s, i, fuel) == Some(
            (
                members.subrange(k, members.len() as int),
                i + crate::json::sp_print_members(members, k).len() + 1,
            ),
        ),
    decreases members, members.len() - k, 1int,
{
    assert(decreases_to!(members => members[k]));
    assert(decreases_to!(members[k] => members[k].1));
    let pmk = crate::json::sp_print_members(members, k);
    let key = members[k].0;
    let val = members[k].1;
    let ps = crate::json::sp_print_string(key);
    let pv = sp_print(val);
    let one = ps + seq![':'] + pv;
    lemma_print_starts(val);
    let body = sp_print_string_body(key, 0);
    if k + 1 == members.len() {
        assert(pmk == one);
        assert(pmk =~= ps + (seq![':'] + pv));
        lemma_span_split(s, i, ps, seq![':'] + pv);
        lemma_span_split(s, i + ps.len(), seq![':'], pv);
        assert(ps =~= seq!['"'] + (body + seq!['"']));
        lemma_span_split(s, i, seq!['"'], body + seq!['"']);
        assert(s[i + 0] == seq!['"'][0]);
        assert(s[i] == '"');
        lemma_string_body_round_trip(key, 0, s, i + 1);
        assert(key.subrange(0, key.len() as int) =~= key);
        let j = i + ps.len();
        assert(s[j + 0] == seq![':'][0]);
        assert(s[j] == ':');
        lemma_skip_ws_at(s, j);
        let m0 = j + 1;
        assert(s[j + 1 + 0] == pv[0]);
        assert(s[m0] == pv[0]);
        lemma_skip_ws_at(s, m0);
        lemma_value_round_trip_at(val, s, m0, (fuel - 1) as nat);
        let q = m0 + pv.len();
        assert(q == i + pmk.len());
        assert(s[q] == '}');
        lemma_skip_ws_at(s, q);
        assert(members.subrange(k, members.len() as int) =~= seq![members[k]]);
        assert((key, val) == members[k]);
    } else {
        let rest = crate::json::sp_print_members(members, k + 1);
        assert(pmk == one + seq![','] + rest);
        assert(pmk =~= ps + (seq![':'] + pv + (seq![','] + rest)));
        lemma_span_split(s, i, ps, seq![':'] + pv + (seq![','] + rest));
        assert(seq![':'] + pv + (seq![','] + rest) =~= seq![':'] + (pv + (seq![','] + rest)));
        lemma_span_split(s, i + ps.len(), seq![':'], pv + (seq![','] + rest));
        lemma_span_split(s, i + ps.len() + 1, pv, seq![','] + rest);
        lemma_span_split(s, i + ps.len() + 1 + pv.len(), seq![','], rest);
        assert(ps =~= seq!['"'] + (body + seq!['"']));
        lemma_span_split(s, i, seq!['"'], body + seq!['"']);
        assert(s[i + 0] == seq!['"'][0]);
        assert(s[i] == '"');
        lemma_string_body_round_trip(key, 0, s, i + 1);
        assert(key.subrange(0, key.len() as int) =~= key);
        let j = i + ps.len();
        assert(s[j + 0] == seq![':'][0]);
        assert(s[j] == ':');
        lemma_skip_ws_at(s, j);
        let m0 = j + 1;
        assert(s[j + 1 + 0] == pv[0]);
        assert(s[m0] == pv[0]);
        lemma_skip_ws_at(s, m0);
        let q = m0 + pv.len();
        assert(s[i + ps.len() + 1 + pv.len() + 0] == seq![','][0]);
        assert(s[q] == ',');
        lemma_value_round_trip_at(val, s, m0, (fuel - 1) as nat);
        lemma_skip_ws_at(s, q);
        assert(sp_wf_members(members, k + 1));
        assert(crate::json::sp_print_string(members[k + 1].0)[0] == '"');
        assert(rest[0] == '"') by {
            assert(rest == crate::json::sp_print_string(members[k + 1].0) + seq![':'] + sp_print(
                members[k + 1].1,
            ) + (if k + 2 < members.len() {
                seq![','] + crate::json::sp_print_members(members, k + 2)
            } else {
                Seq::<char>::empty()
            }));
        }
        assert(s[i + ps.len() + 1 + pv.len() + 1 + 0] == rest[0]);
        assert(s[q + 1] == rest[0]);
        lemma_skip_ws_at(s, q + 1);
        assert(q + 1 + rest.len() == i + pmk.len());
        assert(s[i + pmk.len()] == '}');
        lemma_members_round_trip_at(members, k + 1, s, q + 1, (fuel - 1) as nat);
        assert((key, val) == members[k]);
        assert(seq![members[k]] + members.subrange(k + 1, members.len() as int)
            =~= members.subrange(k, members.len() as int));
    }
}

/// Round trip: parsing the canonical text of a well-formed value yields
/// exactly that value. The length bound only rules out texts too large
/// for the parser's fuel to count.
pub proof fn lemma_print_parse_round_trip(v: Jv)
    requires
        sp_wf(v),
        sp_print(v).len() + 1 <= 0xFFFF_FFFF_FFFF_FFFF,
    ensures
        crate::json::sp_parse_json(sp_print(v)) == Some(v),
{
    let s = sp_print(v);
    lemma_print_starts(v);
    lemma_sz_le_print(v);
    lemma_skip_ws_at(s, 0);
    assert(s.subrange(0, s.len() as int) =~= s);
    lemma_value_round_trip_at(v, s, 0, crate::json::sp_fuel(s));
    lemma_skip_ws_at(s, s.len() as int);
}

} // verus!
