//! JSON values in the shape the pipeline routes around: a value tree whose
//! numbers stay in lexical form, with a deep mathematical model used by all
//! contracts.
use vstd::prelude::*;

verus! {

broadcast use vstd::std_specs::vec::group_vec_axioms;

/// Mathematical model of a JSON value: the view of [`JsonValue`].
#[verifier::ext_equal]
pub ghost enum Jv {
    Null,
    Bool(bool),
    Num(Seq<char>),
    Str(Seq<char>),
    Arr(Seq<Jv>),
    Obj(Seq<(Seq<char>, Jv)>),
}

/// A JSON value. Numbers are kept in their lexical form so that a value
/// round-trips through text exactly and no floating point is involved.
#[derive(Debug, PartialEq)]
pub enum JsonValue {
    Null,
    Bool(bool),
    Number(String),
    Str(String),
    Array(Vec<JsonValue>),
    Object(Vec<(String, JsonValue)>),
}

/// The model of a [`JsonValue`]; `v@` abbreviates `jv_view(v)`.
pub open spec fn jv_view(v: JsonValue) -> Jv
    decreases v, 0int,
    via jv_view_decreases
{
    match v {
        JsonValue::Null => Jv::Null,
        JsonValue::Bool(b) => Jv::Bool(b),
        JsonValue::Number(t) => Jv::Num(t@),
        JsonValue::Str(t) => Jv::Str(t@),
        JsonValue::Array(items) => Jv::Arr(jv_seq_view(items@, 0)),
        JsonValue::Object(members) => Jv::Obj(jv_members_view(members@, 0)),
    }
}

/// Models the elements of an array from index `i` on.
pub open spec fn jv_seq_view(items: Seq<JsonValue>, i: int) -> Seq<Jv>
    decreases items, items.len() - i, 1int,
{
    if i < 0 || i >= items.len() {
        Seq::empty()
    } else {
        seq![jv_view(items[i])] + jv_seq_view(items, i + 1)
    }
}

/// Models the members of an object from index `i` on.
pub open spec fn jv_members_view(members: Seq<(String, JsonValue)>, i: int) -> Seq<(Seq<char>, Jv)>
    decreases members, members.len() - i, 1int,
    via jv_members_view_decreases
{
    if i < 0 || i >= members.len() {
        Seq::empty()
    } else {
        seq![(members[i].0@, jv_view(members[i].1))] + jv_members_view(members, i + 1)
    }
}

#[via_fn]
proof fn jv_view_decreases(v: JsonValue) {
    match v {
        JsonValue::Array(items) => {
            assert(decreases_to!(v => v->Array_0));
            assert(decreases_to!(items => items@));
        },
        JsonValue::Object(members) => {
            assert(decreases_to!(v => v->Object_0));
            assert(decreases_to!(members => members@));
        },
        _ => {},
    }
}

#[via_fn]
proof fn jv_members_view_decreases(members: Seq<(String, JsonValue)>, i: int) {
    if 0 <= i < members.len() {
        assert(decreases_to!(members => members[i]));
        assert(decreases_to!(members[i] => members[i].1));
    }
}

impl View for JsonValue {
    type V = Jv;

    open spec fn view(&self) -> Jv {
        jv_view(*self)
    }
}

/// Index-wise reading of `jv_seq_view`.
pub proof fn lemma_jv_seq_view(items: Seq<JsonValue>, i: int)
    requires
        0 <= i <= items.len(),
    ensures
        jv_seq_view(items, i).len() == items.len() - i,
        forall|k: int|
            i <= k < items.len() ==> jv_seq_view(items, i)[k - i] == jv_view(#[trigger] items[k]),
    decreases items.len() - i,
{
    if i < items.len() {
        lemma_jv_seq_view(items, i + 1);
    }
}

/// Index-wise reading of `jv_members_view`.
pub proof fn lemma_jv_members_view(members: Seq<(String, JsonValue)>, i: int)
    requires
        0 <= i <= members.len(),
    ensures
        jv_members_view(members, i).len() == members.len() - i,
        forall|k: int|
            i <= k < members.len() ==> jv_members_view(members, i)[k - i] == (
            (#[trigger] members[k]).0@,
            jv_view(members[k].1),
            ),
    decreases members.len() - i,
{
    if i < members.len() {
        lemma_jv_members_view(members, i + 1);
    }
}

impl Clone for JsonValue {
    /// Cloning preserves the model of the value.
    #[verifier::loop_isolation(false)]
    fn clone(&self) -> (r: Self)
        ensures
            r@ == self@,
        decreases *self,
    {
        match self {
            JsonValue::Null => JsonValue::Null,
            JsonValue::Bool(b) => JsonValue::Bool(*b),
            JsonValue::Number(t) => JsonValue::Number(t.clone()),
            JsonValue::Str(t) => JsonValue::Str(t.clone()),
            JsonValue::Array(items) => {
                let mut out: Vec<JsonValue> = Vec::new();
                let mut i: usize = 0;
                while i < items.len()
                    invariant
                        i <= items@.len(),
                        out@.len() == i,
                        forall|k: int| 0 <= k < i ==> #[trigger] out@[k]@ == items@[k]@,
                    decreases items@.len() - i,
                {
                    proof {
                        assert(decreases_to!(*self => self->Array_0));
                        assert(decreases_to!(*items => items@));
                        assert(decreases_to!(items@ => items@[i as int]));
                    }
                    out.push(items[i].clone());
                    i = i + 1;
                }
                let r = JsonValue::Array(out);
                proof {
                    lemma_jv_seq_view(out@, 0);
                    lemma_jv_seq_view(items@, 0);
                    assert forall|k: int| 0 <= k < items@.len() implies jv_seq_view(out@, 0)[k]
                        == jv_seq_view(items@, 0)[k] by {
                        assert(jv_seq_view(out@, 0)[k] == jv_view(out@[k]));
                        assert(jv_seq_view(items@, 0)[k] == jv_view(items@[k]));
                        assert(out@[k]@ == items@[k]@);
                    }
                    assert(jv_seq_view(out@, 0) =~= jv_seq_view(items@, 0));
                    assert(r@ =~= self@);
                }
                r
            },
            JsonValue::Object(members) => {
                let mut out: Vec<(String, JsonValue)> = Vec::new();
                let mut i: usize = 0;
                while i < members.len()
                    invariant
                        i <= members@.len(),
                        out@.len() == i,
                        forall|k: int| 0 <= k < i ==> #[trigger] out@[k].0@ == members@[k].0@,
                        forall|k: int| 0 <= k < i ==> #[trigger] out@[k].1@ == members@[k].1@,
                    decreases members@.len() - i,
                {
                    proof {
                        assert(decreases_to!(*self => self->Object_0));
                        assert(decreases_to!(*members => members@));
                        assert(decreases_to!(members@ => members@[i as int]));
                        assert(decreases_to!(members@[i as int] => members@[i as int].1));
                    }
                    let m = &members[i];
                    out.push((m.0.clone(), m.1.clone()));
                    i = i + 1;
                }
                let r = JsonValue::Object(out);
                proof {
                    lemma_jv_members_view(out@, 0);
                    lemma_jv_members_view(members@, 0);
                    assert forall|k: int| 0 <= k < members@.len() implies jv_members_view(out@, 0)[k]
                        == jv_members_view(members@, 0)[k] by {
                        assert(jv_members_view(out@, 0)[k] == (out@[k].0@, jv_view(out@[k].1)));
                        assert(jv_members_view(members@, 0)[k] == (
                            members@[k].0@,
                            jv_view(members@[k].1),
                        ));
                        assert(out@[k].0@ == members@[k].0@);
                        assert(out@[k].1@ == members@[k].1@);
                    }
                    assert(jv_members_view(out@, 0) =~= jv_members_view(members@, 0));
                    assert(r@ =~= self@);
                }
                r
            },
        }
    }
}

/// Hexadecimal digit for `d` in `0..16`, upper case letters.
pub open spec fn sp_hex_digit(d: int) -> char {
    if d == 0 { '0' } else if d == 1 { '1' } else if d == 2 { '2' } else if d == 3 { '3' }
    else if d == 4 { '4' } else if d == 5 { '5' } else if d == 6 { '6' } else if d == 7 { '7' }
    else if d == 8 { '8' } else if d == 9 { '9' } else if d == 10 { 'A' } else if d == 11 { 'B' }
    else if d == 12 { 'C' } else if d == 13 { 'D' } else if d == 14 { 'E' } else { 'F' }
}

/// How one character is written inside a JSON string literal.
pub open spec fn sp_escape_char(c: char) -> Seq<char> {
    if c == '"' { seq!['\\', '"'] }
    else if c == '\\' { seq!['\\', '\\'] }
    else if c == '\n' { seq!['\\', 'n'] }
    else if c == '\r' { seq!['\\', 'r'] }
    else if c == '\t' { seq!['\\', 't'] }
    else if c == '\u{8}' { seq!['\\', 'b'] }
    else if c == '\u{c}' { seq!['\\', 'f'] }
    else if (c as u32) < 0x20 {
        seq!['\\', 'u', '0', '0', sp_hex_digit(c as u32 as int / 16), sp_hex_digit(
            c as u32 as int % 16,
        )]
    } else {
        seq![c]
    }
}

/// The characters of `s` as written inside a JSON string literal, from `i` on.
pub open spec fn sp_print_string_body(s: Seq<char>, i: int) -> Seq<char>
    decreases s.len() - i,
{
    if i < 0 || i >= s.len() {
        Seq::empty()
    } else {
        sp_escape_char(s[i]) + sp_print_string_body(s, i + 1)
    }
}

/// A JSON string literal for `s`, quotes included.
pub open spec fn sp_print_string(s: Seq<char>) -> Seq<char> {
    seq!['"'] + sp_print_string_body(s, 0) + seq!['"']
}

/// The canonical text of a JSON value: no whitespace, numbers verbatim.
pub open spec fn sp_print(v: Jv) -> Seq<char>
    decreases v, 0int, 0int,
{
    match v {
        Jv::Null => seq!['n', 'u', 'l', 'l'],
        Jv::Bool(b) => if b {
            seq!['t', 'r', 'u', 'e']
        } else {
            seq!['f', 'a', 'l', 's', 'e']
        },
        Jv::Num(t) => t,
        Jv::Str(s) => sp_print_string(s),
        Jv::Arr(items) => seq!['['] + sp_print_items(items, 0) + seq![']'],
        Jv::Obj(members) => seq!['{'] + sp_print_members(members, 0) + seq!['}'],
    }
}

/// The comma-separated texts of array elements from `i` on.
pub open spec fn sp_print_items(items: Seq<Jv>, i: int) -> Seq<char>
    decreases items, items.len() - i, 1int,
{
    if i < 0 || i >= items.len() {
        Seq::empty()
    } else if i + 1 == items.len() {
        sp_print(items[i])
    } else {
        sp_print(items[i]) + seq![','] + sp_print_items(items, i + 1)
    }
}

/// The comma-separated texts of object members from `i` on.
pub open spec fn sp_print_members(members: Seq<(Seq<char>, Jv)>, i: int) -> Seq<char>
    decreases members, members.len() - i, 1int,
    via sp_print_members_decreases
{
    if i < 0 || i >= members.len() {
        Seq::empty()
    } else {
        let one = sp_print_string(members[i].0) + seq![':'] + sp_print(members[i].1);
        if i + 1 == members.len() {
            one
        } else {
            one + seq![','] + sp_print_members(members, i + 1)
        }
    }
}

#[via_fn]
proof fn sp_print_members_decreases(members: Seq<(Seq<char>, Jv)>, i: int) {
    if 0 <= i < members.len() {
        assert(decreases_to!(members => members[i]));
        assert(decreases_to!(members[i] => members[i].1));
    }
}

/// Relies on `core::char::from_u32`: `Some` exactly for Unicode scalar
/// values, returning the character with that code.
#[verifier::external_body]
fn char_from_code(x: u32) -> (r: Option<char>)
    ensures
        (x < 0xD800 || (0xE000 <= x && x <= 0x10FFFF)) ==> r == Some::<char>(x as char),
        !(x < 0xD800 || (0xE000 <= x && x <= 0x10FFFF)) ==> r is None,
{
    char::from_u32(x)
}

/// Relies on `String::from_iter` over `Vec<char>`: the string holds exactly
/// the characters of the vector, in order.
#[verifier::external_body]
pub(crate) fn chars_to_string(v: &Vec<char>) -> (r: String)
    ensures
        r@ == v@,
{
    v.iter().collect()
}

/// The characters of `s`, as a vector.
pub fn str_to_chars(s: &str) -> (r: Vec<char>)
    ensures
        r@ == s@,
{
    let n = s.unicode_len();
    let mut out: Vec<char> = Vec::new();
    let mut i: usize = 0;
    while i < n
        invariant
            n == s@.len(),
            i <= n,
            out@.len() == i,
            forall|k: int| 0 <= k < i ==> out@[k] == s@[k],
        decreases n - i,
    {
        out.push(s.get_char(i));
        i = i + 1;
    }
    proof {
        assert(out@ =~= s@);
    }
    out
}

fn hex_digit(d: u32) -> (r: char)
    requires
        d < 16,
    ensures
        r == sp_hex_digit(d as int),
{
    if d == 0 { '0' } else if d == 1 { '1' } else if d == 2 { '2' } else if d == 3 { '3' }
    else if d == 4 { '4' } else if d == 5 { '5' } else if d == 6 { '6' } else if d == 7 { '7' }
    else if d == 8 { '8' } else if d == 9 { '9' } else if d == 10 { 'A' } else if d == 11 { 'B' }
    else if d == 12 { 'C' } else if d == 13 { 'D' } else if d == 14 { 'E' } else { 'F' }
}

/// Append the escaped form of `c` to `out`.
fn write_escaped_char(c: char, out: &mut Vec<char>)
    ensures
        final(out)@ == old(out)@ + sp_escape_char(c),
{
    if c == '"' {
        out.push('\\');
        out.push('"');
    } else if c == '\\' {
        out.push('\\');
        out.push('\\');
    } else if c == '\n' {
        out.push('\\');
        out.push('n');
    } else if c == '\r' {
        out.push('\\');
        out.push('r');
    } else if c == '\t' {
        out.push('\\');
        out.push('t');
    } else if c == '\u{8}' {
        out.push('\\');
        out.push('b');
    } else if c == '\u{c}' {
        out.push('\\');
        out.push('f');
    } else if (c as u32) < 0x20 {
        let x = c as u32;
        out.push('\\');
        out.push('u');
        out.push('0');
        out.push('0');
        out.push(hex_digit(x / 16));
        out.push(hex_digit(x % 16));
    } else {
        out.push(c);
    }
    proof {
        assert(out@ =~= old(out)@ + sp_escape_char(c));
    }
}

/// Append the JSON string literal for `s` to `out`.
fn write_string_literal(s: &String, out: &mut Vec<char>)
    ensures
        final(out)@ == old(out)@ + sp_print_string(s@),
{
    out.push('"');
    let chars = str_to_chars(s.as_str());
    let n = chars.len();
    let mut i: usize = 0;
    while i < n
        invariant
            n == s@.len(),
            chars@ == s@,
            i <= n,
            out@ == old(out)@ + seq!['"'] + sp_print_string_body_to(s@, i as int),
        decreases n - i,
    {
        proof {
            lemma_print_string_body_to_step(s@, i as int);
        }
        write_escaped_char(chars[i], out);
        i = i + 1;
        proof {
            assert(out@ =~= old(out)@ + seq!['"'] + sp_print_string_body_to(s@, i as int));
        }
    }
    out.push('"');
    proof {
        lemma_print_string_body_to_full(s@);
        assert(out@ =~= old(out)@ + sp_print_string(s@));
    }
}

/// The escaped text of the first `i` characters of `s`.
pub open spec fn sp_print_string_body_to(s: Seq<char>, i: int) -> Seq<char>
    decreases i,
{
    if i <= 0 {
        Seq::empty()
    } else {
        sp_print_string_body_to(s, i - 1) + sp_escape_char(s[i - 1])
    }
}

proof fn lemma_print_string_body_to_step(s: Seq<char>, i: int)
    requires
        0 <= i < s.len(),
    ensures
        sp_print_string_body_to(s, i + 1) == sp_print_string_body_to(s, i) + sp_escape_char(s[i]),
{
}

/// The prefix form agrees with the suffix form on the whole string.
proof fn lemma_print_string_body_agree(s: Seq<char>, i: int)
    requires
        0 <= i <= s.len(),
    ensures
        sp_print_string_body_to(s, i) + sp_print_string_body(s, i) == sp_print_string_body(s, 0),
    decreases i,
{
    if i == 0 {
        assert(sp_print_string_body_to(s, 0) + sp_print_string_body(s, 0) =~= sp_print_string_body(
            s,
            0,
        ));
    } else {
        lemma_print_string_body_agree(s, i - 1);
        assert(sp_print_string_body_to(s, i) + sp_print_string_body(s, i) =~= (
        sp_print_string_body_to(s, i - 1) + sp_escape_char(s[i - 1])) + sp_print_string_body(s, i));
        assert(sp_escape_char(s[i - 1]) + sp_print_string_body(s, i) =~= sp_print_string_body(
            s,
            i - 1,
        ));
        assert((sp_print_string_body_to(s, i - 1) + sp_escape_char(s[i - 1]))
            + sp_print_string_body(s, i) =~= sp_print_string_body_to(s, i - 1)
            + sp_print_string_body(s, i - 1));
    }
}

proof fn lemma_print_string_body_to_full(s: Seq<char>)
    ensures
        sp_print_string_body_to(s, s.len() as int) == sp_print_string_body(s, 0),
{
    lemma_print_string_body_agree(s, s.len() as int);
    assert(sp_print_string_body_to(s, s.len() as int) + sp_print_string_body(s, s.len() as int)
        =~= sp_print_string_body_to(s, s.len() as int));
}

/// Append the canonical JSON text of `v` to `out`.
#[verifier::loop_isolation(false)]
fn write_value(v: &JsonValue, out: &mut Vec<char>)
    ensures
        final(out)@ == old(out)@ + sp_print(v@),
    decreases *v, 0int,
{
    match v {
        JsonValue::Null => {
            out.push('n');
            out.push('u');
            out.push('l');
            out.push('l');
            proof {
                assert(out@ =~= old(out)@ + sp_print(v@));
            }
        },
        JsonValue::Bool(b) => {
            if *b {
                out.push('t');
                out.push('r');
                out.push('u');
                out.push('e');
            } else {
                out.push('f');
                out.push('a');
                out.push('l');
                out.push('s');
                out.push('e');
            }
            proof {
                assert(out@ =~= old(out)@ + sp_print(v@));
            }
        },
        JsonValue::Number(t) => {
            let chars = str_to_chars(t.as_str());
            let n = chars.len();
            let mut i: usize = 0;
            while i < n
                invariant
                    i <= n,
                    out@ == old(out)@ + t@.subrange(0, i as int),
                decreases n - i,
            {
                out.push(chars[i]);
                i = i + 1;
                proof {
                    assert(out@ =~= old(out)@ + t@.subrange(0, i as int));
                }
            }
            proof {
                assert(t@.subrange(0, t@.len() as int) =~= t@);
                assert(out@ =~= old(out)@ + sp_print(v@));
            }
        },
        JsonValue::Str(t) => {
            write_string_literal(t, out);
        },
        JsonValue::Array(items) => {
            out.push('[');
            proof {
                assert(decreases_to!(*v => v->Array_0));
            }
            write_items(items, 0, out);
            out.push(']');
            proof {
                lemma_jv_seq_view(items@, 0);
                assert(out@ =~= old(out)@ + sp_print(v@));
            }
        },
        JsonValue::Object(members) => {
            out.push('{');
            proof {
                assert(decreases_to!(*v => v->Object_0));
            }
            write_members(members, 0, out);
            out.push('}');
            proof {
                lemma_jv_members_view(members@, 0);
                assert(out@ =~= old(out)@ + sp_print(v@));
            }
        },
    }
}

/// Append the comma-separated texts of `items[i..]` to `out`.
fn write_items(items: &Vec<JsonValue>, i: usize, out: &mut Vec<char>)
    requires
        i <= items@.len(),
    ensures
        final(out)@ == old(out)@ + sp_print_items(jv_seq_view(items@, 0), i as int),
    decreases *items, items@.len() - i, 1int,
{
    proof {
        lemma_jv_seq_view(items@, 0);
    }
    if i < items.len() {
        proof {
            assert(decreases_to!(*items => items@));
            assert(decreases_to!(items@ => items@[i as int]));
        }
        write_value(&items[i], out);
        if i + 1 < items.len() {
            out.push(',');
            write_items(items, i + 1, out);
        }
        proof {
            assert(jv_seq_view(items@, 0)[i as int] == jv_view(items@[i as int]));
            assert(out@ =~= old(out)@ + sp_print_items(jv_seq_view(items@, 0), i as int));
        }
    } else {
        proof {
            assert(out@ =~= old(out)@ + sp_print_items(jv_seq_view(items@, 0), i as int));
        }
    }
}

/// Append the comma-separated texts of `members[i..]` to `out`.
fn write_members(members: &Vec<(String, JsonValue)>, i: usize, out: &mut Vec<char>)
    requires
        i <= members@.len(),
    ensures
        final(out)@ == old(out)@ + sp_print_members(jv_members_view(members@, 0), i as int),
    decreases *members, members@.len() - i, 1int,
{
    proof {
        lemma_jv_members_view(members@, 0);
    }
    if i < members.len() {
        proof {
            assert(decreases_to!(*members => members@));
            assert(decreases_to!(members@ => members@[i as int]));
            assert(decreases_to!(members@[i as int] => members@[i as int].1));
        }
        let m = &members[i];
        write_string_literal(&m.0, out);
        out.push(':');
        write_value(&m.1, out);
        if i + 1 < members.len() {
            out.push(',');
            write_members(members, i + 1, out);
        }
        proof {
            assert(jv_members_view(members@, 0)[i as int] == (
                members@[i as int].0@,
                jv_view(members@[i as int].1),
            ));
            assert(out@ =~= old(out)@ + sp_print_members(jv_members_view(members@, 0), i as int));
        }
    } else {
        proof {
            assert(out@ =~= old(out)@ + sp_print_members(jv_members_view(members@, 0), i as int));
        }
    }
}

impl JsonValue {
    /// The canonical JSON text of this value: no added whitespace, object
    /// members in stored order, numbers written verbatim.
    pub fn to_json_text(&self) -> (r: String)
        ensures
            r@ == sp_print(self@),
    {
        let mut out: Vec<char> = Vec::new();
        write_value(self, &mut out);
        proof {
            assert(out@ =~= sp_print(self@));
        }
        chars_to_string(&out)
    }
}

} // verus!

verus! {

/// JSON whitespace.
pub open spec fn sp_is_ws(c: char) -> bool {
    c == ' ' || c == '\n' || c == '\t' || c == '\r'
}

/// First index at or after `i` holding a non-whitespace character.
pub open spec fn sp_skip_ws(s: Seq<char>, i: int) -> int
    decreases s.len() - i,
{
    if 0 <= i < s.len() && sp_is_ws(s[i]) {
        sp_skip_ws(s, i + 1)
    } else {
        i
    }
}

/// Decimal digit.
pub open spec fn sp_is_digit(c: char) -> bool {
    ('0' as u32) <= (c as u32) && (c as u32) <= ('9' as u32)
}

/// First index at or after `i` holding a non-digit character.
pub open spec fn sp_digits_end(s: Seq<char>, i: int) -> int
    decreases s.len() - i,
{
    if 0 <= i < s.len() && sp_is_digit(s[i]) {
        sp_digits_end(s, i + 1)
    } else {
        i
    }
}

/// A JSON number lexeme starting at `i`: the lexeme text and the index
/// after it, or `None` if no valid number starts there.
pub open spec fn sp_parse_number(s: Seq<char>, i: int) -> Option<(Seq<char>, int)> {
    let j0 = if i < s.len() && s[i] == '-' {
        i + 1
    } else {
        i
    };
    if 0 <= j0 < s.len() && sp_is_digit(s[j0]) {
        let j1 = if s[j0] == '0' {
            j0 + 1
        } else {
            sp_digits_end(s, j0)
        };
        let j2 = if j1 < s.len() && s[j1] == '.' && j1 + 1 < s.len() && sp_is_digit(s[j1 + 1]) {
            sp_digits_end(s, j1 + 1)
        } else {
            j1
        };
        let j3 = if j2 < s.len() && (s[j2] == 'e' || s[j2] == 'E') {
            let k = if j2 + 1 < s.len() && (s[j2 + 1] == '+' || s[j2 + 1] == '-') {
                j2 + 2
            } else {
                j2 + 1
            };
            if k < s.len() && sp_is_digit(s[k]) {
                sp_digits_end(s, k)
            } else {
                -1
            }
        } else {
            j2
        };
        if j3 == -1 {
            None
        } else {
            Some((s.subrange(i, j3), j3))
        }
    } else {
        None
    }
}

/// Value of a hexadecimal digit, or `-1`.
pub open spec fn sp_hex_val(c: char) -> int {
    if ('0' as u32) <= (c as u32) && (c as u32) <= ('9' as u32) {
        (c as u32) - ('0' as u32)
    } else if ('a' as u32) <= (c as u32) && (c as u32) <= ('f' as u32) {
        10 + (c as u32) - ('a' as u32)
    } else if ('A' as u32) <= (c as u32) && (c as u32) <= ('F' as u32) {
        10 + (c as u32) - ('A' as u32)
    } else {
        -1
    }
}

/// The character written by a two-character escape, if the second
/// character is a valid short escape.
pub open spec fn sp_short_escape(c: char) -> Option<char> {
    if c == '"' {
        Some('"')
    } else if c == '\\' {
        Some('\\')
    } else if c == '/' {
        Some('/')
    } else if c == 'b' {
        Some('\u{8}')
    } else if c == 'f' {
        Some('\u{c}')
    } else if c == 'n' {
        Some('\n')
    } else if c == 'r' {
        Some('\r')
    } else if c == 't' {
        Some('\t')
    } else {
        None
    }
}

/// Decode the rest of a JSON string literal starting at `i` (the first
/// character after the opening quote): the decoded characters and the
/// index after the closing quote. Surrogate escapes are not accepted.
pub open spec fn sp_parse_string_body(s: Seq<char>, i: int) -> Option<(Seq<char>, int)>
    decreases s.len() - i,
{
    if !(0 <= i < s.len()) {
        None
    } else if s[i] == '"' {
        Some((Seq::empty(), i + 1))
    } else if s[i] == '\\' {
        if i + 1 >= s.len() {
            None
        } else if s[i + 1] == 'u' {
            if i + 6 <= s.len() && sp_hex_val(s[i + 2]) >= 0 && sp_hex_val(s[i + 3]) >= 0
                && sp_hex_val(s[i + 4]) >= 0 && sp_hex_val(s[i + 5]) >= 0 {
                let code = sp_hex_val(s[i + 2]) * 4096 + sp_hex_val(s[i + 3]) * 256 + sp_hex_val(
                    s[i + 4],
                ) * 16 + sp_hex_val(s[i + 5]);
                if code < 0xD800 || code >= 0xE000 {
                    match sp_parse_string_body(s, i + 6) {
                        Some((t, j)) => Some((seq![code as char] + t, j)),
                        None => None,
                    }
                } else {
                    None
                }
            } else {
                None
            }
        } else {
            match sp_short_escape(s[i + 1]) {
                Some(c) => match sp_parse_string_body(s, i + 2) {
                    Some((t, j)) => Some((seq![c] + t, j)),
                    None => None,
                },
                None => None,
            }
        }
    } else if (s[i] as u32) < 0x20 {
        None
    } else {
        match sp_parse_string_body(s, i + 1) {
            Some((t, j)) => Some((seq![s[i]] + t, j)),
            None => None,
        }
    }
}

/// A JSON value starting at `i` (whitespace already skipped): the model
/// of the value and the index after it. `fuel` bounds recursion depth.
pub open spec fn sp_parse_value(s: Seq<char>, i: int, fuel: nat) -> Option<(Jv, int)>
    decreases fuel,
{
    if fuel == 0 {
        None
    } else if !(0 <= i < s.len()) {
        None
    } else {
        let c = s[i];
        if c == '"' {
            match sp_parse_string_body(s, i + 1) {
                Some((t, j)) => Some((Jv::Str(t), j)),
                None => None,
            }
        } else if c == '[' {
            let j = sp_skip_ws(s, i + 1);
            if j < s.len() && s[j] == ']' {
                Some((Jv::Arr(Seq::empty()), j + 1))
            } else {
                match sp_parse_items(s, j, (fuel - 1) as nat) {
                    Some((vs, k)) => Some((Jv::Arr(vs), k)),
                    None => None,
                }
            }
        } else if c == '{' {
            let j = sp_skip_ws(s, i + 1);
            if j < s.len() && s[j] == '}' {
                Some((Jv::Obj(Seq::empty()), j + 1))
            } else {
                match sp_parse_members(s, j, (fuel - 1) as nat) {
                    Some((ms, k)) => Some((Jv::Obj(ms), k)),
                    None => None,
                }
            }
        } else if c == 't' {
            if i + 4 <= s.len() && s[i + 1] == 'r' && s[i + 2] == 'u' && s[i + 3] == 'e' {
                Some((Jv::Bool(true), i + 4))
            } else {
                None
            }
        } else if c == 'f' {
            if i + 5 <= s.len() && s[i + 1] == 'a' && s[i + 2] == 'l' && s[i + 3] == 's' && s[i + 4]
                == 'e' {
                Some((Jv::Bool(false), i + 5))
            } else {
                None
            }
        } else if c == 'n' {
            if i + 4 <= s.len() && s[i + 1] == 'u' && s[i + 2] == 'l' && s[i + 3] == 'l' {
                Some((Jv::Null, i + 4))
            } else {
                None
            }
        } else if c == '-' || sp_is_digit(c) {
            match sp_parse_number(s, i) {
                Some((t, j)) => Some((Jv::Num(t), j)),
                None => None,
            }
        } else {
            None
        }
    }
}

/// One or more comma-separated array elements starting at `i`, up to and
/// including the closing bracket.
pub open spec fn sp_parse_items(s: Seq<char>, i: int, fuel: nat) -> Option<(Seq<Jv>, int)>
    decreases fuel,
{
    if fuel == 0 {
        None
    } else {
        match sp_parse_value(s, i, (fuel - 1) as nat) {
            Some((v, j)) => {
                let k = sp_skip_ws(s, j);
                if k < s.len() && s[k] == ',' {
                    match sp_parse_items(s, sp_skip_ws(s, k + 1), (fuel - 1) as nat) {
                        Some((vs, m)) => Some((seq![v] + vs, m)),
                        None => None,
                    }
                } else if k < s.len() && s[k] == ']' {
                    Some((seq![v], k + 1))
                } else {
                    None
                }
            },
            None => None,
        }
    }
}

/// One or more comma-separated object members starting at `i`, up to and
/// including the closing brace.
pub open spec fn sp_parse_members(s: Seq<char>, i: int, fuel: nat) -> Option<
    (Seq<(Seq<char>, Jv)>, int),
>
    decreases fuel,
{
    if fuel == 0 {
        None
    } else if 0 <= i < s.len() && s[i] == '"' {
        match sp_parse_string_body(s, i + 1) {
            Some((key, j)) => {
                let k = sp_skip_ws(s, j);
                if k < s.len() && s[k] == ':' {
                    let m = sp_skip_ws(s, k + 1);
                    match sp_parse_value(s, m, (fuel - 1) as nat) {
                        Some((v, p)) => {
                            let q = sp_skip_ws(s, p);
                            if q < s.len() && s[q] == ',' {
                                match sp_parse_members(s, sp_skip_ws(s, q + 1), (fuel - 1) as nat) {
                                    Some((ms, w)) => Some((seq![(key, v)] + ms, w)),
                                    None => None,
                                }
                            } else if q < s.len() && s[q] == '}' {
                                Some((seq![(key, v)], q + 1))
                            } else {
                                None
                            }
                        },
                        None => None,
                    }
                } else {
                    None
                }
            },
            None => None,
        }
    } else {
        None
    }
}

/// Fuel that suffices for any text of this length.
pub open spec fn sp_fuel(s: Seq<char>) -> nat {
    if s.len() + 1 <= 0xFFFF_FFFF_FFFF_FFFF {
        s.len() + 1
    } else {
        0xFFFF_FFFF_FFFF_FFFF as nat
    }
}

/// The model of the JSON value that `s` spells, if `s` is one JSON value
/// with optional surrounding whitespace.
pub open spec fn sp_parse_json(s: Seq<char>) -> Option<Jv> {
    let i = sp_skip_ws(s, 0);
    match sp_parse_value(s, i, sp_fuel(s)) {
        Some((v, j)) => if sp_skip_ws(s, j) == s.len() {
            Some(v)
        } else {
            None
        },
        None => None,
    }
}

} // verus!

verus! {

fn is_ws(c: char) -> (r: bool)
    ensures
        r == sp_is_ws(c),
{
    c == ' ' || c == '\n' || c == '\t' || c == '\r'
}

fn is_digit(c: char) -> (r: bool)
    ensures
        r == sp_is_digit(c),
{
    let x = c as u32;
    48 <= x && x <= 57
}

fn p_skip_ws(s: &Vec<char>, i: usize) -> (r: usize)
    requires
        i <= s@.len(),
    ensures
        r as int == sp_skip_ws(s@, i as int),
        i <= r <= s@.len(),
{
    let n = s.len();
    let mut j = i;
    while j < n && is_ws_at(s, j)
        invariant
            i <= j <= n,
            n == s@.len(),
            sp_skip_ws(s@, i as int) == sp_skip_ws(s@, j as int),
        decreases n - j,
    {
        j = j + 1;
    }
    j
}

fn is_ws_at(s: &Vec<char>, j: usize) -> (r: bool)
    requires
        j < s@.len(),
    ensures
        r == sp_is_ws(s@[j as int]),
{
    is_ws(s[j])
}

fn p_digits_end(s: &Vec<char>, i: usize) -> (r: usize)
    requires
        i <= s@.len(),
    ensures
        r as int == sp_digits_end(s@, i as int),
        i <= r <= s@.len(),
{
    let n = s.len();
    let mut j = i;
    while j < n && is_digit_at(s, j)
        invariant
            i <= j <= n,
            n == s@.len(),
            sp_digits_end(s@, i as int) == sp_digits_end(s@, j as int),
        decreases n - j,
    {
        j = j + 1;
    }
    j
}

fn is_digit_at(s: &Vec<char>, j: usize) -> (r: bool)
    requires
        j < s@.len(),
    ensures
        r == sp_is_digit(s@[j as int]),
{
    is_digit(s[j])
}

fn hex_val(c: char) -> (r: Option<u32>)
    ensures
        r is None <==> sp_hex_val(c) < 0,
        r matches Some(x) ==> x == sp_hex_val(c) && x < 16,
{
    let x = c as u32;
    if 48 <= x && x <= 57 {
        Some(x - 48)
    } else if 97 <= x && x <= 102 {
        Some(10 + x - 97)
    } else if 65 <= x && x <= 70 {
        Some(10 + x - 65)
    } else {
        None
    }
}

fn short_escape(c: char) -> (r: Option<char>)
    ensures
        r == sp_short_escape(c),
{
    if c == '"' {
        Some('"')
    } else if c == '\\' {
        Some('\\')
    } else if c == '/' {
        Some('/')
    } else if c == 'b' {
        Some('\u{8}')
    } else if c == 'f' {
        Some('\u{c}')
    } else if c == 'n' {
        Some('\n')
    } else if c == 'r' {
        Some('\r')
    } else if c == 't' {
        Some('\t')
    } else {
        None
    }
}

/// Copy of `s[a..b]`.
pub fn vec_slice(s: &Vec<char>, a: usize, b: usize) -> (r: Vec<char>)
    requires
        a <= b <= s@.len(),
    ensures
        r@ == s@.subrange(a as int, b as int),
{
    let mut out: Vec<char> = Vec::new();
    let mut i = a;
    while i < b
        invariant
            a <= i <= b <= s@.len(),
            out@.len() == i - a,
            forall|k: int| 0 <= k < i - a ==> out@[k] == s@[a + k],
        decreases b - i,
    {
        out.push(s[i]);
        i = i + 1;
    }
    proof {
        assert(out@ =~= s@.subrange(a as int, b as int));
    }
    out
}

fn p_number(s: &Vec<char>, i: usize) -> (r: Option<(String, usize)>)
    requires
        i <= s@.len(),
    ensures
        r is None ==> sp_parse_number(s@, i as int) is None,
        r matches Some((t, j)) ==> sp_parse_number(s@, i as int) == Some((t@, j as int)) && i <= j
            <= s@.len(),
{
    let n = s.len();
    let j0 = if i < n && s[i] == '-' {
        i + 1
    } else {
        i
    };
    if j0 < n && is_digit(s[j0]) {
        let j1 = if s[j0] == '0' {
            j0 + 1
        } else {
            p_digits_end(s, j0)
        };
        let j2 = if j1 < n && s[j1] == '.' && j1 + 1 < n && is_digit(s[j1 + 1]) {
            p_digits_end(s, j1 + 1)
        } else {
            j1
        };
        let j3: Option<usize> = if j2 < n && (s[j2] == 'e' || s[j2] == 'E') {
            let k = if j2 + 1 < n && (s[j2 + 1] == '+' || s[j2 + 1] == '-') {
                j2 + 2
            } else {
                j2 + 1
            };
            if k < n && is_digit(s[k]) {
                Some(p_digits_end(s, k))
            } else {
                None
            }
        } else {
            Some(j2)
        };
        match j3 {
            Some(j) => {
                let t = chars_to_string(&vec_slice(s, i, j));
                Some((t, j))
            },
            None => None,
        }
    } else {
        None
    }
}

fn p_string_body(s: &Vec<char>, i: usize) -> (r: Option<(Vec<char>, usize)>)
    requires
        i <= s@.len(),
    ensures
        r is None ==> sp_parse_string_body(s@, i as int) is None,
        r matches Some((t, j)) ==> sp_parse_string_body(s@, i as int) == Some((t@, j as int)) && i
            < j <= s@.len(),
    decreases s@.len() - i,
{
    let n = s.len();
    if i >= n {
        return None;
    }
    let c = s[i];
    if c == '"' {
        let out: Vec<char> = Vec::new();
        proof {
            assert(out@ =~= Seq::<char>::empty());
        }
        Some((out, i + 1))
    } else if c == '\\' {
        if i + 1 >= n {
            None
        } else if s[i + 1] == 'u' {
            if n - i >= 6 {
                let h2 = hex_val(s[i + 2]);
                let h3 = hex_val(s[i + 3]);
                let h4 = hex_val(s[i + 4]);
                let h5 = hex_val(s[i + 5]);
                match (h2, h3, h4, h5) {
                    (Some(x2), Some(x3), Some(x4), Some(x5)) => {
                        let code = x2 * 4096 + x3 * 256 + x4 * 16 + x5;
                        if code < 0xD800 || code >= 0xE000 {
                            match char_from_code(code) {
                                Some(ch) => match p_string_body(s, i + 6) {
                                    Some((t, j)) => {
                                        let mut out = t;
                                        out.insert(0, ch);
                                        proof {
                                            let (st, sj) = sp_parse_string_body(
                                                s@,
                                                i + 6,
                                            ).unwrap();
                                            assert(out@ =~= seq![ch] + st);
                                        }
                                        Some((out, j))
                                    },
                                    None => None,
                                },
                                None => None,
                            }
                        } else {
                            None
                        }
                    },
                    _ => None,
                }
            } else {
                None
            }
        } else {
            match short_escape(s[i + 1]) {
                Some(c2) => match p_string_body(s, i + 2) {
                    Some((t, j)) => {
                        let mut out = t;
                        out.insert(0, c2);
                        proof {
                            let (st, sj) = sp_parse_string_body(s@, i + 2).unwrap();
                            assert(out@ =~= seq![c2] + st);
                        }
                        Some((out, j))
                    },
                    None => None,
                },
                None => None,
            }
        }
    } else if (c as u32) < 0x20 {
        None
    } else {
        match p_string_body(s, i + 1) {
            Some((t, j)) => {
                let mut out = t;
                out.insert(0, c);
                proof {
                    let (st, sj) = sp_parse_string_body(s@, i + 1).unwrap();
                    assert(out@ =~= seq![c] + st);
                }
                Some((out, j))
            },
            None => None,
        }
    }
}

fn p_value(s: &Vec<char>, i: usize, fuel: u64) -> (r: Option<(JsonValue, usize)>)
    requires
        i <= s@.len(),
    ensures
        r is None ==> sp_parse_value(s@, i as int, fuel as nat) is None,
        r matches Some((v, j)) ==> sp_parse_value(s@, i as int, fuel as nat) == Some(
            (v@, j as int),
        ) && i <= j <= s@.len(),
    decreases fuel,
{
    let n = s.len();
    if fuel == 0 || i >= n {
        return None;
    }
    let c = s[i];
    if c == '"' {
        match p_string_body(s, i + 1) {
            Some((t, j)) => Some((JsonValue::Str(chars_to_string(&t)), j)),
            None => None,
        }
    } else if c == '[' {
        let j = p_skip_ws(s, i + 1);
        if j < n && s[j] == ']' {
            let v = JsonValue::Array(Vec::new());
            proof {
                assert(v@ =~= Jv::Arr(Seq::<Jv>::empty()));
            }
            Some((v, j + 1))
        } else {
            match p_items(s, j, fuel - 1) {
                Some((vs, k)) => Some((JsonValue::Array(vs), k)),
                None => None,
            }
        }
    } else if c == '{' {
        let j = p_skip_ws(s, i + 1);
        if j < n && s[j] == '}' {
            let v = JsonValue::Object(Vec::new());
            proof {
                assert(v@ =~= Jv::Obj(Seq::<(Seq<char>, Jv)>::empty()));
            }
            Some((v, j + 1))
        } else {
            match p_members(s, j, fuel - 1) {
                Some((ms, k)) => Some((JsonValue::Object(ms), k)),
                None => None,
            }
        }
    } else if c == 't' {
        if n - i >= 4 && s[i + 1] == 'r' && s[i + 2] == 'u' && s[i + 3] == 'e' {
            Some((JsonValue::Bool(true), i + 4))
        } else {
            None
        }
    } else if c == 'f' {
        if n - i >= 5 && s[i + 1] == 'a' && s[i + 2] == 'l' && s[i + 3] == 's' && s[i + 4] == 'e' {
            Some((JsonValue::Bool(false), i + 5))
        } else {
            None
        }
    } else if c == 'n' {
        if n - i >= 4 && s[i + 1] == 'u' && s[i + 2] == 'l' && s[i + 3] == 'l' {
            Some((JsonValue::Null, i + 4))
        } else {
            None
        }
    } else if c == '-' || is_digit(c) {
        match p_number(s, i) {
            Some((t, j)) => Some((JsonValue::Number(t), j)),
            None => None,
        }
    } else {
        None
    }
}

fn p_items(s: &Vec<char>, i: usize, fuel: u64) -> (r: Option<(Vec<JsonValue>, usize)>)
    requires
        i <= s@.len(),
    ensures
        r is None ==> sp_parse_items(s@, i as int, fuel as nat) is None,
        r matches Some((vs, j)) ==> sp_parse_items(s@, i as int, fuel as nat) == Some(
            (jv_seq_view(vs@, 0), j as int),
        ) && i <= j <= s@.len(),
    decreases fuel,
{
    let n = s.len();
    if fuel == 0 {
        return None;
    }
    match p_value(s, i, fuel - 1) {
        Some((v, j)) => {
            let k = p_skip_ws(s, j);
            if k < n && s[k] == ',' {
                let k2 = p_skip_ws(s, k + 1);
                match p_items(s, k2, fuel - 1) {
                    Some((vs, m)) => {
                        let ghost vs_old = vs@;
                        let mut out = vs;
                        out.insert(0, v);
                        proof {
                            assert(out@.subrange(1, out@.len() as int) =~= vs_old);
                            let (svs, sm) = sp_parse_items(s@, k2 as int, (fuel - 1) as nat)
                                .unwrap();
                            lemma_jv_seq_view(out@, 0);
                            lemma_jv_seq_view(out@.subrange(1, out@.len() as int), 0);
                            lemma_jv_seq_view_prepend(out@, v, svs);
                            assert(jv_seq_view(out@, 0) =~= seq![v@] + svs);
                        }
                        Some((out, m))
                    },
                    None => None,
                }
            } else if k < n && s[k] == ']' {
                let mut out: Vec<JsonValue> = Vec::new();
                out.push(v);
                proof {
                    lemma_jv_seq_view(out@, 0);
                    assert(jv_seq_view(out@, 0) =~= seq![out@[0]@]);
                }
                Some((out, k + 1))
            } else {
                None
            }
        },
        None => None,
    }
}

/// If `out` is `v` followed by a vector modelling `rest`, its whole model
/// is `v`'s model followed by `rest`.
proof fn lemma_jv_seq_view_prepend(out: Seq<JsonValue>, v: JsonValue, rest: Seq<Jv>)
    requires
        out.len() >= 1,
        out[0] == v,
        jv_seq_view(out.subrange(1, out.len() as int), 0) == rest,
    ensures
        jv_seq_view(out, 0) =~= seq![jv_view(v)] + rest,
{
    lemma_jv_seq_view(out, 0);
    lemma_jv_seq_view(out.subrange(1, out.len() as int), 0);
    assert forall|k: int| 0 <= k < out.len() implies jv_seq_view(out, 0)[k] == (seq![jv_view(v)]
        + rest)[k] by {
        if k == 0 {
        } else {
            assert(out.subrange(1, out.len() as int)[k - 1] == out[k]);
            assert(rest[k - 1] == jv_view(out[k]));
        }
    }
}

fn p_members(s: &Vec<char>, i: usize, fuel: u64) -> (r: Option<(Vec<(String, JsonValue)>, usize)>)
    requires
        i <= s@.len(),
    ensures
        r is None ==> sp_parse_members(s@, i as int, fuel as nat) is None,
        r matches Some((ms, j)) ==> sp_parse_members(s@, i as int, fuel as nat) == Some(
            (jv_members_view(ms@, 0), j as int),
        ) && i <= j <= s@.len(),
    decreases fuel,
{
    let n = s.len();
    if fuel == 0 {
        return None;
    }
    if i < n && s[i] == '"' {
        match p_string_body(s, i + 1) {
            Some((key_chars, j)) => {
                let key = chars_to_string(&key_chars);
                let k = p_skip_ws(s, j);
                if k < n && s[k] == ':' {
                    let m = p_skip_ws(s, k + 1);
                    match p_value(s, m, fuel - 1) {
                        Some((v, p)) => {
                            let q = p_skip_ws(s, p);
                            if q < n && s[q] == ',' {
                                let q2 = p_skip_ws(s, q + 1);
                                match p_members(s, q2, fuel - 1) {
                                    Some((ms, w)) => {
                                        let ghost ms_old = ms@;
                                        let mut out = ms;
                                        out.insert(0, (key, v));
                                        proof {
                                            assert(out@.subrange(1, out@.len() as int)
                                                =~= ms_old);
                                            let (sms, sw) = sp_parse_members(
                                                s@,
                                                q2 as int,
                                                (fuel - 1) as nat,
                                            ).unwrap();
                                            lemma_jv_members_view_prepend(out@, key@, v, sms);
                                            assert(jv_members_view(out@, 0) =~= seq![(key@, v@)]
                                                + sms);
                                        }
                                        Some((out, w))
                                    },
                                    None => None,
                                }
                            } else if q < n && s[q] == '}' {
                                let mut out: Vec<(String, JsonValue)> = Vec::new();
                                out.push((key, v));
                                proof {
                                    lemma_jv_members_view(out@, 0);
                                    assert(jv_members_view(out@, 0) =~= seq![(key@, v@)]);
                                }
                                Some((out, q + 1))
                            } else {
                                None
                            }
                        },
                        None => None,
                    }
                } else {
                    None
                }
            },
            None => None,
        }
    } else {
        None
    }
}

/// If `out` is `(key, v)` followed by a vector modelling `rest`, its whole
/// model is `(key, v)`'s model followed by `rest`.
proof fn lemma_jv_members_view_prepend(
    out: Seq<(String, JsonValue)>,
    key: Seq<char>,
    v: JsonValue,
    rest: Seq<(Seq<char>, Jv)>,
)
    requires
        out.len() >= 1,
        out[0].0@ == key,
        out[0].1 == v,
        jv_members_view(out.subrange(1, out.len() as int), 0) == rest,
    ensures
        jv_members_view(out, 0) =~= seq![(key, jv_view(v))] + rest,
{
    lemma_jv_members_view(out, 0);
    lemma_jv_members_view(out.subrange(1, out.len() as int), 0);
    assert forall|k: int| 0 <= k < out.len() implies jv_members_view(out, 0)[k] == (seq![
        (key, jv_view(v)),
    ] + rest)[k] by {
        if k == 0 {
        } else {
            assert(out.subrange(1, out.len() as int)[k - 1] == out[k]);
            assert(rest[k - 1] == (out[k].0@, jv_view(out[k].1)));
        }
    }
}

/// Parse `text` as one JSON value with optional surrounding whitespace.
///
/// Returns `Some` exactly when the model-level parse succeeds, and then
/// the returned value's model is the parsed one.
pub fn parse_json(text: &str) -> (r: Option<JsonValue>)
    ensures
        r is None <==> sp_parse_json(text@) is None,
        r matches Some(v) ==> sp_parse_json(text@) == Some(v@),
{
    let s = str_to_chars(text);
    let n = s.len();
    let fuel: u64 = if (n as u64) < 0xFFFF_FFFF_FFFF_FFFF {
        n as u64 + 1
    } else {
        0xFFFF_FFFF_FFFF_FFFF
    };
    proof {
        assert(fuel as nat == sp_fuel(text@));
    }
    let i = p_skip_ws(&s, 0);
    match p_value(&s, i, fuel) {
        Some((v, j)) => {
            let k = p_skip_ws(&s, j);
            if k == n {
                Some(v)
            } else {
                None
            }
        },
        None => None,
    }
}

} // verus!
