//! Pulling JSON out of free-form model output: whole-text parsing, fenced
//! code blocks, the first balanced object span, and a one-shot repair for
//! unterminated arrays.
use vstd::prelude::*;

use crate::json::JsonValue;
use crate::json::Jv;
use crate::json::chars_to_string;
use crate::json::parse_json;
use crate::json::sp_is_ws;
use crate::json::sp_parse_json;
use crate::json::sp_skip_ws;
use crate::json::str_to_chars;

verus! {

/// `pat` occurs in `s` at position `i`.
pub open spec fn sp_match_at(s: Seq<char>, pat: Seq<char>, i: int) -> bool {
    0 <= i && i + pat.len() <= s.len() && s.subrange(i, i + pat.len()) == pat
}

/// First position at or after `from` where `pat` occurs in `s`, or `-1`.
pub open spec fn sp_find(s: Seq<char>, pat: Seq<char>, from: int) -> int
    decreases s.len() - from + 1,
{
    if !(0 <= from && from + pat.len() <= s.len()) {
        -1
    } else if sp_match_at(s, pat, from) {
        from
    } else {
        sp_find(s, pat, from + 1)
    }
}

/// A found position really carries the pattern.
pub proof fn lemma_find_found(s: Seq<char>, pat: Seq<char>, from: int)
    requires
        0 <= from,
        sp_find(s, pat, from) >= 0,
    ensures
        sp_match_at(s, pat, sp_find(s, pat, from)),
    decreases s.len() - from + 1,
{
    if 0 <= from && from + pat.len() <= s.len() && !sp_match_at(s, pat, from) {
        lemma_find_found(s, pat, from + 1);
    }
}

fn match_at(s: &Vec<char>, pat: &Vec<char>, i: usize) -> (r: bool)
    requires
        i + pat@.len() <= s@.len(),
    ensures
        r == sp_match_at(s@, pat@, i as int),
{
    let n = s.len();
    let m = pat.len();
    let mut k: usize = 0;
    while k < m
        invariant
            k <= m,
            m == pat@.len(),
            n == s@.len(),
            i + m <= n,
            forall|t: int| 0 <= t < k ==> s@[i + t] == pat@[t],
        decreases m - k,
    {
        if s[i + k] != pat[k] {
            proof {
                assert(s@.subrange(i as int, i + pat@.len())[k as int] != pat@[k as int]);
            }
            return false;
        }
        k = k + 1;
    }
    proof {
        assert(s@.subrange(i as int, i + pat@.len()) =~= pat@);
    }
    true
}

/// First position at or after `from` where `pat` occurs in `s`.
fn find_pat(s: &Vec<char>, pat: &Vec<char>, from: usize) -> (r: Option<usize>)
    requires
        1 <= pat@.len(),
    ensures
        r is None ==> sp_find(s@, pat@, from as int) == -1,
        r matches Some(j) ==> sp_find(s@, pat@, from as int) == j as int && from <= j && j
            + pat@.len() <= s@.len(),
{
    let n = s.len();
    let m = pat.len();
    if from > n || m > n - from {
        return None;
    }
    let mut j = from;
    while j <= n - m
        invariant
            from <= j,
            j <= n - m + 1,
            1 <= m <= n,
            n == s@.len(),
            m == pat@.len(),
            sp_find(s@, pat@, from as int) == sp_find(s@, pat@, j as int),
        decreases n - m - j + 1,
    {
        if match_at(s, pat, j) {
            return Some(j);
        }
        j = j + 1;
    }
    None
}

/// First position where `pat` (nonempty) occurs in `s`.
pub fn find_first(s: &Vec<char>, pat: &Vec<char>) -> (r: Option<usize>)
    requires
        1 <= pat@.len(),
    ensures
        r is None ==> sp_find(s@, pat@, 0) == -1,
        r matches Some(j) ==> sp_find(s@, pat@, 0) == j as int && j + pat@.len() <= s@.len(),
{
    find_pat(s, pat, 0)
}

/// Index after dropping trailing whitespace from `s[..j]`.
pub open spec fn sp_trim_end(s: Seq<char>, j: int) -> int
    decreases j,
{
    if 0 < j <= s.len() && sp_is_ws(s[j - 1]) {
        sp_trim_end(s, j - 1)
    } else {
        j
    }
}

/// `s` without leading and trailing whitespace.
pub open spec fn sp_trim(s: Seq<char>) -> Seq<char> {
    let a = sp_skip_ws(s, 0);
    let b = sp_trim_end(s, s.len() as int);
    if a <= b {
        s.subrange(a, b)
    } else {
        Seq::empty()
    }
}

/// Copy of `s` without leading and trailing whitespace.
pub fn trim_chars(s: &Vec<char>) -> (r: Vec<char>)
    ensures
        r@ == sp_trim(s@),
{
    let n = s.len();
    let mut a: usize = 0;
    while a < n && is_ws_char(s[a])
        invariant
            a <= n,
            n == s@.len(),
            sp_skip_ws(s@, 0) == sp_skip_ws(s@, a as int),
        decreases n - a,
    {
        a = a + 1;
    }
    let mut b: usize = n;
    while b > 0 && is_ws_char(s[b - 1])
        invariant
            b <= n,
            n == s@.len(),
            sp_trim_end(s@, n as int) == sp_trim_end(s@, b as int),
        decreases b,
    {
        b = b - 1;
    }
    if a <= b {
        let mut out: Vec<char> = Vec::new();
        let mut i = a;
        while i < b
            invariant
                a <= i <= b <= s@.len(),
                out@.len() == i - a,
                forall|k: int| 0 <= k < i - a ==> out@[k] == s@[a + k],
            decreases b - i,
        {
            out.push(s[i]);
            i = i + 1;
        }
        proof {
            assert(out@ =~= sp_trim(s@));
        }
        out
    } else {
        let out: Vec<char> = Vec::new();
        proof {
            assert(out@ =~= sp_trim(s@));
        }
        out
    }
}

fn is_ws_char(c: char) -> (r: bool)
    ensures
        r == sp_is_ws(c),
{
    c == ' ' || c == '\n' || c == '\t' || c == '\r'
}

} // verus!

verus! {

/// The backtick fence.
pub open spec fn sp_ticks() -> Seq<char> {
    seq!['`', '`', '`']
}

/// The fence with the JSON tag.
pub open spec fn sp_ticks_json() -> Seq<char> {
    seq!['`', '`', '`', 'j', 's', 'o', 'n']
}

/// Contents of the first JSON-tagged fenced block, trimmed.
pub open spec fn sp_code_block_json(s: Seq<char>) -> Option<Seq<char>> {
    let f = sp_find(s, sp_ticks_json(), 0);
    if f >= 0 {
        let cs = f + 7;
        let e = sp_find(s, sp_ticks(), cs);
        if e >= 0 {
            Some(sp_trim(s.subrange(cs, e)))
        } else {
            None
        }
    } else {
        None
    }
}

/// Contents of the first generic fenced block, after its first line
/// break, trimmed.
pub open spec fn sp_code_block_plain(s: Seq<char>) -> Option<Seq<char>> {
    let f = sp_find(s, sp_ticks(), 0);
    if f >= 0 {
        let cs = f + 3;
        let nl = sp_find(s, seq!['\n'], cs);
        let np = if nl >= 0 {
            nl + 1
        } else {
            cs
        };
        let e = sp_find(s, sp_ticks(), np);
        if e >= 0 {
            Some(sp_trim(s.subrange(np, e)))
        } else {
            None
        }
    } else {
        None
    }
}

/// What a fenced code block of `s` holds: a JSON-tagged block is
/// preferred, else the first generic block.
pub open spec fn sp_code_block(s: Seq<char>) -> Option<Seq<char>> {
    match sp_code_block_json(s) {
        Some(b) => Some(b),
        None => sp_code_block_plain(s),
    }
}

/// Index of the brace closing the object whose scan state is given, or
/// `-1`. Braces inside string literals do not count; `\` escapes the
/// character after it inside a string.
pub open spec fn sp_scan_obj(s: Seq<char>, i: int, depth: int, in_str: bool, esc: bool) -> int
    decreases s.len() - i,
{
    if !(0 <= i < s.len()) {
        -1
    } else if esc {
        sp_scan_obj(s, i + 1, depth, in_str, false)
    } else if s[i] == '\\' && in_str {
        sp_scan_obj(s, i + 1, depth, in_str, true)
    } else if s[i] == '"' {
        sp_scan_obj(s, i + 1, depth, !in_str, false)
    } else if s[i] == '{' && !in_str {
        sp_scan_obj(s, i + 1, depth + 1, in_str, false)
    } else if s[i] == '}' && !in_str {
        if depth == 1 {
            i
        } else {
            sp_scan_obj(s, i + 1, depth - 1, in_str, false)
        }
    } else {
        sp_scan_obj(s, i + 1, depth, in_str, false)
    }
}

/// The first balanced `{...}` span of `s`, brace matching being aware of
/// strings and escapes.
pub open spec fn sp_extract_obj(s: Seq<char>) -> Option<Seq<char>> {
    let st = sp_find(s, seq!['{'], 0);
    if st >= 0 {
        let e = sp_scan_obj(s, st, 0, false, false);
        if e >= 0 {
            Some(s.subrange(st, e + 1))
        } else {
            None
        }
    } else {
        None
    }
}

/// Find the first balanced object span of `text`.
#[verifier::loop_isolation(false)]
pub fn extract_json_object(text: &str) -> (r: Option<String>)
    ensures
        r is None <==> sp_extract_obj(text@) is None,
        r matches Some(o) ==> sp_extract_obj(text@) == Some(o@),
{
    let s = str_to_chars(text);
    let n = s.len();
    let mut brace: Vec<char> = Vec::new();
    brace.push('{');
    proof {
        assert(brace@ =~= seq!['{']);
    }
    let st = match find_pat(&s, &brace, 0) {
        Some(p) => p,
        None => {
            return None;
        },
    };
    let mut i: usize = st + 1;
    let mut depth: usize = 1;
    let mut in_str: bool = false;
    let mut esc: bool = false;
    proof {
        lemma_find_found(s@, brace@, 0);
        assert(s@.subrange(st as int, st + 1)[0] == s@[st as int]);
        assert(s@[st as int] == '{');
    }
    while i < n
        invariant
            st < i <= n,
            n == s@.len(),
            1 <= depth <= i,
            sp_scan_obj(s@, st as int, 0, false, false) == sp_scan_obj(
                s@,
                i as int,
                depth as int,
                in_str,
                esc,
            ),
        decreases n - i,
    {
        let c = s[i];
        if esc {
            esc = false;
        } else if c == '\\' && in_str {
            esc = true;
        } else if c == '"' {
            in_str = !in_str;
        } else if c == '{' && !in_str {
            depth = depth + 1;
        } else if c == '}' && !in_str {
            if depth == 1 {
                proof {
                    assert(sp_scan_obj(s@, i as int, depth as int, in_str, esc) == i as int);
                    assert(sp_scan_obj(s@, st as int, 0, false, false) == i as int);
                }
                let span = crate::json::vec_slice(&s, st, i + 1);
                return Some(chars_to_string(&span));
            } else {
                depth = depth - 1;
            }
        }
        i = i + 1;
    }
    None
}

} // verus!

verus! {

/// Find JSON inside a fenced code block: a block tagged `json` is
/// preferred, else the first generic block up to its terminator.
pub fn extract_json_from_code_block(text: &str) -> (r: Option<String>)
    ensures
        r is None <==> sp_code_block(text@) is None,
        r matches Some(b) ==> sp_code_block(text@) == Some(b@),
{
    let s = str_to_chars(text);
    let n = s.len();
    let mut ticks: Vec<char> = Vec::new();
    ticks.push('`');
    ticks.push('`');
    ticks.push('`');
    proof {
        assert(ticks@ =~= sp_ticks());
    }
    let mut ticks_json: Vec<char> = Vec::new();
    ticks_json.push('`');
    ticks_json.push('`');
    ticks_json.push('`');
    ticks_json.push('j');
    ticks_json.push('s');
    ticks_json.push('o');
    ticks_json.push('n');
    proof {
        assert(ticks_json@ =~= sp_ticks_json());
    }
    if let Some(f) = find_pat(&s, &ticks_json, 0) {
        let cs = f + 7;
        if let Some(e) = find_pat(&s, &ticks, cs) {
            let body = crate::json::vec_slice(&s, cs, e);
            let trimmed = trim_chars(&body);
            return Some(chars_to_string(&trimmed));
        }
    }
    if let Some(f) = find_pat(&s, &ticks, 0) {
        let cs = f + 3;
        let mut nl_pat: Vec<char> = Vec::new();
        nl_pat.push('\n');
        proof {
            assert(nl_pat@ =~= seq!['\n']);
        }
        let np = match find_pat(&s, &nl_pat, cs) {
            Some(nl) => nl + 1,
            None => cs,
        };
        if let Some(e) = find_pat(&s, &ticks, np) {
            let body = crate::json::vec_slice(&s, np, e);
            let trimmed = trim_chars(&body);
            return Some(chars_to_string(&trimmed));
        }
    }
    None
}

} // verus!

verus! {

/// Position of the last `[` not followed by any later `]` outside of
/// strings, carried in `last`; `-1` when every `[` was closed.
pub open spec fn sp_last_open(s: Seq<char>, i: int, in_str: bool, esc: bool, last: int) -> int
    decreases s.len() - i,
{
    if !(0 <= i < s.len()) {
        last
    } else if esc {
        sp_last_open(s, i + 1, in_str, false, last)
    } else if s[i] == '\\' && in_str {
        sp_last_open(s, i + 1, in_str, true, last)
    } else if s[i] == '"' {
        sp_last_open(s, i + 1, !in_str, false, last)
    } else if in_str {
        sp_last_open(s, i + 1, in_str, false, last)
    } else if s[i] == '[' {
        sp_last_open(s, i + 1, false, false, i)
    } else if s[i] == ']' {
        sp_last_open(s, i + 1, false, false, -1)
    } else {
        sp_last_open(s, i + 1, false, false, last)
    }
}

/// First `}` at or after `i` outside of strings, or `-1`.
pub open spec fn sp_first_close(s: Seq<char>, i: int, in_str: bool, esc: bool) -> int
    decreases s.len() - i,
{
    if !(0 <= i < s.len()) {
        -1
    } else if esc {
        sp_first_close(s, i + 1, in_str, false)
    } else if s[i] == '\\' && in_str {
        sp_first_close(s, i + 1, in_str, true)
    } else if s[i] == '"' {
        sp_first_close(s, i + 1, !in_str, false)
    } else if in_str {
        sp_first_close(s, i + 1, in_str, false)
    } else if s[i] == '}' {
        i
    } else {
        sp_first_close(s, i + 1, in_str, false)
    }
}

/// Index of the last `}` strictly before `j`, or `-1`.
pub open spec fn sp_rfind_brace(s: Seq<char>, j: int) -> int
    decreases j,
{
    if j <= 0 || j > s.len() {
        -1
    } else if s[j - 1] == '}' {
        j - 1
    } else {
        sp_rfind_brace(s, j - 1)
    }
}

/// `s` with `c` inserted at position `p`.
pub open spec fn sp_insert_at(s: Seq<char>, p: int, c: char) -> Seq<char> {
    s.subrange(0, p) + seq![c] + s.subrange(p, s.len() as int)
}

/// `s` with every `,]` collapsed to `]`, left to right.
pub open spec fn sp_replace_cj(s: Seq<char>, i: int) -> Seq<char>
    decreases s.len() - i,
{
    if !(0 <= i < s.len()) {
        Seq::empty()
    } else if i + 1 < s.len() && s[i] == ',' && s[i + 1] == ']' {
        seq![']'] + sp_replace_cj(s, i + 2)
    } else {
        seq![s[i]] + sp_replace_cj(s, i + 1)
    }
}

/// What the one-shot array repair makes of `s`: unchanged when `s`
/// already parses or has no unmatched `[`; else a `]` goes in after the
/// first `}` past that `[` (or before the last `}`, or at the end), and
/// any `,]` left behind is collapsed.
pub open spec fn sp_try_repair(s: Seq<char>) -> Seq<char> {
    if sp_parse_json(s) is Some {
        s
    } else {
        let op = sp_last_open(s, 0, false, false, -1);
        if op == -1 {
            s
        } else {
            let cl = sp_first_close(s, op, false, false);
            if cl >= 0 {
                sp_replace_cj(sp_insert_at(s, cl + 1, ']'), 0)
            } else {
                let lb = sp_rfind_brace(s, s.len() as int);
                if lb >= 0 {
                    sp_replace_cj(sp_insert_at(s, lb, ']'), 0)
                } else {
                    s + seq![']']
                }
            }
        }
    }
}

/// Append `src` to `dst`.
pub fn vec_extend(dst: &mut Vec<char>, src: &Vec<char>)
    ensures
        final(dst)@ == old(dst)@ + src@,
{
    let n = src.len();
    let mut i: usize = 0;
    while i < n
        invariant
            i <= n,
            n == src@.len(),
            dst@ == old(dst)@ + src@.subrange(0, i as int),
        decreases n - i,
    {
        dst.push(src[i]);
        i = i + 1;
        proof {
            assert(dst@ =~= old(dst)@ + src@.subrange(0, i as int));
        }
    }
    proof {
        assert(src@.subrange(0, n as int) =~= src@);
    }
}

fn insert_char_at(s: &Vec<char>, p: usize, c: char) -> (r: Vec<char>)
    requires
        p <= s@.len(),
    ensures
        r@ == sp_insert_at(s@, p as int, c),
{
    let n = s.len();
    let mut out = crate::json::vec_slice(s, 0, p);
    out.push(c);
    let tail = crate::json::vec_slice(s, p, n);
    vec_extend(&mut out, &tail);
    proof {
        assert(out@ =~= sp_insert_at(s@, p as int, c));
    }
    out
}

#[verifier::loop_isolation(false)]
fn replace_comma_bracket(s: &Vec<char>) -> (r: Vec<char>)
    ensures
        r@ == sp_replace_cj(s@, 0),
{
    let n = s.len();
    let mut out: Vec<char> = Vec::new();
    let mut i: usize = 0;
    while i < n
        invariant
            i <= n,
            sp_replace_cj(s@, 0) == out@ + sp_replace_cj(s@, i as int),
        decreases n - i,
    {
        if i + 1 < n && s[i] == ',' && s[i + 1] == ']' {
            out.push(']');
            i = i + 2;
        } else {
            out.push(s[i]);
            i = i + 1;
        }
        proof {
            assert(sp_replace_cj(s@, 0) =~= out@ + sp_replace_cj(s@, i as int));
        }
    }
    proof {
        assert(out@ =~= sp_replace_cj(s@, 0));
    }
    out
}

/// Best-effort repair of one common model mistake: an array opened with
/// `[` and never closed. At most one `]` is inserted per call.
#[verifier::loop_isolation(false)]
pub fn try_repair_json(input: &str) -> (r: String)
    ensures
        r@ == sp_try_repair(input@),
{
    if parse_json(input).is_some() {
        return input.to_owned();
    }
    let s = str_to_chars(input);
    let n = s.len();
    let mut last: Option<usize> = None;
    let mut in_str = false;
    let mut esc = false;
    let mut i: usize = 0;
    while i < n
        invariant
            i <= n,
            last matches Some(p) ==> p < n,
            sp_last_open(s@, 0, false, false, -1) == sp_last_open(
                s@,
                i as int,
                in_str,
                esc,
                match last {
                    Some(p) => p as int,
                    None => -1,
                },
            ),
        decreases n - i,
    {
        let c = s[i];
        if esc {
            esc = false;
        } else if c == '\\' && in_str {
            esc = true;
        } else if c == '"' {
            in_str = !in_str;
        } else if in_str {
        } else if c == '[' {
            last = Some(i);
        } else if c == ']' {
            last = None;
        }
        i = i + 1;
    }
    let op = match last {
        Some(p) => p,
        None => {
            return input.to_owned();
        },
    };
    let mut j: usize = op;
    let mut in_str2 = false;
    let mut esc2 = false;
    while j < n
        invariant
            op <= j <= n,
            sp_first_close(s@, op as int, false, false) == sp_first_close(
                s@,
                j as int,
                in_str2,
                esc2,
            ),
        decreases n - j,
    {
        let c = s[j];
        if esc2 {
            esc2 = false;
        } else if c == '\\' && in_str2 {
            esc2 = true;
        } else if c == '"' {
            in_str2 = !in_str2;
        } else if in_str2 {
        } else if c == '}' {
            let inserted = insert_char_at(&s, j + 1, ']');
            let replaced = replace_comma_bracket(&inserted);
            return chars_to_string(&replaced);
        }
        j = j + 1;
    }
    let mut k: usize = n;
    while k > 0
        invariant
            k <= n,
            sp_rfind_brace(s@, n as int) == sp_rfind_brace(s@, k as int),
        decreases k,
    {
        if s[k - 1] == '}' {
            let inserted = insert_char_at(&s, k - 1, ']');
            let replaced = replace_comma_bracket(&inserted);
            return chars_to_string(&replaced);
        }
        k = k - 1;
    }
    let mut out = crate::json::vec_slice(&s, 0, n);
    out.push(']');
    proof {
        assert(s@.subrange(0, n as int) =~= s@);
        assert(out@ =~= s@ + seq![']']);
    }
    chars_to_string(&out)
}

/// What the ordered fallback of `extract_and_parse_json` yields: the
/// whole text as JSON, else a fenced block, else the first balanced
/// object span, repaired once if need be.
pub open spec fn sp_extract_and_parse(s: Seq<char>) -> Option<Jv> {
    if sp_parse_json(s) is Some {
        sp_parse_json(s)
    } else {
        let blk = sp_code_block(s);
        if blk matches Some(b) && sp_parse_json(b) is Some {
            sp_parse_json(blk.unwrap())
        } else {
            match sp_extract_obj(s) {
                Some(o) => if sp_parse_json(o) is Some {
                    sp_parse_json(o)
                } else {
                    let rep = sp_try_repair(o);
                    if rep != o && sp_parse_json(rep) is Some {
                        sp_parse_json(rep)
                    } else {
                        None
                    }
                },
                None => None,
            }
        }
    }
}

/// The failure detail: the response itself, cut to 200 characters and an
/// ellipsis when longer.
pub open spec fn sp_error_excerpt(s: Seq<char>) -> Seq<char> {
    if s.len() > 200 {
        s.subrange(0, 200) + seq!['.', '.', '.']
    } else {
        s
    }
}

/// The fixed text before the failure detail.
pub open spec fn sp_error_prefix() -> Seq<char> {
    "Failed to parse JSON from AI response. Response was: "@
}

/// Extract a JSON value from free-form model output, trying in order:
/// the whole text, a fenced code block, the first balanced object span,
/// and that span repaired once. On failure the error holds a
/// bounded-length excerpt of the text.
pub fn extract_and_parse_json(response: &str) -> (r: Result<JsonValue, String>)
    ensures
        r matches Ok(v) ==> sp_extract_and_parse(response@) == Some(v@),
        r matches Err(e) ==> sp_extract_and_parse(response@) is None && e@ == sp_error_prefix()
            + sp_error_excerpt(response@),
{
    if let Some(v) = parse_json(response) {
        return Ok(v);
    }
    if let Some(block) = extract_json_from_code_block(response) {
        if let Some(v) = parse_json(block.as_str()) {
            return Ok(v);
        }
    }
    if let Some(obj) = extract_json_object(response) {
        if let Some(v) = parse_json(obj.as_str()) {
            return Ok(v);
        }
        let repaired = try_repair_json(obj.as_str());
        if !(repaired == obj) {
            if let Some(v) = parse_json(repaired.as_str()) {
                return Ok(v);
            }
        }
    }
    let mut msg = str_to_chars("Failed to parse JSON from AI response. Response was: ");
    let resp = str_to_chars(response);
    if resp.len() > 200 {
        let head = crate::json::vec_slice(&resp, 0, 200);
        vec_extend(&mut msg, &head);
        msg.push('.');
        msg.push('.');
        msg.push('.');
    } else {
        vec_extend(&mut msg, &resp);
    }
    proof {
        assert(msg@ =~= sp_error_prefix() + sp_error_excerpt(response@));
    }
    Err(chars_to_string(&msg))
}

} // verus!

verus! {

/// ASCII capital letter.
pub open spec fn sp_is_upper(c: char) -> bool {
    ('A' as u32) <= (c as u32) && (c as u32) <= ('Z' as u32)
}

/// The same letter in lower case (ASCII only).
pub open spec fn sp_to_lower(c: char) -> char {
    if sp_is_upper(c) {
        ((c as u32) + 32) as char
    } else {
        c
    }
}

/// Snake-case rendering of `s[i..]`: each capital is lowered, with an
/// underscore before it except at the very start.
pub open spec fn sp_snake(s: Seq<char>, i: int) -> Seq<char>
    decreases s.len() - i,
{
    if !(0 <= i < s.len()) {
        Seq::empty()
    } else {
        let piece = if sp_is_upper(s[i]) {
            if i > 0 {
                seq!['_', sp_to_lower(s[i])]
            } else {
                seq![sp_to_lower(s[i])]
            }
        } else {
            seq![s[i]]
        };
        piece + sp_snake(s, i + 1)
    }
}

/// Turn a `CamelCase` name into `snake_case` (ASCII letters).
#[verifier::loop_isolation(false)]
pub fn to_snake_case(s: &str) -> (r: String)
    ensures
        r@ == sp_snake(s@, 0),
{
    let chars = str_to_chars(s);
    let n = chars.len();
    let mut out: Vec<char> = Vec::new();
    let mut i: usize = 0;
    while i < n
        invariant
            i <= n,
            sp_snake(s@, 0) == out@ + sp_snake(s@, i as int),
        decreases n - i,
    {
        let c = chars[i];
        let x = c as u32;
        if 65 <= x && x <= 90 {
            if i > 0 {
                out.push('_');
            }
            let low = ((x + 32) as u8) as char;
            proof {
                assert(low == sp_to_lower(c));
            }
            out.push(low);
        } else {
            out.push(c);
        }
        i = i + 1;
        proof {
            assert(sp_snake(s@, 0) =~= out@ + sp_snake(s@, i as int));
        }
    }
    proof {
        assert(out@ =~= sp_snake(s@, 0));
    }
    chars_to_string(&out)
}

/// One schema line for a field: two spaces, the quoted name, a colon and
/// the bracketed type.
pub open spec fn sp_field_line(name: Seq<char>, ty: Seq<char>) -> Seq<char> {
    seq![' ', ' ', '"'] + name + seq!['"', ':', ' ', '<'] + ty + seq!['>']
}

/// The schema lines of `fields[i..]`, joined with a comma and line break.
pub open spec fn sp_schema_fields(fields: Seq<(Seq<char>, Seq<char>)>, i: int) -> Seq<char>
    decreases fields.len() - i,
{
    if !(0 <= i < fields.len()) {
        Seq::empty()
    } else if i + 1 == fields.len() {
        sp_field_line(fields[i].0, fields[i].1)
    } else {
        sp_field_line(fields[i].0, fields[i].1) + seq![',', '\n'] + sp_schema_fields(fields, i + 1)
    }
}

/// The model of a field list.
pub open spec fn sp_fields_view(fields: Seq<(String, String)>) -> Seq<(Seq<char>, Seq<char>)> {
    Seq::new(fields.len(), |i: int| (fields[i].0@, fields[i].1@))
}

/// The schema text handed to the model for a field list.
pub open spec fn sp_schema_description(fields: Seq<(Seq<char>, Seq<char>)>) -> Seq<char> {
    "JSON object with fields:\n{\n"@ + sp_schema_fields(fields, 0) + "\n}"@
}

/// Render the wire-stable schema text for a list of `(name, type)`
/// fields.
#[verifier::loop_isolation(false)]
pub fn schema_description_from_fields(fields: &Vec<(String, String)>) -> (r: String)
    ensures
        r@ == sp_schema_description(sp_fields_view(fields@)),
{
    let n = fields.len();
    let ghost fv = sp_fields_view(fields@);
    let mut out = str_to_chars("JSON object with fields:\n{\n");
    let mut i: usize = 0;
    while i < n
        invariant
            i <= n,
            n == fields@.len(),
            fv == sp_fields_view(fields@),
            out@ + sp_schema_fields(fv, i as int) == "JSON object with fields:\n{\n"@
                + sp_schema_fields(fv, 0),
        decreases n - i,
    {
        let f = &fields[i];
        out.push(' ');
        out.push(' ');
        out.push('"');
        let name_chars = str_to_chars(f.0.as_str());
        vec_extend(&mut out, &name_chars);
        out.push('"');
        out.push(':');
        out.push(' ');
        out.push('<');
        let ty_chars = str_to_chars(f.1.as_str());
        vec_extend(&mut out, &ty_chars);
        out.push('>');
        if i + 1 < n {
            out.push(',');
            out.push('\n');
        }
        i = i + 1;
        proof {
            assert(fv[i - 1] == (fields@[i - 1].0@, fields@[i - 1].1@));
            assert(out@ + sp_schema_fields(fv, i as int) =~= "JSON object with fields:\n{\n"@
                + sp_schema_fields(fv, 0));
        }
    }
    let tail = str_to_chars("\n}");
    vec_extend(&mut out, &tail);
    proof {
        assert(out@ =~= sp_schema_description(fv));
    }
    chars_to_string(&out)
}

/// The instruction text for a typed request.
pub open spec fn sp_typed_prompt(schema: Seq<char>, user: Seq<char>) -> Seq<char> {
    "You must respond with ONLY a valid JSON object matching this schema:\n"@ + schema
        + "\n\nUser request: "@ + user
        + "\n\nRespond with only the JSON object, no explanation."@
}

/// Build the prompt that instructs the model to answer with JSON of the
/// given schema.
pub fn build_typed_prompt(schema_description: &str, user_message: &str) -> (r: String)
    ensures
        r@ == sp_typed_prompt(schema_description@, user_message@),
{
    let mut out = str_to_chars(
        "You must respond with ONLY a valid JSON object matching this schema:\n",
    );
    let schema = str_to_chars(schema_description);
    vec_extend(&mut out, &schema);
    let mid = str_to_chars("\n\nUser request: ");
    vec_extend(&mut out, &mid);
    let user = str_to_chars(user_message);
    vec_extend(&mut out, &user);
    let tail = str_to_chars("\n\nRespond with only the JSON object, no explanation.");
    vec_extend(&mut out, &tail);
    proof {
        assert(out@ =~= sp_typed_prompt(schema_description@, user_message@));
    }
    chars_to_string(&out)
}

/// Name of the JSON type that stands for a Rust type in schema text.
pub trait AiSchemaType {
    fn schema_type_name() -> &'static str;
}

impl AiSchemaType for String {
    fn schema_type_name() -> &'static str {
        "string"
    }
}

impl AiSchemaType for i8 {
    fn schema_type_name() -> &'static str {
        "integer"
    }
}

impl AiSchemaType for i16 {
    fn schema_type_name() -> &'static str {
        "integer"
    }
}

impl AiSchemaType for i32 {
    fn schema_type_name() -> &'static str {
        "integer"
    }
}

impl AiSchemaType for i64 {
    fn schema_type_name() -> &'static str {
        "integer"
    }
}

impl AiSchemaType for u8 {
    fn schema_type_name() -> &'static str {
        "integer"
    }
}

impl AiSchemaType for u16 {
    fn schema_type_name() -> &'static str {
        "integer"
    }
}

impl AiSchemaType for u32 {
    fn schema_type_name() -> &'static str {
        "integer"
    }
}

impl AiSchemaType for u64 {
    fn schema_type_name() -> &'static str {
        "integer"
    }
}

impl AiSchemaType for bool {
    fn schema_type_name() -> &'static str {
        "boolean"
    }
}

impl<T: AiSchemaType> AiSchemaType for Vec<T> {
    fn schema_type_name() -> &'static str {
        "array"
    }
}

impl<T: AiSchemaType> AiSchemaType for Option<T> {
    fn schema_type_name() -> &'static str {
        T::schema_type_name()
    }
}

} // verus!

verus! {

/// Outcome of one incremental parsing step, at the model level.
pub ghost enum JsonStreamSpec {
    Finished(Jv, int),
    Incomplete(Seq<char>),
    Invalid,
}

/// Characters of `input` left unread once the span `b` found in the
/// buffered text `comb` has been consumed.
pub open spec fn sp_stream_remaining(comb: Seq<char>, b: Seq<char>, buf_len: int) -> int {
    let pos = sp_find(comb, b, 0);
    if pos >= 0 {
        let end = pos + b.len();
        if end <= buf_len {
            0
        } else {
            comb.len() - buf_len - (end - buf_len)
        }
    } else {
        0
    }
}

/// What one incremental step yields on the buffered text `buf` extended
/// by `inp`: a fenced block is preferred, else the first balanced object
/// span; with neither, the step asks for more input.
pub open spec fn sp_stream_parse(buf: Seq<char>, inp: Seq<char>) -> JsonStreamSpec {
    let comb = buf + inp;
    match sp_code_block(comb) {
        Some(b) => match sp_parse_json(b) {
            Some(jv) => JsonStreamSpec::Finished(jv, sp_stream_remaining(comb, b, buf.len() as int)),
            None => JsonStreamSpec::Invalid,
        },
        None => match sp_extract_obj(comb) {
            Some(o) => match sp_parse_json(o) {
                Some(jv) => JsonStreamSpec::Finished(
                    jv,
                    sp_stream_remaining(comb, o, buf.len() as int),
                ),
                None => JsonStreamSpec::Invalid,
            },
            None => JsonStreamSpec::Incomplete(comb),
        },
    }
}

/// A tiny incremental parser: it accumulates input until the text holds
/// extractable JSON, then parses it.
pub struct JsonParser;

/// Buffered input of [`JsonParser`] between steps.
#[derive(Debug)]
pub struct JsonParserState {
    buffer: Vec<char>,
}

impl View for JsonParserState {
    type V = Seq<char>;

    closed spec fn view(&self) -> Seq<char> {
        self.buffer@
    }
}

impl Clone for JsonParserState {
    /// Cloning keeps the buffered characters.
    fn clone(&self) -> (r: Self)
        ensures
            r@ == self@,
    {
        JsonParserState { buffer: crate::json::vec_slice(&self.buffer, 0, self.buffer.len()) }
    }
}

/// Outcome of one incremental parsing step.
#[derive(Debug)]
pub enum JsonStreamStatus {
    /// A value was parsed; `remaining` counts the unread characters at
    /// the end of this step's input.
    Finished { result: JsonValue, remaining: usize },
    /// No JSON yet: feed the returned state more input.
    Incomplete { state: JsonParserState },
}

impl JsonParser {
    /// Fresh state with an empty buffer.
    pub fn create_parser_state(&self) -> (r: JsonParserState)
        ensures
            r@ == Seq::<char>::empty(),
    {
        JsonParserState { buffer: Vec::new() }
    }

    /// Run one step on the buffered text extended by `input`.
    pub fn parse(&self, state: &JsonParserState, input: &str) -> (r: Result<
        JsonStreamStatus,
        String,
    >)
        ensures
            match sp_stream_parse(state@, input@) {
                JsonStreamSpec::Finished(jv, rem) => r matches Ok(
                    JsonStreamStatus::Finished { result, remaining },
                ) && result@ == jv && remaining as int == rem,
                JsonStreamSpec::Incomplete(b) => r matches Ok(
                    JsonStreamStatus::Incomplete { state: st },
                ) && st@ == b,
                JsonStreamSpec::Invalid => r is Err,
            },
    {
        let mut comb = crate::json::vec_slice(&state.buffer, 0, state.buffer.len());
        let inp = str_to_chars(input);
        vec_extend(&mut comb, &inp);
        proof {
            assert(comb@ =~= state.buffer@ + input@);
        }
        let comb_s = chars_to_string(&comb);
        let buf_len = state.buffer.len();
        if let Some(block) = extract_json_from_code_block(comb_s.as_str()) {
            match parse_json(block.as_str()) {
                Some(v) => {
                    let rem = stream_remaining(&comb, &block, buf_len);
                    Ok(JsonStreamStatus::Finished { result: v, remaining: rem })
                },
                None => Err("invalid json".to_owned()),
            }
        } else if let Some(obj) = extract_json_object(comb_s.as_str()) {
            match parse_json(obj.as_str()) {
                Some(v) => {
                    let rem = stream_remaining(&comb, &obj, buf_len);
                    Ok(JsonStreamStatus::Finished { result: v, remaining: rem })
                },
                None => Err("invalid json".to_owned()),
            }
        } else {
            Ok(JsonStreamStatus::Incomplete { state: JsonParserState { buffer: comb } })
        }
    }
}

/// A text that parses as JSON is not empty.
proof fn lemma_parse_nonempty(s: Seq<char>)
    requires
        sp_parse_json(s) is Some,
    ensures
        s.len() >= 1,
{
    if s.len() == 0 {
        assert(sp_skip_ws(s, 0) == 0);
    }
}

fn stream_remaining(comb: &Vec<char>, b: &String, buf_len: usize) -> (r: usize)
    requires
        sp_parse_json(b@) is Some,
        buf_len <= comb@.len(),
    ensures
        r as int == sp_stream_remaining(comb@, b@, buf_len as int),
        r <= comb@.len() - buf_len,
{
    proof {
        lemma_parse_nonempty(b@);
    }
    let n = comb.len();
    let bchars = str_to_chars(b.as_str());
    match find_pat(comb, &bchars, 0) {
        Some(pos) => {
            let end = pos + bchars.len();
            if end <= buf_len {
                0
            } else {
                comb.len() - buf_len - (end - buf_len)
            }
        },
        None => 0,
    }
}

} // verus!
