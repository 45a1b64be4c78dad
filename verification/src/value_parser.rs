//! The literal value parser.
//!
//! A value literal is parsed by trying a fixed priority list of alternatives
//! (quoted string, float, integer, boolean, `PackedStringArray`, `NodePath`,
//! `Vector2`, `Rect2`, `ExtResource`, `SubResource`, `Color`, array,
//! dictionary); the first alternative that matches wins.  The order resolves
//! genuine grammar ambiguity (a digit run without a `.` is an integer, one
//! with a `.` a float) and must not be changed.
//!
//! Every `sp_*` function below is the specification of one alternative: a
//! total function from the input characters and a position to the parse
//! outcome.  The executable functions are proved to return exactly what the
//! `sp_*` functions describe.

use crate::text::{digit, is_digit, is_num_char, num_char};
use crate::values::{
    color_open, ext_resource_open, node_path_open, psa_open, rect2_open, sub_resource_open,
    vector2_open, wf_float_chars, DictEntry, FloatLit, GodotValue, Val,
};
use vstd::prelude::*;

verus! {

// ---------------------------------------------------------------------------
// Specification: leaf scanners
// ---------------------------------------------------------------------------
/// Position of the closing quote of a string literal whose opening quote
/// stands just before `i`; `\"` pairs are skipped, a bare `\` is an error.
pub open spec fn scan_qstr_end(s: Seq<char>, i: int) -> Option<int>
    decreases s.len() - i,
{
    if i < 0 || i >= s.len() {
        None
    } else if s[i] == '"' {
        Some(i)
    } else if s[i] == '\\' {
        if i + 1 < s.len() && s[i + 1] == '"' {
            scan_qstr_end(s, i + 2)
        } else {
            None
        }
    } else {
        scan_qstr_end(s, i + 1)
    }
}

/// The text between the quotes with every `\"` turned back into `"`.
pub open spec fn unescape(t: Seq<char>) -> Seq<char>
    decreases t.len(),
{
    if t.len() == 0 {
        Seq::empty()
    } else if t[0] == '\\' && t.len() >= 2 && t[1] == '"' {
        seq!['"'] + unescape(t.subrange(2, t.len() as int))
    } else {
        seq![t[0]] + unescape(t.subrange(1, t.len() as int))
    }
}

/// End of the maximal run of numeric characters (digits, `.`, `-`) at `i`.
pub open spec fn num_run_end(s: Seq<char>, i: int) -> int
    decreases s.len() - i,
{
    if 0 <= i < s.len() && is_num_char(s[i]) {
        num_run_end(s, i + 1)
    } else {
        i
    }
}

/// End of the maximal run of decimal digits at `i`.
pub open spec fn digits_end(s: Seq<char>, i: int) -> int
    decreases s.len() - i,
{
    if 0 <= i < s.len() && is_digit(s[i]) {
        digits_end(s, i + 1)
    } else {
        i
    }
}

/// Numeric value of a digit sequence, most significant digit first.
pub open spec fn digits_val(t: Seq<char>) -> int
    decreases t.len(),
{
    if t.len() == 0 {
        0
    } else {
        digits_val(t.drop_last()) * 10 + (t.last() as int - '0' as int)
    }
}

/// First position at or after `i` holding character `c`.
pub open spec fn find_char(s: Seq<char>, i: int, c: char) -> Option<int>
    decreases s.len() - i,
{
    if 0 <= i < s.len() {
        if s[i] == c {
            Some(i)
        } else {
            find_char(s, i + 1, c)
        }
    } else {
        None
    }
}

/// The literal `lit` stands at position `pos` of `s`.
pub open spec fn match_lit(s: Seq<char>, pos: int, lit: Seq<char>) -> bool {
    &&& 0 <= pos
    &&& pos + lit.len() <= s.len()
    &&& s.subrange(pos, pos + lit.len() as int) == lit
}

// ---------------------------------------------------------------------------
// Specification: simple alternatives
// ---------------------------------------------------------------------------
/// Quoted string: `"` + content + the matching unescaped `"`.
pub open spec fn sp_qstr(s: Seq<char>, pos: int) -> Option<(Seq<char>, int)> {
    if 0 <= pos < s.len() && s[pos] == '"' {
        match scan_qstr_end(s, pos + 1) {
            Some(e) => Some((unescape(s.subrange(pos + 1, e)), e + 1)),
            None => None,
        }
    } else {
        None
    }
}

/// Float literal: the maximal numeric run, which must be a well-formed
/// lexeme containing a `.` (a bare integer falls through to `sp_int`).
pub open spec fn sp_float(s: Seq<char>, pos: int) -> Option<(Seq<char>, int)> {
    let e = num_run_end(s, pos);
    let t = s.subrange(pos, e);
    if 0 <= pos && e > pos && wf_float_chars(t) {
        Some((t, e))
    } else {
        None
    }
}

/// Signed 64-bit integer literal: optional `+`/`-` sign, then digits; an
/// out-of-range value is no match.
pub open spec fn sp_int(s: Seq<char>, pos: int) -> Option<(i64, int)> {
    if 0 <= pos < s.len() {
        let p1 = if s[pos] == '-' || s[pos] == '+' {
            pos + 1
        } else {
            pos
        };
        let e = digits_end(s, p1);
        let m = digits_val(s.subrange(p1, e));
        let v = if s[pos] == '-' {
            -m
        } else {
            m
        };
        if e > p1 && -0x8000_0000_0000_0000 <= v <= 0x7fff_ffff_ffff_ffff {
            Some((v as i64, e))
        } else {
            None
        }
    } else {
        None
    }
}

/// Boolean literal: the prefix `true` or `false`.
pub open spec fn sp_bool(s: Seq<char>, pos: int) -> Option<(bool, int)> {
    if match_lit(s, pos, seq!['t', 'r', 'u', 'e']) {
        Some((true, pos + 4))
    } else if match_lit(s, pos, seq!['f', 'a', 'l', 's', 'e']) {
        Some((false, pos + 5))
    } else {
        None
    }
}

/// A constructor literal wrapping a quoted identifier, e.g.
/// `NodePath("...")`: the prefix, one or more characters up to the next
/// `"`, then `")`.
pub open spec fn sp_quoted_id(s: Seq<char>, pos: int, prefix: Seq<char>) -> Option<
    (Seq<char>, int),
> {
    if match_lit(s, pos, prefix) {
        let p = pos + prefix.len() as int;
        match find_char(s, p, '"') {
            Some(e) => if e > p && match_lit(s, e, seq!['"', ')']) {
                Some((s.subrange(p, e), e + 2))
            } else {
                None
            },
            None => None,
        }
    } else {
        None
    }
}

// ---------------------------------------------------------------------------
// Specification: numeric components of Vector2 / Rect2 / Color
// ---------------------------------------------------------------------------
/// The float lexeme an integer span is normalized to: the span without a
/// leading `+`, with `.0` appended.
pub open spec fn int_span_lexeme(s: Seq<char>, pos: int, e: int) -> Seq<char> {
    let sp = s.subrange(pos, e);
    let core = if sp.len() > 0 && sp[0] == '+' {
        sp.drop_first()
    } else {
        sp
    };
    core + seq!['.', '0']
}

/// A numeric component: a float lexeme, or an integer normalized to float
/// form.
pub open spec fn sp_component(s: Seq<char>, pos: int) -> Option<(Seq<char>, int)> {
    match sp_float(s, pos) {
        Some(r) => Some(r),
        None => match sp_int(s, pos) {
            Some((_, e)) => Some((int_span_lexeme(s, pos, e), e)),
            None => None,
        },
    }
}

/// `, `-separated list of numeric components (may be empty).
pub open spec fn sp_component_list(s: Seq<char>, pos: int) -> (Seq<Seq<char>>, int)
    decreases s.len() - pos,
{
    match sp_component(s, pos) {
        None => (Seq::empty(), pos),
        Some((v, p2)) => if p2 > pos && match_lit(s, p2, seq![',', ' ']) && sp_component(
            s,
            p2 + 2,
        ) is Some {
            let (rest, e) = sp_component_list(s, p2 + 2);
            (seq![v] + rest, e)
        } else {
            (seq![v], p2)
        },
    }
}

/// `, `-separated list of quoted strings (may be empty).
pub open spec fn sp_str_list(s: Seq<char>, pos: int) -> (Seq<Seq<char>>, int)
    decreases s.len() - pos,
{
    match sp_qstr(s, pos) {
        None => (Seq::empty(), pos),
        Some((v, p2)) => if p2 > pos && match_lit(s, p2, seq![',', ' ']) && sp_qstr(
            s,
            p2 + 2,
        ) is Some {
            let (rest, e) = sp_str_list(s, p2 + 2);
            (seq![v] + rest, e)
        } else {
            (seq![v], p2)
        },
    }
}

/// `PackedStringArray(...)`.
pub open spec fn sp_psa(s: Seq<char>, pos: int) -> Option<(Val, int)> {
    if match_lit(s, pos, psa_open()) {
        let (es, p1) = sp_str_list(s, pos + 18);
        if match_lit(s, p1, seq![')']) {
            Some((Val::VPsa(es), p1 + 1))
        } else {
            None
        }
    } else {
        None
    }
}

/// `Vector2(a, b)`.
pub open spec fn sp_vec2(s: Seq<char>, pos: int) -> Option<(Val, int)> {
    if match_lit(s, pos, vector2_open()) {
        match sp_component(s, pos + 8) {
            Some((a, p1)) => if match_lit(s, p1, seq![',', ' ']) {
                match sp_component(s, p1 + 2) {
                    Some((b, p2)) => if match_lit(s, p2, seq![')']) {
                        Some((Val::VVec2(a, b), p2 + 1))
                    } else {
                        None
                    },
                    None => None,
                }
            } else {
                None
            },
            None => None,
        }
    } else {
        None
    }
}

/// `Rect2(a, b, c, d)`.
pub open spec fn sp_rect2(s: Seq<char>, pos: int) -> Option<(Val, int)> {
    if match_lit(s, pos, rect2_open()) {
        match sp_component(s, pos + 6) {
            Some((a, p1)) => if match_lit(s, p1, seq![',', ' ']) {
                match sp_component(s, p1 + 2) {
                    Some((b, p2)) => if match_lit(s, p2, seq![',', ' ']) {
                        match sp_component(s, p2 + 2) {
                            Some((c, p3)) => if match_lit(s, p3, seq![',', ' ']) {
                                match sp_component(s, p3 + 2) {
                                    Some((d, p4)) => if match_lit(s, p4, seq![')']) {
                                        Some((Val::VRect2(a, b, c, d), p4 + 1))
                                    } else {
                                        None
                                    },
                                    None => None,
                                }
                            } else {
                                None
                            },
                            None => None,
                        }
                    } else {
                        None
                    },
                    None => None,
                }
            } else {
                None
            },
            None => None,
        }
    } else {
        None
    }
}

/// The `i`-th component of a `Color` list; a missing component defaults to
/// `0.0` (not `1.0`), including the alpha channel.
pub open spec fn color_component(es: Seq<Seq<char>>, i: int) -> Seq<char> {
    if 0 <= i < es.len() {
        es[i]
    } else {
        seq!['0', '.', '0']
    }
}

/// `Color(...)` with up to four components; extra components are dropped,
/// missing ones default to `0.0`.
pub open spec fn sp_color(s: Seq<char>, pos: int) -> Option<(Val, int)> {
    if match_lit(s, pos, color_open()) {
        let (es, p1) = sp_component_list(s, pos + 6);
        if match_lit(s, p1, seq![')']) {
            Some(
                (
                    Val::VColor(
                        color_component(es, 0),
                        color_component(es, 1),
                        color_component(es, 2),
                        color_component(es, 3),
                    ),
                    p1 + 1,
                ),
            )
        } else {
            None
        }
    } else {
        None
    }
}

// ---------------------------------------------------------------------------
// Specification: the recursive alternatives and the dispatcher
// ---------------------------------------------------------------------------
/// `[v, v, ...]`.
pub open spec fn sp_arr(s: Seq<char>, pos: int) -> Option<(Val, int)>
    decreases s.len() - pos, 0int,
{
    if 0 <= pos < s.len() && s[pos] == '[' {
        let (vs, p1) = sp_val_list(s, pos + 1);
        if match_lit(s, p1, seq![']']) {
            Some((Val::VArr(vs), p1 + 1))
        } else {
            None
        }
    } else {
        None
    }
}

/// `, `-separated list of values (may be empty).
pub open spec fn sp_val_list(s: Seq<char>, pos: int) -> (Seq<Val>, int)
    decreases s.len() - pos, 3int,
{
    match sp_value(s, pos) {
        None => (Seq::empty(), pos),
        Some((v, p2)) => if p2 > pos && match_lit(s, p2, seq![',', ' ']) && sp_value(
            s,
            p2 + 2,
        ) is Some {
            let (rest, e) = sp_val_list(s, p2 + 2);
            (seq![v] + rest, e)
        } else {
            (seq![v], p2)
        },
    }
}

/// One `"key": value` pair of a dictionary.
pub open spec fn sp_pair(s: Seq<char>, pos: int) -> Option<((Seq<char>, Val), int)>
    decreases s.len() - pos, 0int,
{
    match sp_qstr(s, pos) {
        None => None,
        Some((k, p2)) => if p2 > pos && match_lit(s, p2, seq![':', ' ']) {
            match sp_value(s, p2 + 2) {
                Some((v, e)) => Some(((k, v), e)),
                None => None,
            }
        } else {
            None
        },
    }
}

/// `,\n`-separated list of dictionary pairs (may be empty).
pub open spec fn sp_pair_list(s: Seq<char>, pos: int) -> (Seq<(Seq<char>, Val)>, int)
    decreases s.len() - pos, 3int,
{
    match sp_pair(s, pos) {
        None => (Seq::empty(), pos),
        Some((p, p2)) => if p2 > pos && match_lit(s, p2, seq![',', '\n']) && sp_pair(
            s,
            p2 + 2,
        ) is Some {
            let (rest, e) = sp_pair_list(s, p2 + 2);
            (seq![p] + rest, e)
        } else {
            (seq![p], p2)
        },
    }
}

/// `{`, a newline, `"key": value` pairs separated by `,\n`, a newline, `}`.
/// The grammar assumes this exact pretty-printed layout; it is not a general
/// whitespace-insensitive dictionary grammar.
pub open spec fn sp_dict(s: Seq<char>, pos: int) -> Option<(Val, int)>
    decreases s.len() - pos, 0int,
{
    if match_lit(s, pos, seq!['{', '\n']) {
        let (ps, p1) = sp_pair_list(s, pos + 2);
        if match_lit(s, p1, seq!['\n', '}']) {
            Some((Val::VDict(ps), p1 + 2))
        } else {
            None
        }
    } else {
        None
    }
}

/// The value dispatcher: the alternatives in their priority order; the
/// first that matches wins, and an input matching none is no value.
pub open spec fn sp_value(s: Seq<char>, pos: int) -> Option<(Val, int)>
    decreases s.len() - pos, 2int,
{
    match sp_qstr(s, pos) {
        Some((v, e)) => Some((Val::VStr(v), e)),
        None => match sp_float(s, pos) {
            Some((t, e)) => Some((Val::VFloat(t), e)),
            None => match sp_int(s, pos) {
                Some((n, e)) => Some((Val::VInt(n), e)),
                None => match sp_bool(s, pos) {
                    Some((b, e)) => Some((Val::VBool(b), e)),
                    None => match sp_psa(s, pos) {
                        Some(r) => Some(r),
                        None => match sp_quoted_id(s, pos, node_path_open()) {
                            Some((id, e)) => Some((Val::VNodePath(id), e)),
                            None => match sp_vec2(s, pos) {
                                Some(r) => Some(r),
                                None => match sp_rect2(s, pos) {
                                    Some(r) => Some(r),
                                    None => match sp_quoted_id(s, pos, ext_resource_open()) {
                                        Some((id, e)) => Some((Val::VExtRes(id), e)),
                                        None => match sp_quoted_id(s, pos, sub_resource_open()) {
                                            Some((id, e)) => Some((Val::VSubRes(id), e)),
                                            None => match sp_color(s, pos) {
                                                Some(r) => Some(r),
                                                None => match sp_arr(s, pos) {
                                                    Some(r) => Some(r),
                                                    None => sp_dict(s, pos),
                                                },
                                            },
                                        },
                                    },
                                },
                            },
                        },
                    },
                },
            },
        },
    }
}

// ---------------------------------------------------------------------------
// Executable code: leaf scanners
// ---------------------------------------------------------------------------
/// Does the literal `lit` stand at `pos` of `s`?
pub fn lit_at(s: &str, pos: usize, lit: &str) -> (r: bool)
    requires
        pos <= s@.len(),
    ensures
        r == match_lit(s@, pos as int, lit@),
        s@.len() <= usize::MAX,
{
    let len = s.unicode_len();
    let n = lit.unicode_len();
    if n > len - pos {
        return false;
    }
    let mut j: usize = 0;
    while j < n
        invariant
            len == s@.len(),
            n == lit@.len(),
            pos + n <= len,
            j <= n,
            forall|k: int| 0 <= k < j ==> s@[pos + k] == lit@[k],
        decreases n - j,
    {
        if s.get_char(pos + j) != lit.get_char(j) {
            proof {
                assert(s@.subrange(pos as int, pos + lit@.len() as int)[j as int] == s@[pos + j]);
            }
            return false;
        }
        j += 1;
    }
    proof {
        assert(s@.subrange(pos as int, pos + lit@.len() as int) =~= lit@);
    }
    true
}

/// Find the closing quote from `start`, honouring `\"` escapes.
fn scan_quote(s: &str, start: usize) -> (r: Option<usize>)
    requires
        start <= s@.len(),
    ensures
        (match r {
            Some(e) => scan_qstr_end(s@, start as int) == Some(e as int) && start <= e < s@.len(),
            None => scan_qstr_end(s@, start as int) is None,
        }),
{
    let len = s.unicode_len();
    let mut i = start;
    while i < len
        invariant
            len == s@.len(),
            start <= i <= len,
            scan_qstr_end(s@, start as int) == scan_qstr_end(s@, i as int),
        decreases len - i,
    {
        let c = s.get_char(i);
        if c == '"' {
            return Some(i);
        }
        if c == '\\' {
            if i + 1 < len && s.get_char(i + 1) == '"' {
                i += 2;
            } else {
                return None;
            }
        } else {
            i += 1;
        }
    }
    None
}

/// Copy `[from, to)` of `s` into a fresh string, undoing `\"` escapes.
fn unescape_range(s: &str, from: usize, to: usize) -> (r: String)
    requires
        from <= to <= s@.len(),
    ensures
        r@ == unescape(s@.subrange(from as int, to as int)),
{
    let mut out = String::new();
    let mut i = from;
    while i < to
        invariant
            from <= i <= to <= s@.len(),
            out@ + unescape(s@.subrange(i as int, to as int)) == unescape(
                s@.subrange(from as int, to as int),
            ),
        decreases to - i,
    {
        let ghost t = s@.subrange(i as int, to as int);
        if s.get_char(i) == '\\' && i + 1 < to && s.get_char(i + 1) == '"' {
            out.append("\"");
            proof {
                reveal_strlit("\"");
                assert(t.subrange(2, t.len() as int) =~= s@.subrange(i + 2, to as int));
            }
            i += 2;
        } else {
            let piece = s.substring_char(i, i + 1);
            out.append(piece);
            proof {
                assert(piece@ =~= seq![t[0]]);
                assert(t.subrange(1, t.len() as int) =~= s@.subrange(i + 1, to as int));
            }
            i += 1;
        }
    }
    proof {
        assert(s@.subrange(to as int, to as int) =~= Seq::<char>::empty());
    }
    out
}

/// End of the maximal numeric run at `pos`.
fn num_run(s: &str, pos: usize) -> (e: usize)
    requires
        pos <= s@.len(),
    ensures
        e as int == num_run_end(s@, pos as int),
        pos <= e <= s@.len(),
{
    let len = s.unicode_len();
    let mut i = pos;
    while i < len && num_char(s.get_char(i))
        invariant
            len == s@.len(),
            pos <= i <= len,
            num_run_end(s@, pos as int) == num_run_end(s@, i as int),
        decreases len - i,
    {
        i += 1;
    }
    i
}

/// End of the maximal digit run at `pos`.
pub(crate) fn digits_run(s: &str, pos: usize) -> (e: usize)
    requires
        pos <= s@.len(),
    ensures
        e as int == digits_end(s@, pos as int),
        pos <= e <= s@.len(),
{
    let len = s.unicode_len();
    let mut i = pos;
    while i < len && digit(s.get_char(i))
        invariant
            len == s@.len(),
            pos <= i <= len,
            digits_end(s@, pos as int) == digits_end(s@, i as int),
        decreases len - i,
    {
        i += 1;
    }
    i
}

/// First position at or after `pos` holding `c`.
pub(crate) fn find_char_at(s: &str, pos: usize, c: char) -> (r: Option<usize>)
    requires
        pos <= s@.len(),
    ensures
        (match r {
            Some(e) => find_char(s@, pos as int, c) == Some(e as int) && pos <= e < s@.len(),
            None => find_char(s@, pos as int, c) is None,
        }),
        s@.len() <= usize::MAX,
{
    let len = s.unicode_len();
    let mut i = pos;
    while i < len
        invariant
            len == s@.len(),
            pos <= i <= len,
            find_char(s@, pos as int, c) == find_char(s@, i as int, c),
        decreases len - i,
    {
        if s.get_char(i) == c {
            return Some(i);
        }
        i += 1;
    }
    None
}

// ---------------------------------------------------------------------------
// Lemmas about digit runs and digit values
// ---------------------------------------------------------------------------
/// Everything between `i` and the end of the digit run is a digit.
pub proof fn lemma_digits_end_range(s: Seq<char>, i: int)
    requires
        0 <= i <= s.len(),
    ensures
        i <= digits_end(s, i) <= s.len(),
        forall|j: int| i <= j < digits_end(s, i) ==> is_digit(s[j]),
    decreases s.len() - i,
{
    if i < s.len() && is_digit(s[i]) {
        lemma_digits_end_range(s, i + 1);
    }
}

/// The value of a digit sequence is non-negative.
pub proof fn lemma_digits_val_nonneg(t: Seq<char>)
    requires
        forall|j: int| 0 <= j < t.len() ==> is_digit(t[j]),
    ensures
        digits_val(t) >= 0,
    decreases t.len(),
{
    if t.len() > 0 {
        lemma_digits_val_nonneg(t.drop_last());
    }
}

/// Extending a digit sequence can only grow its value.
pub proof fn lemma_digits_val_prefix(t: Seq<char>, k: int)
    requires
        forall|j: int| 0 <= j < t.len() ==> is_digit(t[j]),
        0 <= k <= t.len(),
    ensures
        digits_val(t) >= digits_val(t.subrange(0, k)),
    decreases t.len() - k,
{
    if k < t.len() {
        assert(t.subrange(0, k + 1).drop_last() =~= t.subrange(0, k));
        lemma_digits_val_nonneg(t.subrange(0, k));
        lemma_digits_val_prefix(t, k + 1);
    } else {
        assert(t.subrange(0, t.len() as int) =~= t);
    }
}

/// A run holding two dots is not a float lexeme.
pub(crate) proof fn lemma_not_wf_two_dots(s: Seq<char>, k1: int, k2: int)
    requires
        0 <= k1 < k2 < crate::values::float_tail(s).len(),
        crate::values::float_tail(s)[k1] == '.',
        crate::values::float_tail(s)[k2] == '.',
    ensures
        !wf_float_chars(s),
{
    let t = crate::values::float_tail(s);
    if wf_float_chars(s) {
        let w = choose|i: int|
            0 <= i < t.len() && t[i] == '.' && (forall|j: int|
                0 <= j < t.len() && j != i ==> is_digit(t[j]));
        if w != k1 {
            assert(is_digit(t[k1]));
        } else {
            assert(is_digit(t[k2]));
        }
    }
}

/// A run holding a character that is neither a digit nor a dot is not a
/// float lexeme.
pub(crate) proof fn lemma_not_wf_bad_char(s: Seq<char>, k: int)
    requires
        0 <= k < crate::values::float_tail(s).len(),
        crate::values::float_tail(s)[k] != '.',
        !is_digit(crate::values::float_tail(s)[k]),
    ensures
        !wf_float_chars(s),
{
    let t = crate::values::float_tail(s);
    if wf_float_chars(s) {
        let w = choose|i: int|
            0 <= i < t.len() && t[i] == '.' && (forall|j: int|
                0 <= j < t.len() && j != i ==> is_digit(t[j]));
        if w == k {
            assert(t[k] == '.');
        } else {
            assert(is_digit(t[k]));
        }
    }
}

/// A run without a dot is not a float lexeme.
pub(crate) proof fn lemma_not_wf_no_dot(s: Seq<char>)
    requires
        forall|j: int|
            0 <= j < crate::values::float_tail(s).len() ==> is_digit(
                #[trigger] crate::values::float_tail(s)[j],
            ),
    ensures
        !wf_float_chars(s),
{
    let t = crate::values::float_tail(s);
    if wf_float_chars(s) {
        let w = choose|i: int|
            0 <= i < t.len() && t[i] == '.' && (forall|j: int|
                0 <= j < t.len() && j != i ==> is_digit(t[j]));
        assert(is_digit(t[w]));
    }
}

// ---------------------------------------------------------------------------
// Executable code: simple alternatives
// ---------------------------------------------------------------------------
/// Quoted string alternative.
pub fn take_qstr(s: &str, pos: usize) -> (r: Option<(String, usize)>)
    requires
        pos <= s@.len(),
    ensures
        (match r {
            Some((v, e)) => sp_qstr(s@, pos as int) == Some((v@, e as int)) && pos < e <= s@.len(),
            None => sp_qstr(s@, pos as int) is None,
        }),
{
    let len = s.unicode_len();
    if pos >= len {
        return None;
    }
    if s.get_char(pos) != '"' {
        return None;
    }
    match scan_quote(s, pos + 1) {
        None => None,
        Some(e) => {
            let v = unescape_range(s, pos + 1, e);
            Some((v, e + 1))
        },
    }
}

/// Float literal alternative.
pub fn take_float(s: &str, pos: usize) -> (r: Option<(FloatLit, usize)>)
    requires
        pos <= s@.len(),
    ensures
        (match r {
            Some((f, e)) => sp_float(s@, pos as int) == Some((f.text@, e as int)) && pos < e
                <= s@.len(),
            None => sp_float(s@, pos as int) is None,
        }),
{
    let e = num_run(s, pos);
    let ghost t = s@.subrange(pos as int, e as int);
    if e == pos {
        return None;
    }
    let t_start = if s.get_char(pos) == '-' {
        pos + 1
    } else {
        pos
    };
    proof {
        assert(crate::values::float_tail(t) =~= s@.subrange(t_start as int, e as int));
    }
    if e - t_start < 2 {
        return None;
    }
    let mut dot: Option<usize> = None;
    let mut i = t_start;
    while i < e
        invariant
            t_start <= i <= e <= s@.len(),
            t_start <= pos + 1,
            pos <= t_start,
            e as int == num_run_end(s@, pos as int),
            t == s@.subrange(pos as int, e as int),
            crate::values::float_tail(t) == s@.subrange(t_start as int, e as int),
            e - t_start >= 2,
            (match dot {
                Some(d) => t_start <= d < i && s@[d as int] == '.' && forall|j: int|
                    t_start <= j < i && j != d ==> is_digit(s@[j]),
                None => forall|j: int| t_start <= j < i ==> is_digit(s@[j]),
            }),
        decreases e - i,
    {
        let c = s.get_char(i);
        if c == '.' {
            match dot {
                Some(d) => {
                    proof {
                        let tail = s@.subrange(t_start as int, e as int);
                        assert(tail[d - t_start] == '.');
                        assert(tail[i - t_start] == '.');
                        lemma_not_wf_two_dots(t, d - t_start, i - t_start);
                    }
                    return None;
                },
                None => {
                    dot = Some(i);
                },
            }
        } else if !digit(c) {
            proof {
                let tail = s@.subrange(t_start as int, e as int);
                assert(tail[i - t_start] == s@[i as int]);
                lemma_not_wf_bad_char(t, i - t_start);
            }
            return None;
        }
        i += 1;
    }
    match dot {
        Some(d) => {
            proof {
                let tail = crate::values::float_tail(t);
                assert(tail[d - t_start] == '.');
                assert forall|j: int| 0 <= j < tail.len() && j != d - t_start implies is_digit(
                    tail[j],
                ) by {
                    assert(tail[j] == s@[t_start + j]);
                }
                assert(wf_float_chars(t));
            }
            let text = s.substring_char(pos, e).to_owned();
            Some((FloatLit { text }, e))
        },
        None => {
            proof {
                let tail = crate::values::float_tail(t);
                assert forall|j: int| 0 <= j < tail.len() implies is_digit(#[trigger] tail[j]) by {
                    assert(tail[j] == s@[t_start + j]);
                }
                lemma_not_wf_no_dot(t);
            }
            None
        },
    }
}

/// Integer literal alternative.
pub fn take_int(s: &str, pos: usize) -> (r: Option<(i64, usize)>)
    requires
        pos <= s@.len(),
    ensures
        (match r {
            Some((n, e)) => sp_int(s@, pos as int) == Some((n, e as int)) && pos < e <= s@.len(),
            None => sp_int(s@, pos as int) is None,
        }),
{
    let len = s.unicode_len();
    if pos >= len {
        return None;
    }
    let c0 = s.get_char(pos);
    let neg = c0 == '-';
    let p1 = if c0 == '-' || c0 == '+' {
        pos + 1
    } else {
        pos
    };
    let e = digits_run(s, p1);
    if e == p1 {
        return None;
    }
    proof {
        lemma_digits_end_range(s@, p1 as int);
    }
    let ghost run = s@.subrange(p1 as int, e as int);
    let mut m: u64 = 0;
    let mut i = p1;
    while i < e
        invariant
            p1 <= i <= e <= s@.len(),
            pos < s@.len(),
            pos <= p1 <= pos + 1,
            c0 == s@[pos as int],
            neg == (c0 == '-'),
            p1 == (if c0 == '-' || c0 == '+' {
                pos + 1
            } else {
                pos as int
            }),
            e as int == digits_end(s@, p1 as int),
            e > p1,
            run == s@.subrange(p1 as int, e as int),
            forall|j: int| p1 <= j < e ==> is_digit(s@[j]),
            m == digits_val(s@.subrange(p1 as int, i as int)),
        decreases e - i,
    {
        let c = s.get_char(i);
        let d: u64 = (c as u32 - '0' as u32) as u64;
        proof {
            assert(s@.subrange(p1 as int, i + 1).drop_last() =~= s@.subrange(p1 as int, i as int));
        }
        if m > (u64::MAX - d) / 10 {
            // the digits already exceed u64 range, so they exceed i64 range
            proof {
                let full = s@.subrange(p1 as int, e as int);
                let part = s@.subrange(p1 as int, i + 1);
                assert(digits_val(part) == m * 10 + d);
                assert(m * 10 + d > u64::MAX) by {
                    let q = (u64::MAX - d) / 10;
                    assert(10 * q + ((u64::MAX - d) % 10) == u64::MAX - d);
                }
                assert(part =~= full.subrange(0, i + 1 - p1));
                assert forall|j: int| 0 <= j < full.len() implies is_digit(#[trigger] full[j]) by {
                    assert(full[j] == s@[p1 + j]);
                }
                lemma_digits_val_prefix(full, i + 1 - p1);
                assert(digits_val(full) > 0x7fff_ffff_ffff_ffff);
            }
            return None;
        }
        proof {
            let q = (u64::MAX - d) / 10;
            assert(10 * q + ((u64::MAX - d) % 10) == u64::MAX - d);
            assert(m * 10 + d <= u64::MAX);
        }
        m = m * 10 + d;
        i += 1;
    }
    proof {
        assert(s@.subrange(p1 as int, e as int) =~= run);
    }
    if neg {
        if m > 0x8000_0000_0000_0000u64 {
            return None;
        }
        let n: i64 = if m == 0x8000_0000_0000_0000u64 {
            i64::MIN
        } else {
            -(m as i64)
        };
        Some((n, e))
    } else {
        if m > 0x7fff_ffff_ffff_ffffu64 {
            return None;
        }
        Some((m as i64, e))
    }
}

/// Boolean literal alternative.
pub fn take_bool(s: &str, pos: usize) -> (r: Option<(bool, usize)>)
    requires
        pos <= s@.len(),
    ensures
        (match r {
            Some((b, e)) => sp_bool(s@, pos as int) == Some((b, e as int)) && pos < e <= s@.len(),
            None => sp_bool(s@, pos as int) is None,
        }),
{
    proof {
        reveal_strlit("true");
        reveal_strlit("false");
        assert("true"@ =~= seq!['t', 'r', 'u', 'e']);
        assert("false"@ =~= seq!['f', 'a', 'l', 's', 'e']);
    }
    if lit_at(s, pos, "true") {
        Some((true, pos + 4))
    } else if lit_at(s, pos, "false") {
        Some((false, pos + 5))
    } else {
        None
    }
}

/// Constructor literal wrapping a quoted identifier.
pub fn take_quoted_id(s: &str, pos: usize, prefix: &str) -> (r: Option<(String, usize)>)
    requires
        pos <= s@.len(),
    ensures
        (match r {
            Some((id, e)) => sp_quoted_id(s@, pos as int, prefix@) == Some((id@, e as int)) && pos
                < e <= s@.len(),
            None => sp_quoted_id(s@, pos as int, prefix@) is None,
        }),
{
    proof {
        reveal_strlit("\")");
        assert("\")"@ =~= seq!['"', ')']);
    }
    if !lit_at(s, pos, prefix) {
        return None;
    }
    let p = pos + prefix.unicode_len();
    match find_char_at(s, p, '"') {
        None => None,
        Some(e) => {
            if e > p && lit_at(s, e, "\")") {
                let id = s.substring_char(p, e).to_owned();
                Some((id, e + 2))
            } else {
                None
            }
        },
    }
}

/// Numeric component of a `Vector2`, `Rect2` or `Color`: a float lexeme, or
/// an integer normalized to float form by appending `.0`.
pub fn take_component(s: &str, pos: usize) -> (r: Option<(FloatLit, usize)>)
    requires
        pos <= s@.len(),
    ensures
        (match r {
            Some((f, e)) => sp_component(s@, pos as int) == Some((f.text@, e as int)) && pos < e
                <= s@.len(),
            None => sp_component(s@, pos as int) is None,
        }),
{
    match take_float(s, pos) {
        Some(r) => Some(r),
        None => {
            match take_int(s, pos) {
                None => None,
                Some((_, e)) => {
                    let start = if s.get_char(pos) == '+' {
                        pos + 1
                    } else {
                        pos
                    };
                    let core = s.substring_char(start, e);
                    let mut text = core.to_owned();
                    text.append(".0");
                    proof {
                        reveal_strlit(".0");
                        assert(".0"@ =~= seq!['.', '0']);
                        let sp = s@.subrange(pos as int, e as int);
                        if s@[pos as int] == '+' {
                            assert(sp.drop_first() =~= s@.subrange(start as int, e as int));
                        }
                        assert(text@ == int_span_lexeme(s@, pos as int, e as int));
                    }
                    Some((FloatLit { text }, e))
                },
            }
        },
    }
}

// ---------------------------------------------------------------------------
// Executable code: composite alternatives
// ---------------------------------------------------------------------------
/// `, `-separated list of quoted strings.
pub fn take_str_list(s: &str, pos: usize) -> (r: (Vec<String>, usize))
    requires
        pos <= s@.len(),
    ensures
        ({
            let (es, e) = sp_str_list(s@, pos as int);
            r.0.deep_view() == es && r.1 as int == e && pos <= r.1 <= s@.len()
        }),
    decreases s@.len() - pos,
{
    proof {
        reveal_strlit(", ");
        assert(", "@ =~= seq![',', ' ']);
    }
    match take_qstr(s, pos) {
        None => {
            let out: Vec<String> = Vec::new();
            proof {
                assert(out.deep_view() =~= Seq::<Seq<char>>::empty());
            }
            (out, pos)
        },
        Some((v, p2)) => {
            let mut more = false;
            if lit_at(s, p2, ", ") {
                if take_qstr(s, p2 + 2).is_some() {
                    more = true;
                }
            }
            if more {
                let (mut rest, e) = take_str_list(s, p2 + 2);
                let ghost old_rest = rest.deep_view();
                rest.insert(0, v);
                proof {
                    assert(rest.deep_view() =~= seq![v@] + old_rest);
                }
                (rest, e)
            } else {
                let mut out: Vec<String> = Vec::new();
                out.push(v);
                proof {
                    assert(out.deep_view() =~= seq![v@]);
                }
                (out, p2)
            }
        },
    }
}

/// `PackedStringArray(...)`.
pub fn take_psa(s: &str, pos: usize) -> (r: Option<(GodotValue, usize)>)
    requires
        pos <= s@.len(),
    ensures
        (match r {
            Some((g, e)) => sp_psa(s@, pos as int) == Some((g@, e as int)) && pos < e <= s@.len(),
            None => sp_psa(s@, pos as int) is None,
        }),
{
    proof {
        reveal_strlit("PackedStringArray(");
        assert("PackedStringArray("@ =~= crate::values::psa_open());
        reveal_strlit(")");
        assert(")"@ =~= seq![')']);
    }
    if !lit_at(s, pos, "PackedStringArray(") {
        return None;
    }
    let (es, p1) = take_str_list(s, pos + 18);
    if lit_at(s, p1, ")") {
        Some((GodotValue::PackedStringArray(es), p1 + 1))
    } else {
        None
    }
}

/// `, `-separated list of numeric components.
pub fn take_component_list(s: &str, pos: usize) -> (r: (Vec<FloatLit>, usize))
    requires
        pos <= s@.len(),
    ensures
        ({
            let (es, e) = sp_component_list(s@, pos as int);
            r.0.deep_view() == es && r.1 as int == e && pos <= r.1 <= s@.len()
        }),
    decreases s@.len() - pos,
{
    proof {
        reveal_strlit(", ");
        assert(", "@ =~= seq![',', ' ']);
    }
    match take_component(s, pos) {
        None => {
            let out: Vec<FloatLit> = Vec::new();
            proof {
                assert(out.deep_view() =~= Seq::<Seq<char>>::empty());
            }
            (out, pos)
        },
        Some((v, p2)) => {
            let mut more = false;
            if lit_at(s, p2, ", ") {
                if take_component(s, p2 + 2).is_some() {
                    more = true;
                }
            }
            if more {
                let (mut rest, e) = take_component_list(s, p2 + 2);
                let ghost old_rest = rest.deep_view();
                rest.insert(0, v);
                proof {
                    assert(rest.deep_view() =~= seq![v.text@] + old_rest);
                }
                (rest, e)
            } else {
                let mut out: Vec<FloatLit> = Vec::new();
                out.push(v);
                proof {
                    assert(out.deep_view() =~= seq![v.text@]);
                }
                (out, p2)
            }
        },
    }
}

/// `Vector2(a, b)`.
pub fn take_vec2(s: &str, pos: usize) -> (r: Option<(GodotValue, usize)>)
    requires
        pos <= s@.len(),
    ensures
        (match r {
            Some((g, e)) => sp_vec2(s@, pos as int) == Some((g@, e as int)) && pos < e <= s@.len(),
            None => sp_vec2(s@, pos as int) is None,
        }),
{
    proof {
        reveal_strlit("Vector2(");
        assert("Vector2("@ =~= crate::values::vector2_open());
        reveal_strlit(", ");
        assert(", "@ =~= seq![',', ' ']);
        reveal_strlit(")");
        assert(")"@ =~= seq![')']);
    }
    if !lit_at(s, pos, "Vector2(") {
        return None;
    }
    match take_component(s, pos + 8) {
        None => None,
        Some((a, p1)) => {
            if !lit_at(s, p1, ", ") {
                return None;
            }
            match take_component(s, p1 + 2) {
                None => None,
                Some((b, p2)) => {
                    if lit_at(s, p2, ")") {
                        Some((GodotValue::Vector2(a, b), p2 + 1))
                    } else {
                        None
                    }
                },
            }
        },
    }
}

/// `Rect2(a, b, c, d)`.
pub fn take_rect2(s: &str, pos: usize) -> (r: Option<(GodotValue, usize)>)
    requires
        pos <= s@.len(),
    ensures
        (match r {
            Some((g, e)) => sp_rect2(s@, pos as int) == Some((g@, e as int)) && pos < e <= s@.len(),
            None => sp_rect2(s@, pos as int) is None,
        }),
{
    proof {
        reveal_strlit("Rect2(");
        assert("Rect2("@ =~= crate::values::rect2_open());
        reveal_strlit(", ");
        assert(", "@ =~= seq![',', ' ']);
        reveal_strlit(")");
        assert(")"@ =~= seq![')']);
    }
    if !lit_at(s, pos, "Rect2(") {
        return None;
    }
    match take_component(s, pos + 6) {
        None => None,
        Some((a, p1)) => {
            if !lit_at(s, p1, ", ") {
                return None;
            }
            match take_component(s, p1 + 2) {
                None => None,
                Some((b, p2)) => {
                    if !lit_at(s, p2, ", ") {
                        return None;
                    }
                    match take_component(s, p2 + 2) {
                        None => None,
                        Some((c, p3)) => {
                            if !lit_at(s, p3, ", ") {
                                return None;
                            }
                            match take_component(s, p3 + 2) {
                                None => None,
                                Some((d, p4)) => {
                                    if lit_at(s, p4, ")") {
                                        Some((GodotValue::Rect2(a, b, c, d), p4 + 1))
                                    } else {
                                        None
                                    }
                                },
                            }
                        },
                    }
                },
            }
        },
    }
}

/// The `i`-th parsed `Color` component, defaulting to `0.0`.
fn color_nth(es: &Vec<FloatLit>, i: usize) -> (r: FloatLit)
    ensures
        r.text@ == color_component(es.deep_view(), i as int),
{
    if i < es.len() {
        FloatLit { text: es[i].text.clone() }
    } else {
        let text = "0.0".to_owned();
        proof {
            reveal_strlit("0.0");
            assert("0.0"@ =~= seq!['0', '.', '0']);
        }
        FloatLit { text }
    }
}

/// `Color(...)` with the `0.0` default for missing components.
pub fn take_color(s: &str, pos: usize) -> (r: Option<(GodotValue, usize)>)
    requires
        pos <= s@.len(),
    ensures
        (match r {
            Some((g, e)) => sp_color(s@, pos as int) == Some((g@, e as int)) && pos < e <= s@.len(),
            None => sp_color(s@, pos as int) is None,
        }),
{
    proof {
        reveal_strlit("Color(");
        assert("Color("@ =~= crate::values::color_open());
        reveal_strlit(")");
        assert(")"@ =~= seq![')']);
    }
    if !lit_at(s, pos, "Color(") {
        return None;
    }
    let (es, p1) = take_component_list(s, pos + 6);
    if lit_at(s, p1, ")") {
        let a = color_nth(&es, 0);
        let b = color_nth(&es, 1);
        let c = color_nth(&es, 2);
        let d = color_nth(&es, 3);
        Some((GodotValue::Color(a, b, c, d), p1 + 1))
    } else {
        None
    }
}

// ---------------------------------------------------------------------------
// Executable code: the recursive alternatives and the dispatcher
// ---------------------------------------------------------------------------
/// `[v, v, ...]`.
pub fn take_arr(s: &str, pos: usize) -> (r: Option<(GodotValue, usize)>)
    requires
        pos <= s@.len(),
    ensures
        (match r {
            Some((g, e)) => sp_arr(s@, pos as int) == Some((g@, e as int)) && pos < e <= s@.len(),
            None => sp_arr(s@, pos as int) is None,
        }),
    decreases s@.len() - pos, 0int,
{
    let len = s.unicode_len();
    if pos >= len {
        return None;
    }
    if s.get_char(pos) != '[' {
        return None;
    }
    let (vs, p1) = take_val_list(s, pos + 1);
    proof {
        reveal_strlit("]");
        assert("]"@ =~= seq![']']);
    }
    if lit_at(s, p1, "]") {
        Some((GodotValue::Array(vs), p1 + 1))
    } else {
        None
    }
}

/// `, `-separated list of values.
pub fn take_val_list(s: &str, pos: usize) -> (r: (Vec<GodotValue>, usize))
    requires
        pos <= s@.len(),
    ensures
        ({
            let (vs, e) = sp_val_list(s@, pos as int);
            crate::values::views_of(r.0@) == vs && r.1 as int == e && pos <= r.1 <= s@.len()
        }),
    decreases s@.len() - pos, 3int,
{
    proof {
        reveal_strlit(", ");
        assert(", "@ =~= seq![',', ' ']);
    }
    match take_value(s, pos) {
        None => {
            let out: Vec<GodotValue> = Vec::new();
            proof {
                assert(crate::values::views_of(out@) =~= Seq::<Val>::empty());
            }
            (out, pos)
        },
        Some((v, p2)) => {
            let mut more = false;
            if lit_at(s, p2, ", ") {
                if take_value(s, p2 + 2).is_some() {
                    more = true;
                }
            }
            if more {
                let (mut rest, e) = take_val_list(s, p2 + 2);
                let ghost old_vec = rest@;
                let ghost gv = v@;
                rest.insert(0, v);
                proof {
                    assert(rest@.drop_first() =~= old_vec);
                    assert(crate::values::views_of(rest@) == seq![gv] + crate::values::views_of(
                        old_vec,
                    ));
                }
                (rest, e)
            } else {
                let mut out: Vec<GodotValue> = Vec::new();
                let ghost gv = v@;
                out.push(v);
                proof {
                    reveal_with_fuel(crate::values::views_of, 2);
                    assert(out@.drop_first() =~= Seq::<GodotValue>::empty());
                    assert(seq![gv] + Seq::<Val>::empty() =~= seq![gv]);
                    assert(crate::values::views_of(out@) == seq![gv]);
                }
                (out, p2)
            }
        },
    }
}

/// One `"key": value` pair of a dictionary.
pub fn take_pair(s: &str, pos: usize) -> (r: Option<(DictEntry, usize)>)
    requires
        pos <= s@.len(),
    ensures
        (match r {
            Some((p, e)) => sp_pair(s@, pos as int) == Some(((p.key@, p.value@), e as int)) && pos
                < e <= s@.len(),
            None => sp_pair(s@, pos as int) is None,
        }),
    decreases s@.len() - pos, 0int,
{
    proof {
        reveal_strlit(": ");
        assert(": "@ =~= seq![':', ' ']);
    }
    match take_qstr(s, pos) {
        None => None,
        Some((k, p2)) => {
            if !lit_at(s, p2, ": ") {
                return None;
            }
            match take_value(s, p2 + 2) {
                None => None,
                Some((v, e)) => Some((DictEntry { key: k, value: v }, e)),
            }
        },
    }
}

/// `,\n`-separated list of dictionary pairs.
#[verifier::rlimit(30)]
pub fn take_pair_list(s: &str, pos: usize) -> (r: (Vec<DictEntry>, usize))
    requires
        pos <= s@.len(),
    ensures
        ({
            let (ps, e) = sp_pair_list(s@, pos as int);
            crate::values::entries_of(r.0@) == ps && r.1 as int == e && pos <= r.1 <= s@.len()
        }),
    decreases s@.len() - pos, 3int,
{
    proof {
        reveal_strlit(",\n");
        assert(",\n"@ =~= seq![',', '\n']);
    }
    match take_pair(s, pos) {
        None => {
            let out: Vec<DictEntry> = Vec::new();
            proof {
                assert(crate::values::entries_of(out@) =~= Seq::<(Seq<char>, Val)>::empty());
            }
            (out, pos)
        },
        Some((p, p2)) => {
            let mut more = false;
            if lit_at(s, p2, ",\n") {
                if take_pair(s, p2 + 2).is_some() {
                    more = true;
                }
            }
            if more {
                let (mut rest, e) = take_pair_list(s, p2 + 2);
                let ghost old_vec = rest@;
                let ghost gp = (p.key@, p.value@);
                rest.insert(0, p);
                proof {
                    assert(rest@.drop_first() =~= old_vec);
                    assert(crate::values::entries_of(rest@) == seq![gp]
                        + crate::values::entries_of(old_vec));
                }
                (rest, e)
            } else {
                let mut out: Vec<DictEntry> = Vec::new();
                let ghost gp = (p.key@, p.value@);
                out.push(p);
                proof {
                    reveal_with_fuel(crate::values::entries_of, 2);
                    assert(out@.drop_first() =~= Seq::<DictEntry>::empty());
                    assert(seq![gp] + Seq::<(Seq<char>, Val)>::empty() =~= seq![gp]);
                    assert(crate::values::entries_of(out@) == seq![gp]);
                }
                (out, p2)
            }
        },
    }
}

/// `{`, newline, pairs, newline, `}`.
pub fn take_dict(s: &str, pos: usize) -> (r: Option<(GodotValue, usize)>)
    requires
        pos <= s@.len(),
    ensures
        (match r {
            Some((g, e)) => sp_dict(s@, pos as int) == Some((g@, e as int)) && pos < e <= s@.len(),
            None => sp_dict(s@, pos as int) is None,
        }),
    decreases s@.len() - pos, 0int,
{
    proof {
        reveal_strlit("{\n");
        assert("{\n"@ =~= seq!['{', '\n']);
        reveal_strlit("\n}");
        assert("\n}"@ =~= seq!['\n', '}']);
    }
    if !lit_at(s, pos, "{\n") {
        return None;
    }
    let (ps, p1) = take_pair_list(s, pos + 2);
    if lit_at(s, p1, "\n}") {
        Some((GodotValue::Dictionary(ps), p1 + 2))
    } else {
        None
    }
}

/// The value dispatcher: tries the alternatives in their fixed priority
/// order and returns the first match together with the position after it.
pub fn take_value(s: &str, pos: usize) -> (r: Option<(GodotValue, usize)>)
    requires
        pos <= s@.len(),
    ensures
        (match r {
            Some((g, e)) => sp_value(s@, pos as int) == Some((g@, e as int)) && pos < e <= s@.len(),
            None => sp_value(s@, pos as int) is None,
        }),
    decreases s@.len() - pos, 2int,
{
    if let Some((v, e)) = take_qstr(s, pos) {
        return Some((GodotValue::String(v), e));
    }
    if let Some((f, e)) = take_float(s, pos) {
        return Some((GodotValue::Float(f), e));
    }
    if let Some((n, e)) = take_int(s, pos) {
        return Some((GodotValue::Integer(n), e));
    }
    if let Some((b, e)) = take_bool(s, pos) {
        return Some((GodotValue::Boolean(b), e));
    }
    if let Some(r) = take_psa(s, pos) {
        return Some(r);
    }
    proof {
        reveal_strlit("NodePath(\"");
        assert("NodePath(\""@ =~= crate::values::node_path_open());
    }
    if let Some((id, e)) = take_quoted_id(s, pos, "NodePath(\"") {
        return Some((GodotValue::NodePath(id), e));
    }
    if let Some(r) = take_vec2(s, pos) {
        return Some(r);
    }
    if let Some(r) = take_rect2(s, pos) {
        return Some(r);
    }
    proof {
        reveal_strlit("ExtResource(\"");
        assert("ExtResource(\""@ =~= crate::values::ext_resource_open());
    }
    if let Some((id, e)) = take_quoted_id(s, pos, "ExtResource(\"") {
        return Some((GodotValue::ExtResourceLink(id), e));
    }
    proof {
        reveal_strlit("SubResource(\"");
        assert("SubResource(\""@ =~= crate::values::sub_resource_open());
    }
    if let Some((id, e)) = take_quoted_id(s, pos, "SubResource(\"") {
        return Some((GodotValue::SubResourceLink(id), e));
    }
    if let Some(r) = take_color(s, pos) {
        return Some(r);
    }
    if let Some(r) = take_arr(s, pos) {
        return Some(r);
    }
    take_dict(s, pos)
}

/// Parse one literal at the start of `input`.  On success the returned
/// position is the first unconsumed character; when no alternative
/// matches, the failure is a `LexicalMismatch` at the start.
pub fn parse_godot_value(input: &str) -> (r: Result<
    (GodotValue, usize),
    crate::errors::ParseError,
>)
    ensures
        (match r {
            Ok((g, e)) => sp_value(input@, 0) == Some((g@, e as int)) && 0 < e <= input@.len(),
            Err(pe) => sp_value(input@, 0) is None && pe.kind
                == crate::errors::ParseErrorKind::LexicalMismatch && pe.pos == 0,
        }),
{
    match take_value(input, 0) {
        Some((g, e)) => Ok((g, e)),
        None => Err(
            crate::errors::ParseError { kind: crate::errors::ParseErrorKind::LexicalMismatch, pos: 0 },
        ),
    }
}

} // verus!
