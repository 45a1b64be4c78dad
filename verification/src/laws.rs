//! The laws of the library: statements that relate the parsers to the
//! canonical rendering of values, and the ordering/uniqueness rules of the
//! assembler, each proved from the parsing specifications.

use crate::text::{is_digit, is_num_char};
use crate::tscn_file::TagM;
use crate::tscn_tres_parser::{sp_id_of, sp_partition, sp_read_n_tags};
use crate::value_parser::{
    digits_end, digits_val, find_char, match_lit, num_run_end, scan_qstr_end, sp_arr, sp_bool,
    sp_color, sp_component, sp_component_list, sp_dict, sp_float, sp_int, sp_pair, sp_pair_list,
    sp_psa, sp_qstr, sp_quoted_id, sp_rect2, sp_str_list, sp_val_list, sp_value, sp_vec2, unescape,
};
use crate::values::{
    color_open, dec_chars, digit_char, escape, ext_resource_open, float_tail, int_chars,
    node_path_open, psa_open, quoted, rect2_open, render, render_pair, render_pairs, render_strs,
    render_vals, sub_resource_open, vector2_open, wf_float_chars, wf_id, wf_qstr, wf_val, Val,
};
use vstd::prelude::*;

verus! {

// ---------------------------------------------------------------------------
// Small scanning lemmas
// ---------------------------------------------------------------------------
/// A literal whose first character differs does not match.
proof fn lemma_not_match(s: Seq<char>, pos: int, lit: Seq<char>)
    requires
        0 <= pos < s.len(),
        lit.len() > 0,
        s[pos] != lit[0],
    ensures
        !match_lit(s, pos, lit),
{
    if match_lit(s, pos, lit) {
        assert(s.subrange(pos, pos + lit.len() as int)[0] == s[pos]);
    }
}

/// The numeric run ends exactly where the numeric characters end.
proof fn lemma_num_run(s: Seq<char>, pos: int, e: int)
    requires
        0 <= pos <= e <= s.len(),
        forall|j: int| pos <= j < e ==> is_num_char(s[j]),
        e == s.len() || !is_num_char(s[e]),
    ensures
        num_run_end(s, pos) == e,
    decreases e - pos,
{
    if pos < e {
        lemma_num_run(s, pos + 1, e);
    }
}

/// The digit run ends exactly where the digits end.
proof fn lemma_digits_run(s: Seq<char>, pos: int, e: int)
    requires
        0 <= pos <= e <= s.len(),
        forall|j: int| pos <= j < e ==> is_digit(s[j]),
        e == s.len() || !is_digit(s[e]),
    ensures
        digits_end(s, pos) == e,
    decreases e - pos,
{
    if pos < e {
        lemma_digits_run(s, pos + 1, e);
    }
}

/// `find_char` lands on the first occurrence.
proof fn lemma_find_at(s: Seq<char>, pos: int, e: int, c: char)
    requires
        0 <= pos <= e < s.len(),
        forall|j: int| pos <= j < e ==> s[j] != c,
        s[e] == c,
    ensures
        find_char(s, pos, c) == Some(e),
    decreases e - pos,
{
    if pos < e {
        lemma_find_at(s, pos + 1, e, c);
    }
}

// ---------------------------------------------------------------------------
// Decimal digits
// ---------------------------------------------------------------------------
/// The decimal rendering of a natural number consists of digits.
proof fn lemma_dec_chars_digits(n: nat)
    ensures
        dec_chars(n).len() >= 1,
        forall|j: int| 0 <= j < dec_chars(n).len() ==> is_digit(#[trigger] dec_chars(n)[j]),
    decreases n,
{
    if n >= 10 {
        lemma_dec_chars_digits(n / 10);
    }
}

/// Parsing the decimal rendering of a natural number gives it back.
proof fn lemma_dec_chars_val(n: nat)
    ensures
        digits_val(dec_chars(n)) == n,
    decreases n,
{
    if n < 10 {
        assert(dec_chars(n).drop_last() =~= Seq::<char>::empty());
        assert(digits_val(Seq::<char>::empty()) == 0);
        assert(dec_chars(n).last() == digit_char(n));
        assert(digits_val(dec_chars(n)) == (digit_char(n) as int - '0' as int));
    } else {
        lemma_dec_chars_val(n / 10);
        assert(dec_chars(n).drop_last() =~= dec_chars(n / 10));
        assert(dec_chars(n).last() == digit_char(n % 10));
    }
}

// ---------------------------------------------------------------------------
// Quoted strings: escape, scan, unescape
// ---------------------------------------------------------------------------
/// Scanning the escaped content of a quoted literal finds the closing
/// quote just after it.
proof fn lemma_scan_escaped(s: Seq<char>, i: int, x: Seq<char>)
    requires
        wf_qstr(x),
        0 <= i,
        i + escape(x).len() < s.len(),
        s.subrange(i, i + escape(x).len() as int) == escape(x),
        s[i + escape(x).len()] == '"',
    ensures
        scan_qstr_end(s, i) == Some(i + escape(x).len() as int),
    decreases x.len(),
{
    let ex = escape(x);
    if x.len() == 0 {
        assert(scan_qstr_end(s, i) == Some(i));
    } else {
        let x2 = x.drop_first();
        assert(wf_qstr(x2));
        if x[0] == '"' {
            assert(ex == seq!['\\', '"'] + escape(x2));
            assert(s[i] == ex[0]);
            assert(s[i] == '\\');
            assert(s[i + 1] == ex[1]);
            assert(s[i + 1] == '"');
            assert(s.subrange(i + 2, i + 2 + escape(x2).len() as int) =~= escape(x2)) by {
                assert forall|j: int| 0 <= j < escape(x2).len() implies s.subrange(
                    i + 2,
                    i + 2 + escape(x2).len() as int,
                )[j] == escape(x2)[j] by {
                    assert(s.subrange(i, i + ex.len() as int)[j + 2] == s[i + 2 + j]);
                    assert(ex[j + 2] == escape(x2)[j]);
                }
            }
            lemma_scan_escaped(s, i + 2, x2);
        } else {
            assert(x[0] != '\\');
            assert(ex == seq![x[0]] + escape(x2));
            assert(s[i] == ex[0]);
            assert(s[i] == x[0]);
            assert(s.subrange(i + 1, i + 1 + escape(x2).len() as int) =~= escape(x2)) by {
                assert forall|j: int| 0 <= j < escape(x2).len() implies s.subrange(
                    i + 1,
                    i + 1 + escape(x2).len() as int,
                )[j] == escape(x2)[j] by {
                    assert(s.subrange(i, i + ex.len() as int)[j + 1] == s[i + 1 + j]);
                    assert(ex[j + 1] == escape(x2)[j]);
                }
            }
            lemma_scan_escaped(s, i + 1, x2);
        }
    }
}

/// Unescaping the escaped form gives the content back.
proof fn lemma_unescape_escape(x: Seq<char>)
    requires
        wf_qstr(x),
    ensures
        unescape(escape(x)) == x,
    decreases x.len(),
{
    let ex = escape(x);
    if x.len() == 0 {
        assert(unescape(ex) =~= x);
    } else {
        let x2 = x.drop_first();
        assert(wf_qstr(x2));
        lemma_unescape_escape(x2);
        if x[0] == '"' {
            assert(ex == seq!['\\', '"'] + escape(x2));
            assert(ex[0] == '\\' && ex[1] == '"');
            assert(ex.len() >= 2);
            assert(ex.subrange(2, ex.len() as int) =~= escape(x2));
            assert(unescape(ex) == seq!['"'] + unescape(escape(x2)));
            assert(seq!['"'] + x2 =~= x);
        } else {
            assert(ex == seq![x[0]] + escape(x2));
            assert(ex[0] == x[0]);
            assert(ex[0] != '\\');
            assert(ex.subrange(1, ex.len() as int) =~= escape(x2));
            assert(unescape(ex) == seq![ex[0]] + unescape(escape(x2)));
            assert(seq![x[0]] + x2 =~= x);
        }
    }
}

/// Parsing a quoted literal of backslash-free content yields the content.
proof fn lemma_qstr_rt(s: Seq<char>, pos: int, x: Seq<char>)
    requires
        wf_qstr(x),
        0 <= pos,
        pos + quoted(x).len() <= s.len(),
        s.subrange(pos, pos + quoted(x).len() as int) == quoted(x),
    ensures
        sp_qstr(s, pos) == Some((x, pos + quoted(x).len() as int)),
{
    let q = quoted(x);
    let ex = escape(x);
    assert(q.len() == ex.len() + 2);
    assert(s[pos] == q[0]);
    assert(s[pos] == '"');
    assert(s[pos + 1 + ex.len() as int] == q[1 + ex.len() as int]);
    assert(s[pos + 1 + ex.len() as int] == '"');
    assert(s.subrange(pos + 1, pos + 1 + ex.len() as int) =~= ex) by {
        assert forall|j: int| 0 <= j < ex.len() implies s.subrange(
            pos + 1,
            pos + 1 + ex.len() as int,
        )[j] == ex[j] by {
            assert(s.subrange(pos, pos + q.len() as int)[j + 1] == s[pos + 1 + j]);
            assert(q[j + 1] == ex[j]);
        }
    }
    lemma_scan_escaped(s, pos + 1, x);
    lemma_unescape_escape(x);
    assert(s.subrange(pos + 1, pos + 1 + ex.len() as int) == ex);
}

// ---------------------------------------------------------------------------
// Indexing into a rendered region
// ---------------------------------------------------------------------------
/// A slice of a region of `s` known to equal `r` is the matching slice of
/// `r`.
proof fn lemma_sub_at(s: Seq<char>, pos: int, r: Seq<char>, a: int, b: int)
    requires
        0 <= pos,
        pos + r.len() <= s.len(),
        s.subrange(pos, pos + r.len() as int) == r,
        0 <= a <= b <= r.len(),
    ensures
        s.subrange(pos + a, pos + b) == r.subrange(a, b),
{
    assert(s.subrange(pos + a, pos + b) =~= r.subrange(a, b)) by {
        assert forall|j: int| 0 <= j < b - a implies s.subrange(pos + a, pos + b)[j] == r.subrange(
            a,
            b,
        )[j] by {
            assert(s.subrange(pos, pos + r.len() as int)[a + j] == s[pos + a + j]);
        }
    }
}

/// One character of a rendered region.
proof fn lemma_char_at(s: Seq<char>, pos: int, r: Seq<char>, k: int)
    requires
        0 <= pos,
        pos + r.len() <= s.len(),
        s.subrange(pos, pos + r.len() as int) == r,
        0 <= k < r.len(),
    ensures
        s[pos + k] == r[k],
{
    assert(s.subrange(pos, pos + r.len() as int)[k] == s[pos + k]);
}

/// A well-formed float lexeme consists of numeric characters.
proof fn lemma_wf_float_num(t: Seq<char>)
    requires
        wf_float_chars(t),
    ensures
        t.len() >= 1,
        forall|j: int| 0 <= j < t.len() ==> is_num_char(#[trigger] t[j]),
{
    let tail = float_tail(t);
    let w = choose|i: int|
        0 <= i < tail.len() && tail[i] == '.' && (forall|j: int|
            0 <= j < tail.len() && j != i ==> is_digit(tail[j]));
    assert forall|j: int| 0 <= j < t.len() implies is_num_char(#[trigger] t[j]) by {
        if t[0] == '-' && j == 0 {
        } else {
            let k = if t[0] == '-' {
                j - 1
            } else {
                j
            };
            assert(tail[k] == t[j]);
            if k != w {
                assert(is_digit(tail[k]));
            }
        }
    }
}

// ---------------------------------------------------------------------------
// The earlier alternatives fail on non-string, non-numeric renderings
// ---------------------------------------------------------------------------
/// At a position holding a character that opens no string, number or
/// boolean, the first four alternatives fail.
proof fn lemma_simple_alts_fail(s: Seq<char>, pos: int)
    requires
        0 <= pos < s.len(),
        s[pos] != '"',
        !is_num_char(s[pos]),
        s[pos] != '+',
        s[pos] != 't',
        s[pos] != 'f',
    ensures
        sp_qstr(s, pos) is None,
        sp_float(s, pos) is None,
        sp_int(s, pos) is None,
        sp_bool(s, pos) is None,
{
    assert(num_run_end(s, pos) == pos);
    assert(digits_end(s, pos) == pos);
    lemma_not_match(s, pos, seq!['t', 'r', 'u', 'e']);
    lemma_not_match(s, pos, seq!['f', 'a', 'l', 's', 'e']);
}

/// The constructor alternatives fail at a position whose character opens
/// none of their prefixes.
proof fn lemma_ctor_alts_fail(s: Seq<char>, pos: int)
    requires
        0 <= pos < s.len(),
    ensures
        s[pos] != 'P' ==> sp_psa(s, pos) is None,
        s[pos] != 'N' ==> sp_quoted_id(s, pos, node_path_open()) is None,
        s[pos] != 'V' ==> sp_vec2(s, pos) is None,
        s[pos] != 'R' ==> sp_rect2(s, pos) is None,
        s[pos] != 'E' ==> sp_quoted_id(s, pos, ext_resource_open()) is None,
        s[pos] != 'S' ==> sp_quoted_id(s, pos, sub_resource_open()) is None,
        s[pos] != 'C' ==> sp_color(s, pos) is None,
        s[pos] != '[' ==> sp_arr(s, pos) is None,
        s[pos] != '{' ==> sp_dict(s, pos) is None,
{
    if s[pos] != 'P' {
        lemma_not_match(s, pos, psa_open());
    }
    if s[pos] != 'N' {
        lemma_not_match(s, pos, node_path_open());
    }
    if s[pos] != 'V' {
        lemma_not_match(s, pos, vector2_open());
    }
    if s[pos] != 'R' {
        lemma_not_match(s, pos, rect2_open());
    }
    if s[pos] != 'E' {
        lemma_not_match(s, pos, ext_resource_open());
    }
    if s[pos] != 'S' {
        lemma_not_match(s, pos, sub_resource_open());
    }
    if s[pos] != 'C' {
        lemma_not_match(s, pos, color_open());
    }
    if s[pos] != '{' {
        lemma_not_match(s, pos, seq!['{', '\n']);
    }
}

// ---------------------------------------------------------------------------
// Round trip of the simple alternatives
// ---------------------------------------------------------------------------
/// Parsing the rendering of an integer yields it back.
proof fn lemma_int_rt(s: Seq<char>, pos: int, i: i64)
    requires
        0 <= pos,
        pos + int_chars(i as int).len() <= s.len(),
        s.subrange(pos, pos + int_chars(i as int).len() as int) == int_chars(i as int),
        pos + int_chars(i as int).len() == s.len() || !is_num_char(
            s[pos + int_chars(i as int).len()],
        ),
    ensures
        sp_qstr(s, pos) is None,
        sp_float(s, pos) is None,
        sp_int(s, pos) == Some((i, pos + int_chars(i as int).len() as int)),
{
    let r = int_chars(i as int);
    let n = r.len() as int;
    if i >= 0 {
        lemma_dec_chars_digits(i as nat);
        lemma_dec_chars_val(i as nat);
        lemma_char_at(s, pos, r, 0);
        assert(is_digit(s[pos]));
        assert forall|j: int| pos <= j < pos + n implies is_num_char(s[j]) by {
            lemma_char_at(s, pos, r, j - pos);
        }
        lemma_num_run(s, pos, pos + n);
        assert(s.subrange(pos, pos + n) == r);
        assert(float_tail(r) == r);
        crate::value_parser::lemma_not_wf_no_dot(r);
        assert forall|j: int| pos <= j < pos + n implies is_digit(s[j]) by {
            lemma_char_at(s, pos, r, j - pos);
        }
        lemma_digits_run(s, pos, pos + n);
        assert(digits_val(s.subrange(pos, pos + n)) == i);
    } else {
        let m = (-(i as int)) as nat;
        lemma_dec_chars_digits(m);
        lemma_dec_chars_val(m);
        lemma_char_at(s, pos, r, 0);
        assert(s[pos] == '-');
        assert forall|j: int| pos <= j < pos + n implies is_num_char(s[j]) by {
            lemma_char_at(s, pos, r, j - pos);
            if j > pos {
                assert(r[j - pos] == dec_chars(m)[j - pos - 1]);
            }
        }
        lemma_num_run(s, pos, pos + n);
        lemma_sub_at(s, pos, r, 1, n);
        assert(r.subrange(1, n) =~= dec_chars(m));
        assert(float_tail(s.subrange(pos, pos + n)) == s.subrange(pos + 1, pos + n)) by {
            assert(s.subrange(pos, pos + n) == r);
            assert(r.subrange(1, n) == float_tail(r));
        }
        crate::value_parser::lemma_not_wf_no_dot(s.subrange(pos, pos + n));
        assert forall|j: int| pos + 1 <= j < pos + n implies is_digit(s[j]) by {
            lemma_char_at(s, pos, r, j - pos);
            assert(r[j - pos] == dec_chars(m)[j - pos - 1]);
        }
        lemma_digits_run(s, pos + 1, pos + n);
        assert(digits_val(s.subrange(pos + 1, pos + n)) == m);
    }
}

/// Parsing the rendering of a float lexeme yields it back.
proof fn lemma_float_rt(s: Seq<char>, pos: int, t: Seq<char>)
    requires
        wf_float_chars(t),
        0 <= pos,
        pos + t.len() <= s.len(),
        s.subrange(pos, pos + t.len() as int) == t,
        pos + t.len() == s.len() || !is_num_char(s[pos + t.len()]),
    ensures
        sp_qstr(s, pos) is None,
        sp_float(s, pos) == Some((t, pos + t.len() as int)),
{
    lemma_wf_float_num(t);
    lemma_char_at(s, pos, t, 0);
    assert forall|j: int| pos <= j < pos + t.len() implies is_num_char(s[j]) by {
        lemma_char_at(s, pos, t, j - pos);
    }
    lemma_num_run(s, pos, pos + t.len() as int);
    assert(s.subrange(pos, pos + t.len() as int) == t);
}

/// Parsing the rendering of a quoted-identifier constructor yields the
/// identifier back.
proof fn lemma_quoted_id_rt(s: Seq<char>, pos: int, prefix: Seq<char>, id: Seq<char>)
    requires
        wf_id(id),
        0 <= pos,
        pos + prefix.len() + id.len() + 2 <= s.len(),
        s.subrange(pos, pos + prefix.len() + id.len() + 2) == prefix + id + seq!['"', ')'],
    ensures
        sp_quoted_id(s, pos, prefix) == Some(
            (id, pos + prefix.len() + id.len() + 2),
        ),
{
    let r = prefix + id + seq!['"', ')'];
    let pn = prefix.len() as int;
    let idn = id.len() as int;
    lemma_sub_at(s, pos, r, 0, pn);
    assert(r.subrange(0, pn) =~= prefix);
    let p = pos + pn;
    assert forall|j: int| p <= j < p + idn implies s[j] != '"' by {
        lemma_char_at(s, pos, r, j - pos);
        assert(r[j - pos] == id[j - p]);
    }
    lemma_char_at(s, pos, r, pn + idn);
    assert(s[p + idn] == '"');
    lemma_find_at(s, p, p + idn, '"');
    lemma_sub_at(s, pos, r, pn + idn, pn + idn + 2);
    assert(r.subrange(pn + idn, pn + idn + 2) =~= seq!['"', ')']);
    lemma_sub_at(s, pos, r, pn, pn + idn);
    assert(r.subrange(pn, pn + idn) =~= id);
}

// ---------------------------------------------------------------------------
// Round trip of the lists
// ---------------------------------------------------------------------------
/// Parsing the rendering of a `PackedStringArray` element list yields the
/// elements back; the closing `)` stops the list.
proof fn lemma_str_list_rt(s: Seq<char>, pos: int, es: Seq<Seq<char>>)
    requires
        forall|i: int| 0 <= i < es.len() ==> wf_qstr(#[trigger] es[i]),
        0 <= pos,
        pos + render_strs(es).len() < s.len(),
        s.subrange(pos, pos + render_strs(es).len() as int) == render_strs(es),
        s[pos + render_strs(es).len()] == ')',
    ensures
        sp_str_list(s, pos) == (es, pos + render_strs(es).len() as int),
    decreases es.len(),
{
    let r = render_strs(es);
    let n = r.len() as int;
    if es.len() == 0 {
        assert(s[pos] == ')');
    } else {
        let q = quoted(es[0]);
        let qn = q.len() as int;
        if es.len() == 1 {
            assert(r == q);
            lemma_qstr_rt(s, pos, es[0]);
            let p2 = pos + qn;
            lemma_not_match(s, p2, seq![',', ' ']);
            assert(seq![es[0]] =~= es);
        } else {
            let rest = es.drop_first();
            assert(r == q + seq![',', ' '] + render_strs(rest));
            lemma_sub_at(s, pos, r, 0, qn);
            assert(r.subrange(0, qn) =~= q);
            lemma_qstr_rt(s, pos, es[0]);
            let p2 = pos + qn;
            lemma_sub_at(s, pos, r, qn, qn + 2);
            assert(r.subrange(qn, qn + 2) =~= seq![',', ' ']);
            assert(match_lit(s, p2, seq![',', ' ']));
            lemma_sub_at(s, pos, r, qn + 2, n);
            assert(r.subrange(qn + 2, n) =~= render_strs(rest));
            lemma_str_list_rt(s, p2 + 2, rest);
            assert(sp_qstr(s, p2 + 2) is Some);
            assert(seq![es[0]] + rest =~= es);
        }
    }
}

/// The characters joined by `, `: the rendering of a component list.
spec fn comp_join(es: Seq<Seq<char>>) -> Seq<char>
    decreases es.len(),
{
    if es.len() == 0 {
        Seq::empty()
    } else if es.len() == 1 {
        es[0]
    } else {
        es[0] + seq![',', ' '] + comp_join(es.drop_first())
    }
}

/// Parsing the rendering of a numeric component yields its lexeme back.
proof fn lemma_component_rt(s: Seq<char>, pos: int, a: Seq<char>)
    requires
        wf_float_chars(a),
        0 <= pos,
        pos + a.len() <= s.len(),
        s.subrange(pos, pos + a.len() as int) == a,
        pos + a.len() == s.len() || !is_num_char(s[pos + a.len()]),
    ensures
        sp_component(s, pos) == Some((a, pos + a.len() as int)),
{
    lemma_float_rt(s, pos, a);
}

/// Parsing a rendered component list yields the lexemes back; the closing
/// `)` stops the list.
proof fn lemma_component_list_rt(s: Seq<char>, pos: int, es: Seq<Seq<char>>)
    requires
        forall|i: int| 0 <= i < es.len() ==> wf_float_chars(#[trigger] es[i]),
        0 <= pos,
        pos + comp_join(es).len() < s.len(),
        s.subrange(pos, pos + comp_join(es).len() as int) == comp_join(es),
        s[pos + comp_join(es).len()] == ')',
    ensures
        sp_component_list(s, pos) == (es, pos + comp_join(es).len() as int),
    decreases es.len(),
{
    let r = comp_join(es);
    let n = r.len() as int;
    if es.len() == 0 {
        assert(s[pos] == ')');
        assert(num_run_end(s, pos) == pos);
        assert(digits_end(s, pos) == pos);
    } else {
        let a = es[0];
        let an = a.len() as int;
        if es.len() == 1 {
            assert(r == a);
            lemma_component_rt(s, pos, a);
            let p2 = pos + an;
            lemma_not_match(s, p2, seq![',', ' ']);
            assert(seq![es[0]] =~= es);
        } else {
            let rest = es.drop_first();
            assert(r == a + seq![',', ' '] + comp_join(rest));
            lemma_sub_at(s, pos, r, 0, an);
            assert(r.subrange(0, an) =~= a);
            lemma_char_at(s, pos, r, an);
            assert(s[pos + an] == ',');
            lemma_component_rt(s, pos, a);
            let p2 = pos + an;
            lemma_sub_at(s, pos, r, an, an + 2);
            assert(r.subrange(an, an + 2) =~= seq![',', ' ']);
            assert(match_lit(s, p2, seq![',', ' ']));
            lemma_sub_at(s, pos, r, an + 2, n);
            assert(r.subrange(an + 2, n) =~= comp_join(rest));
            lemma_component_list_rt(s, p2 + 2, rest);
            assert(sp_component(s, p2 + 2) is Some);
            assert(seq![es[0]] + rest =~= es);
        }
    }
}

// ---------------------------------------------------------------------------
// The round-trip law
// ---------------------------------------------------------------------------
/// The shared premises of the per-variant round-trip lemmas: the
/// rendering of `v` stands at `pos` of `s`, and no numeric character
/// follows it.
pub open spec fn rt_at(s: Seq<char>, pos: int, v: Val) -> bool {
    &&& wf_val(v)
    &&& 0 <= pos
    &&& pos + render(v).len() <= s.len()
    &&& s.subrange(pos, pos + render(v).len() as int) == render(v)
    &&& (pos + render(v).len() == s.len() || !is_num_char(s[pos + render(v).len()]))
}

/// Parsing the canonical rendering of a well-formed value, embedded in a
/// larger input with no numeric character right after it, yields exactly
/// the value and stops exactly after the rendering.
#[verifier::rlimit(60)]
#[verifier::spinoff_prover]
pub proof fn lemma_value_round_trip_at(s: Seq<char>, pos: int, v: Val)
    requires
        rt_at(s, pos, v),
    ensures
        sp_value(s, pos) == Some((v, pos + render(v).len() as int)),
    decreases v, 2int,
{
    let r = render(v);
    let n = r.len() as int;
    match v {
        Val::VStr(x) => {
            lemma_qstr_rt(s, pos, x);
        },
        Val::VInt(i) => {
            lemma_int_rt(s, pos, i);
        },
        Val::VFloat(t) => {
            lemma_float_rt(s, pos, t);
        },
        Val::VBool(b) => {
            lemma_char_at(s, pos, r, 0);
            if b {
                assert(s[pos] == 't');
                assert(num_run_end(s, pos) == pos);
                assert(digits_end(s, pos) == pos);
                assert(s.subrange(pos, pos + 4) == r);
                assert(match_lit(s, pos, seq!['t', 'r', 'u', 'e']));
            } else {
                assert(s[pos] == 'f');
                assert(num_run_end(s, pos) == pos);
                assert(digits_end(s, pos) == pos);
                lemma_not_match(s, pos, seq!['t', 'r', 'u', 'e']);
                assert(s.subrange(pos, pos + 5) == r);
                assert(match_lit(s, pos, seq!['f', 'a', 'l', 's', 'e']));
            }
        },
        Val::VPsa(es) => {
            lemma_rt_case_psa(s, pos, v);
        },
        Val::VNodePath(id) => {
            lemma_char_at(s, pos, r, 0);
            assert(s[pos] == 'N');
            lemma_simple_alts_fail(s, pos);
            lemma_ctor_alts_fail(s, pos);
            assert(r == node_path_open() + id + seq!['"', ')']);
            lemma_quoted_id_rt(s, pos, node_path_open(), id);
        },
        Val::VVec2(a, b) => {
            lemma_rt_case_vec2(s, pos, v);
        },
        Val::VRect2(a, b, c, d) => {
            lemma_rt_case_rect2(s, pos, v);
        },
        Val::VExtRes(id) => {
            lemma_char_at(s, pos, r, 0);
            assert(s[pos] == 'E');
            lemma_simple_alts_fail(s, pos);
            lemma_ctor_alts_fail(s, pos);
            assert(r == ext_resource_open() + id + seq!['"', ')']);
            lemma_quoted_id_rt(s, pos, ext_resource_open(), id);
        },
        Val::VSubRes(id) => {
            lemma_char_at(s, pos, r, 0);
            assert(s[pos] == 'S');
            lemma_simple_alts_fail(s, pos);
            lemma_ctor_alts_fail(s, pos);
            assert(r == sub_resource_open() + id + seq!['"', ')']);
            lemma_quoted_id_rt(s, pos, sub_resource_open(), id);
        },
        Val::VColor(a, b, c, d) => {
            lemma_rt_case_color(s, pos, v);
        },
        Val::VArr(vs) => {
            lemma_rt_case_arr(s, pos, v);
        },
        Val::VDict(ps) => {
            lemma_rt_case_dict(s, pos, v);
        },
    }
}

/// The `PackedStringArray` case.
#[verifier::rlimit(60)]
#[verifier::spinoff_prover]
proof fn lemma_rt_case_psa(s: Seq<char>, pos: int, v: Val)
    requires
        rt_at(s, pos, v),
        v is VPsa,
    ensures
        sp_value(s, pos) == Some((v, pos + render(v).len() as int)),
    decreases v, 0int,
{
    let r = render(v);
    let n = r.len() as int;
    let es = v->VPsa_0;
    lemma_char_at(s, pos, r, 0);
    assert(s[pos] == 'P');
    lemma_simple_alts_fail(s, pos);
    assert(r == psa_open() + render_strs(es) + seq![')']);
    lemma_sub_at(s, pos, r, 0, 18);
    assert(r.subrange(0, 18) =~= psa_open());
    assert(match_lit(s, pos, psa_open()));
    lemma_sub_at(s, pos, r, 18, n - 1);
    assert(r.subrange(18, n - 1) =~= render_strs(es));
    lemma_char_at(s, pos, r, n - 1);
    assert(s[pos + n - 1] == ')');
    lemma_str_list_rt(s, pos + 18, es);
    lemma_sub_at(s, pos, r, n - 1, n);
    assert(r.subrange(n - 1, n) =~= seq![')']);
    assert(match_lit(s, pos + n - 1, seq![')']));
}

/// The `Vector2` case.
#[verifier::rlimit(60)]
#[verifier::spinoff_prover]
proof fn lemma_rt_case_vec2(s: Seq<char>, pos: int, v: Val)
    requires
        rt_at(s, pos, v),
        v is VVec2,
    ensures
        sp_value(s, pos) == Some((v, pos + render(v).len() as int)),
    decreases v, 0int,
{
    let r = render(v);
    let n = r.len() as int;
    let a = v->VVec2_0;
    let b = v->VVec2_1;
    lemma_char_at(s, pos, r, 0);
    assert(s[pos] == 'V');
    lemma_simple_alts_fail(s, pos);
    lemma_ctor_alts_fail(s, pos);
    assert(r == vector2_open() + a + seq![',', ' '] + b + seq![')']);
    let an = a.len() as int;
    let bn = b.len() as int;
    lemma_sub_at(s, pos, r, 0, 8);
    assert(r.subrange(0, 8) =~= vector2_open());
    assert(match_lit(s, pos, vector2_open()));
    lemma_sub_at(s, pos, r, 8, 8 + an);
    assert(r.subrange(8, 8 + an) =~= a);
    lemma_char_at(s, pos, r, 8 + an);
    assert(s[pos + 8 + an] == ',');
    lemma_component_rt(s, pos + 8, a);
    lemma_sub_at(s, pos, r, 8 + an, 8 + an + 2);
    assert(r.subrange(8 + an, 8 + an + 2) =~= seq![',', ' ']);
    assert(match_lit(s, pos + 8 + an, seq![',', ' ']));
    lemma_sub_at(s, pos, r, 8 + an + 2, 8 + an + 2 + bn);
    assert(r.subrange(8 + an + 2, 8 + an + 2 + bn) =~= b);
    lemma_char_at(s, pos, r, 8 + an + 2 + bn);
    assert(s[pos + 8 + an + 2 + bn] == ')');
    lemma_component_rt(s, pos + 8 + an + 2, b);
    lemma_sub_at(s, pos, r, n - 1, n);
    assert(r.subrange(n - 1, n) =~= seq![')']);
    assert(match_lit(s, pos + 8 + an + 2 + bn, seq![')']));
}

/// The `Rect2` case.
#[verifier::rlimit(100)]
#[verifier::spinoff_prover]
proof fn lemma_rt_case_rect2(s: Seq<char>, pos: int, v: Val)
    requires
        rt_at(s, pos, v),
        v is VRect2,
    ensures
        sp_value(s, pos) == Some((v, pos + render(v).len() as int)),
    decreases v, 0int,
{
    let r = render(v);
    let n = r.len() as int;
    let a = v->VRect2_0;
    let b = v->VRect2_1;
    let c = v->VRect2_2;
    let d = v->VRect2_3;
    lemma_char_at(s, pos, r, 0);
    assert(s[pos] == 'R');
    lemma_simple_alts_fail(s, pos);
    lemma_ctor_alts_fail(s, pos);
    assert(r == rect2_open() + a + seq![',', ' '] + b + seq![',', ' '] + c + seq![',', ' '] + d
        + seq![')']);
    let an = a.len() as int;
    let bn = b.len() as int;
    let cn = c.len() as int;
    let dn = d.len() as int;
    let pa: int = 6;
    let pb = pa + an + 2;
    let pc = pb + bn + 2;
    let pd = pc + cn + 2;
    lemma_sub_at(s, pos, r, 0, 6);
    assert(r.subrange(0, 6) =~= rect2_open());
    assert(match_lit(s, pos, rect2_open()));
    lemma_sub_at(s, pos, r, pa, pa + an);
    assert(r.subrange(pa, pa + an) =~= a);
    lemma_char_at(s, pos, r, pa + an);
    lemma_component_rt(s, pos + pa, a);
    lemma_sub_at(s, pos, r, pa + an, pb);
    assert(r.subrange(pa + an, pb) =~= seq![',', ' ']);
    assert(match_lit(s, pos + pa + an, seq![',', ' ']));
    lemma_sub_at(s, pos, r, pb, pb + bn);
    assert(r.subrange(pb, pb + bn) =~= b);
    lemma_char_at(s, pos, r, pb + bn);
    lemma_component_rt(s, pos + pb, b);
    lemma_sub_at(s, pos, r, pb + bn, pc);
    assert(r.subrange(pb + bn, pc) =~= seq![',', ' ']);
    assert(match_lit(s, pos + pb + bn, seq![',', ' ']));
    lemma_sub_at(s, pos, r, pc, pc + cn);
    assert(r.subrange(pc, pc + cn) =~= c);
    lemma_char_at(s, pos, r, pc + cn);
    lemma_component_rt(s, pos + pc, c);
    lemma_sub_at(s, pos, r, pc + cn, pd);
    assert(r.subrange(pc + cn, pd) =~= seq![',', ' ']);
    assert(match_lit(s, pos + pc + cn, seq![',', ' ']));
    lemma_sub_at(s, pos, r, pd, pd + dn);
    assert(r.subrange(pd, pd + dn) =~= d);
    lemma_char_at(s, pos, r, pd + dn);
    assert(s[pos + pd + dn] == ')');
    lemma_component_rt(s, pos + pd, d);
    lemma_sub_at(s, pos, r, n - 1, n);
    assert(r.subrange(n - 1, n) =~= seq![')']);
    assert(match_lit(s, pos + pd + dn, seq![')']));
}

/// The four components joined by `, `.
proof fn lemma_comp_join4(a: Seq<char>, b: Seq<char>, c: Seq<char>, d: Seq<char>)
    ensures
        comp_join(seq![a, b, c, d]) == a + seq![',', ' '] + (b + seq![',', ' '] + (c
            + seq![',', ' '] + d)),
        comp_join(seq![a, b, c, d]).len() == a.len() + b.len() + c.len() + d.len() + 6,
{
    let es = seq![a, b, c, d];
    assert(es.drop_first() =~= seq![b, c, d]);
    assert(seq![b, c, d].drop_first() =~= seq![c, d]);
    assert(seq![c, d].drop_first() =~= seq![d]);
    assert(comp_join(seq![d]) == d);
    assert(comp_join(seq![c, d]) == c + seq![',', ' '] + d);
    assert(comp_join(seq![b, c, d]) == b + seq![',', ' '] + (c + seq![',', ' '] + d));
}

/// Parsing the rendering of a `Color` value with the `Color` alternative.
#[verifier::rlimit(100)]
#[verifier::spinoff_prover]
proof fn lemma_color_parse(s: Seq<char>, pos: int, v: Val)
    requires
        rt_at(s, pos, v),
        v is VColor,
    ensures
        sp_color(s, pos) == Some((v, pos + render(v).len() as int)),
    decreases v, 0int,
{
    let r = render(v);
    let n = r.len() as int;
    let a = v->VColor_0;
    let b = v->VColor_1;
    let c = v->VColor_2;
    let d = v->VColor_3;
    let es = seq![a, b, c, d];
    lemma_comp_join4(a, b, c, d);
    let cj = comp_join(es);
    let cn = cj.len() as int;
    assert(r =~= color_open() + cj + seq![')']);
    lemma_sub_at(s, pos, r, 0, 6);
    assert(r.subrange(0, 6) =~= color_open());
    assert(match_lit(s, pos, color_open()));
    lemma_sub_at(s, pos, r, 6, 6 + cn);
    assert(r.subrange(6, 6 + cn) =~= cj);
    lemma_char_at(s, pos, r, 6 + cn);
    assert(s[pos + 6 + cn] == ')');
    lemma_component_list_rt(s, pos + 6, es);
    lemma_sub_at(s, pos, r, n - 1, n);
    assert(r.subrange(n - 1, n) =~= seq![')']);
    assert(match_lit(s, pos + 6 + cn, seq![')']));
    assert(crate::value_parser::color_component(es, 0) == a);
    assert(crate::value_parser::color_component(es, 1) == b);
    assert(crate::value_parser::color_component(es, 2) == c);
    assert(crate::value_parser::color_component(es, 3) == d);
}

/// The `Color` case.
#[verifier::rlimit(60)]
#[verifier::spinoff_prover]
proof fn lemma_rt_case_color(s: Seq<char>, pos: int, v: Val)
    requires
        rt_at(s, pos, v),
        v is VColor,
    ensures
        sp_value(s, pos) == Some((v, pos + render(v).len() as int)),
    decreases v, 1int,
{
    let r = render(v);
    lemma_char_at(s, pos, r, 0);
    assert(s[pos] == 'C');
    lemma_simple_alts_fail(s, pos);
    lemma_ctor_alts_fail(s, pos);
    lemma_color_parse(s, pos, v);
}

/// The array case.
#[verifier::rlimit(60)]
#[verifier::spinoff_prover]
proof fn lemma_rt_case_arr(s: Seq<char>, pos: int, v: Val)
    requires
        rt_at(s, pos, v),
        v is VArr,
    ensures
        sp_value(s, pos) == Some((v, pos + render(v).len() as int)),
    decreases v, 0int,
{
    let r = render(v);
    let n = r.len() as int;
    let vs = v->VArr_0;
    lemma_char_at(s, pos, r, 0);
    assert(s[pos] == '[');
    lemma_simple_alts_fail(s, pos);
    lemma_ctor_alts_fail(s, pos);
    assert(r == seq!['['] + render_vals(vs) + seq![']']);
    lemma_sub_at(s, pos, r, 1, n - 1);
    assert(r.subrange(1, n - 1) =~= render_vals(vs));
    lemma_char_at(s, pos, r, n - 1);
    assert(s[pos + n - 1] == ']');
    lemma_val_list_rt(s, pos + 1, vs);
    lemma_sub_at(s, pos, r, n - 1, n);
    assert(r.subrange(n - 1, n) =~= seq![']']);
    assert(match_lit(s, pos + n - 1, seq![']']));
}

/// The dictionary case.
#[verifier::rlimit(60)]
#[verifier::spinoff_prover]
proof fn lemma_rt_case_dict(s: Seq<char>, pos: int, v: Val)
    requires
        rt_at(s, pos, v),
        v is VDict,
    ensures
        sp_value(s, pos) == Some((v, pos + render(v).len() as int)),
    decreases v, 0int,
{
    let r = render(v);
    let n = r.len() as int;
    let ps = v->VDict_0;
    lemma_char_at(s, pos, r, 0);
    assert(s[pos] == '{');
    lemma_simple_alts_fail(s, pos);
    lemma_ctor_alts_fail(s, pos);
    assert(r == seq!['{', '\n'] + render_pairs(ps) + seq!['\n', '}']);
    lemma_sub_at(s, pos, r, 0, 2);
    assert(r.subrange(0, 2) =~= seq!['{', '\n']);
    assert(match_lit(s, pos, seq!['{', '\n']));
    lemma_sub_at(s, pos, r, 2, n - 2);
    assert(r.subrange(2, n - 2) =~= render_pairs(ps));
    lemma_char_at(s, pos, r, n - 2);
    assert(s[pos + n - 2] == '\n');
    lemma_pair_list_rt(s, pos + 2, ps);
    lemma_sub_at(s, pos, r, n - 2, n);
    assert(r.subrange(n - 2, n) =~= seq!['\n', '}']);
    assert(match_lit(s, pos + n - 2, seq!['\n', '}']));
}

/// Parsing a rendered array element list yields the elements back; the
/// closing `]` stops the list.
#[verifier::rlimit(100)]
#[verifier::spinoff_prover]
proof fn lemma_val_list_rt(s: Seq<char>, pos: int, vs: Seq<Val>)
    requires
        forall|i: int| 0 <= i < vs.len() ==> wf_val(#[trigger] vs[i]),
        0 <= pos,
        pos + render_vals(vs).len() < s.len(),
        s.subrange(pos, pos + render_vals(vs).len() as int) == render_vals(vs),
        s[pos + render_vals(vs).len()] == ']',
    ensures
        sp_val_list(s, pos) == (vs, pos + render_vals(vs).len() as int),
    decreases vs,
{
    let r = render_vals(vs);
    let n = r.len() as int;
    if vs.len() == 0 {
        assert(s[pos] == ']');
        assert(num_run_end(s, pos) == pos);
        assert(digits_end(s, pos) == pos);
        lemma_simple_alts_fail(s, pos);
        lemma_ctor_alts_fail(s, pos);
    } else {
        let v0 = vs[0];
        let rn = render(v0).len() as int;
        if vs.len() == 1 {
            assert(r == render(v0));
            lemma_value_round_trip_at(s, pos, v0);
            let p2 = pos + rn;
            lemma_not_match(s, p2, seq![',', ' ']);
            assert(seq![vs[0]] =~= vs);
        } else {
            let rest = vs.drop_first();
            assert(r == render(v0) + seq![',', ' '] + render_vals(rest));
            lemma_sub_at(s, pos, r, 0, rn);
            assert(r.subrange(0, rn) =~= render(v0));
            lemma_char_at(s, pos, r, rn);
            assert(s[pos + rn] == ',');
            lemma_value_round_trip_at(s, pos, v0);
            let p2 = pos + rn;
            lemma_sub_at(s, pos, r, rn, rn + 2);
            assert(r.subrange(rn, rn + 2) =~= seq![',', ' ']);
            assert(match_lit(s, p2, seq![',', ' ']));
            lemma_sub_at(s, pos, r, rn + 2, n);
            assert(r.subrange(rn + 2, n) =~= render_vals(rest));
            lemma_val_list_rt(s, p2 + 2, rest);
            assert(sp_value(s, p2 + 2) is Some);
            assert(seq![vs[0]] + rest =~= vs);
        }
    }
}

/// Parsing a rendered dictionary pair list yields the pairs back; the
/// closing newline stops the list.
#[verifier::rlimit(60)]
#[verifier::spinoff_prover]
proof fn lemma_pair_list_rt(s: Seq<char>, pos: int, ps: Seq<(Seq<char>, Val)>)
    requires
        forall|i: int|
            0 <= i < ps.len() ==> wf_qstr(#[trigger] ps[i].0) && wf_val(ps[i].1),
        0 <= pos,
        pos + render_pairs(ps).len() < s.len(),
        s.subrange(pos, pos + render_pairs(ps).len() as int) == render_pairs(ps),
        s[pos + render_pairs(ps).len()] == '\n',
    ensures
        sp_pair_list(s, pos) == (ps, pos + render_pairs(ps).len() as int),
    decreases ps,
{
    let r = render_pairs(ps);
    let n = r.len() as int;
    if ps.len() == 0 {
        assert(s[pos] == '\n');
        assert(sp_qstr(s, pos) is None);
    } else {
        let p0 = ps[0];
        let rn = render_pair(p0).len() as int;
        if ps.len() == 1 {
            assert(r == render_pair(p0));
            lemma_pair_rt(s, pos, p0, rn);
            let p2 = pos + rn;
            lemma_not_match(s, p2, seq![',', '\n']);
            assert(seq![ps[0]] =~= ps);
        } else {
            let rest = ps.drop_first();
            assert(r == render_pair(p0) + seq![',', '\n'] + render_pairs(rest));
            lemma_sub_at(s, pos, r, 0, rn);
            assert(r.subrange(0, rn) =~= render_pair(p0));
            lemma_char_at(s, pos, r, rn);
            assert(s[pos + rn] == ',');
            lemma_pair_rt(s, pos, p0, rn);
            let p2 = pos + rn;
            lemma_sub_at(s, pos, r, rn, rn + 2);
            assert(r.subrange(rn, rn + 2) =~= seq![',', '\n']);
            assert(match_lit(s, p2, seq![',', '\n']));
            lemma_sub_at(s, pos, r, rn + 2, n);
            assert(r.subrange(rn + 2, n) =~= render_pairs(rest));
            lemma_pair_list_rt(s, p2 + 2, rest);
            assert(sp_pair(s, p2 + 2) is Some);
            assert(seq![ps[0]] + rest =~= ps);
        }
    }
}

/// Parsing one rendered `"key": value` pair yields it back.  The
/// character after the pair must not be numeric (in a dictionary it is
/// `,` or a newline).
proof fn lemma_pair_rt(s: Seq<char>, pos: int, p: (Seq<char>, Val), rn: int)
    requires
        wf_qstr(p.0),
        wf_val(p.1),
        rn == render_pair(p).len() as int,
        0 <= pos,
        pos + rn < s.len(),
        s.subrange(pos, pos + rn) == render_pair(p),
        !is_num_char(s[pos + rn]),
    ensures
        sp_pair(s, pos) == Some((p, pos + rn)),
    decreases p,
{
    let r = render_pair(p);
    let qn = quoted(p.0).len() as int;
    let vn = render(p.1).len() as int;
    assert(r == quoted(p.0) + seq![':', ' '] + render(p.1));
    lemma_sub_at(s, pos, r, 0, qn);
    assert(r.subrange(0, qn) =~= quoted(p.0));
    lemma_qstr_rt(s, pos, p.0);
    let p2 = pos + qn;
    lemma_sub_at(s, pos, r, qn, qn + 2);
    assert(r.subrange(qn, qn + 2) =~= seq![':', ' ']);
    assert(match_lit(s, p2, seq![':', ' ']));
    lemma_sub_at(s, pos, r, qn + 2, rn);
    assert(r.subrange(qn + 2, rn) =~= render(p.1));
    lemma_value_round_trip_at(s, p2 + 2, p.1);
}

/// The round-trip law: parsing the canonical rendering of a well-formed
/// value yields exactly the value and consumes the whole rendering.
pub proof fn lemma_value_round_trip(v: Val)
    requires
        wf_val(v),
    ensures
        sp_value(render(v), 0) == Some((v, render(v).len() as int)),
{
    let r = render(v);
    assert(r.subrange(0, r.len() as int) =~= r);
    lemma_value_round_trip_at(r, 0, v);
}

// ---------------------------------------------------------------------------
// Determinism
// ---------------------------------------------------------------------------
/// Parsing is deterministic: every parse outcome is a function of the
/// input characters alone, so two results for one input are equal.  (Each
/// executable parser's contract equates its result with the corresponding
/// `sp_*` function of the input.)
pub proof fn lemma_parsing_deterministic(
    s: Seq<char>,
    r1: Option<(Val, int)>,
    r2: Option<(Val, int)>,
)
    requires
        r1 == sp_value(s, 0),
        r2 == sp_value(s, 0),
    ensures
        r1 == r2,
{
}

// ---------------------------------------------------------------------------
// Numeric normalization is total
// ---------------------------------------------------------------------------
/// Every numeric component a `Vector2`, `Rect2` or `Color` parse accepts
/// is a well-formed float lexeme: integral components are coerced, there
/// is no integer component in the result.
pub proof fn lemma_component_always_float(s: Seq<char>, pos: int)
    requires
        sp_component(s, pos) is Some,
    ensures
        wf_float_chars(sp_component(s, pos)->Some_0.0),
{
    if sp_float(s, pos) is Some {
    } else {
        let (_, e) = sp_int(s, pos)->Some_0;
        let p1 = if s[pos] == '-' || s[pos] == '+' {
            pos + 1
        } else {
            pos
        };
        crate::value_parser::lemma_digits_end_range(s, p1);
        let t = crate::value_parser::int_span_lexeme(s, pos, e);
        let sp = s.subrange(pos, e);
        let digits = s.subrange(p1, e);
        let dn = digits.len() as int;
        assert forall|j: int| 0 <= j < dn implies is_digit(digits[j]) by {
            assert(digits[j] == s[p1 + j]);
        }
        if s[pos] == '-' {
            assert(sp[0] == '-');
            assert(t == sp + seq!['.', '0']);
            assert(float_tail(t) =~= digits + seq!['.', '0']);
        } else if s[pos] == '+' {
            assert(sp[0] == '+');
            assert(sp.drop_first() =~= digits);
            assert(t == sp.drop_first() + seq!['.', '0']);
            assert(float_tail(t) =~= digits + seq!['.', '0']);
        } else {
            assert(sp =~= digits);
            assert(t == sp + seq!['.', '0']);
            assert(is_digit(t[0]));
            assert(float_tail(t) =~= digits + seq!['.', '0']);
        }
        let tail = float_tail(t);
        assert(tail[dn] == '.');
        assert(forall|j: int| 0 <= j < tail.len() && j != dn ==> is_digit(tail[j]));
        assert(wf_float_chars(t));
    }
}

// ---------------------------------------------------------------------------
// Every parsed value is well-formed
// ---------------------------------------------------------------------------
/// Unescaping a region the quote scanner accepted never leaves a
/// backslash behind.
proof fn lemma_scan_region_wf(s: Seq<char>, i: int, e: int)
    requires
        scan_qstr_end(s, i) == Some(e),
    ensures
        i <= e < s.len(),
        wf_qstr(unescape(s.subrange(i, e))),
    decreases s.len() - i,
{
    let t = s.subrange(i, e);
    if i >= s.len() {
    } else if s[i] == '"' {
        assert(t =~= Seq::<char>::empty());
    } else if s[i] == '\\' {
        lemma_scan_region_wf(s, i + 2, e);
        assert(t.subrange(2, t.len() as int) =~= s.subrange(i + 2, e));
        assert(unescape(t) == seq!['"'] + unescape(s.subrange(i + 2, e)));
    } else {
        lemma_scan_region_wf(s, i + 1, e);
        assert(t.subrange(1, t.len() as int) =~= s.subrange(i + 1, e));
        assert(unescape(t) == seq![t[0]] + unescape(s.subrange(i + 1, e)));
    }
}

/// A successful string parse yields backslash-free content.
proof fn lemma_qstr_wf(s: Seq<char>, pos: int)
    requires
        sp_qstr(s, pos) is Some,
    ensures
        wf_qstr(sp_qstr(s, pos)->Some_0.0),
{
    let e = scan_qstr_end(s, pos + 1)->Some_0;
    lemma_scan_region_wf(s, pos + 1, e);
}

/// Everything before the position `find_char` returns differs from the
/// sought character.
proof fn lemma_find_first(s: Seq<char>, i: int, c: char)
    requires
        find_char(s, i, c) is Some,
    ensures
        forall|j: int| i <= j < find_char(s, i, c)->Some_0 ==> s[j] != c,
    decreases s.len() - i,
{
    if 0 <= i < s.len() && s[i] != c {
        lemma_find_first(s, i + 1, c);
    }
}

/// A successful quoted-identifier parse yields a valid identifier.
proof fn lemma_quoted_id_wf(s: Seq<char>, pos: int, prefix: Seq<char>)
    requires
        sp_quoted_id(s, pos, prefix) is Some,
    ensures
        wf_id(sp_quoted_id(s, pos, prefix)->Some_0.0),
{
    let p = pos + prefix.len() as int;
    let e = find_char(s, p, '"')->Some_0;
    lemma_find_first(s, p, '"');
    let id = s.subrange(p, e);
    assert forall|j: int| 0 <= j < id.len() implies id[j] != '"' by {
        assert(id[j] == s[p + j]);
    }
}

/// Every element of a parsed string list is backslash-free.
proof fn lemma_str_list_wf(s: Seq<char>, pos: int)
    ensures
        ({
            let (es, _) = sp_str_list(s, pos);
            forall|i: int| 0 <= i < es.len() ==> wf_qstr(#[trigger] es[i])
        }),
    decreases s.len() - pos,
{
    let (es, _) = sp_str_list(s, pos);
    if sp_qstr(s, pos) is Some {
        lemma_qstr_wf(s, pos);
        let (v, p2) = sp_qstr(s, pos)->Some_0;
        if p2 > pos && match_lit(s, p2, seq![',', ' ']) && sp_qstr(s, p2 + 2) is Some {
            lemma_str_list_wf(s, p2 + 2);
            let (rest, _) = sp_str_list(s, p2 + 2);
            assert forall|i: int| 0 <= i < es.len() implies wf_qstr(#[trigger] es[i]) by {
                if i > 0 {
                    assert(es[i] == rest[i - 1]);
                }
            }
        }
    }
}

/// Every element of a parsed component list is a float lexeme.
proof fn lemma_component_list_wf(s: Seq<char>, pos: int)
    ensures
        ({
            let (es, _) = sp_component_list(s, pos);
            forall|i: int| 0 <= i < es.len() ==> wf_float_chars(#[trigger] es[i])
        }),
    decreases s.len() - pos,
{
    let (es, _) = sp_component_list(s, pos);
    if sp_component(s, pos) is Some {
        lemma_component_always_float(s, pos);
        let (v, p2) = sp_component(s, pos)->Some_0;
        if p2 > pos && match_lit(s, p2, seq![',', ' ']) && sp_component(s, p2 + 2) is Some {
            lemma_component_list_wf(s, p2 + 2);
            let (rest, _) = sp_component_list(s, p2 + 2);
            assert forall|i: int| 0 <= i < es.len() implies wf_float_chars(#[trigger] es[i]) by {
                if i > 0 {
                    assert(es[i] == rest[i - 1]);
                }
            }
        }
    }
}

/// The `0.0` default is a float lexeme, so every `Color` component is.
proof fn lemma_color_component_wf(es: Seq<Seq<char>>, i: int)
    requires
        forall|j: int| 0 <= j < es.len() ==> wf_float_chars(#[trigger] es[j]),
    ensures
        wf_float_chars(crate::value_parser::color_component(es, i)),
{
    if !(0 <= i < es.len()) {
        let z = seq!['0', '.', '0'];
        assert(float_tail(z) == z);
        assert(z[1] == '.' && is_digit(z[0]) && is_digit(z[2]));
        assert(wf_float_chars(z));
    }
}

/// Every value the parser produces is well-formed: its strings hold no
/// backslash, its identifiers no quote, and its numeric components are
/// float lexemes.  Together with the round-trip law this means every
/// parsed value can be rendered and parsed back unchanged.
#[verifier::rlimit(60)]
#[verifier::spinoff_prover]
pub proof fn lemma_parse_value_wf(s: Seq<char>, pos: int)
    requires
        sp_value(s, pos) is Some,
    ensures
        wf_val(sp_value(s, pos)->Some_0.0),
    decreases s.len() - pos, 2int,
{
    if sp_qstr(s, pos) is Some {
        lemma_qstr_wf(s, pos);
    } else if sp_float(s, pos) is Some {
    } else if sp_int(s, pos) is Some {
    } else if sp_bool(s, pos) is Some {
    } else if sp_psa(s, pos) is Some {
        lemma_str_list_wf(s, pos + 18);
    } else if sp_quoted_id(s, pos, node_path_open()) is Some {
        lemma_quoted_id_wf(s, pos, node_path_open());
    } else if sp_vec2(s, pos) is Some {
        lemma_component_always_float(s, pos + 8);
        let (_, p1) = sp_component(s, pos + 8)->Some_0;
        lemma_component_always_float(s, p1 + 2);
    } else if sp_rect2(s, pos) is Some {
        lemma_component_always_float(s, pos + 6);
        let (_, p1) = sp_component(s, pos + 6)->Some_0;
        lemma_component_always_float(s, p1 + 2);
        let (_, p2) = sp_component(s, p1 + 2)->Some_0;
        lemma_component_always_float(s, p2 + 2);
        let (_, p3) = sp_component(s, p2 + 2)->Some_0;
        lemma_component_always_float(s, p3 + 2);
    } else if sp_quoted_id(s, pos, ext_resource_open()) is Some {
        lemma_quoted_id_wf(s, pos, ext_resource_open());
    } else if sp_quoted_id(s, pos, sub_resource_open()) is Some {
        lemma_quoted_id_wf(s, pos, sub_resource_open());
    } else if sp_color(s, pos) is Some {
        lemma_component_list_wf(s, pos + 6);
        let (es, _) = sp_component_list(s, pos + 6);
        lemma_color_component_wf(es, 0);
        lemma_color_component_wf(es, 1);
        lemma_color_component_wf(es, 2);
        lemma_color_component_wf(es, 3);
    } else if sp_arr(s, pos) is Some {
        lemma_val_list_wf(s, pos + 1);
        let (vs, _) = sp_val_list(s, pos + 1);
        assert(wf_val(Val::VArr(vs)));
    } else {
        lemma_pair_list_wf(s, pos + 2);
        let (ps, _) = sp_pair_list(s, pos + 2);
        assert forall|i: int| 0 <= i < ps.len() implies wf_qstr(#[trigger] ps[i].0) && wf_val(
            ps[i].1,
        ) by {
            assert(wf_qstr(ps[i].0));
            assert(wf_val(ps[i].1));
        }
        assert(wf_val(Val::VDict(ps)));
    }
}

/// Every element of a parsed array element list is well-formed.
proof fn lemma_val_list_wf(s: Seq<char>, pos: int)
    ensures
        ({
            let (vs, _) = sp_val_list(s, pos);
            forall|i: int| 0 <= i < vs.len() ==> wf_val(#[trigger] vs[i])
        }),
    decreases s.len() - pos, 3int,
{
    let (vs, _) = sp_val_list(s, pos);
    if sp_value(s, pos) is Some {
        lemma_parse_value_wf(s, pos);
        let (v, p2) = sp_value(s, pos)->Some_0;
        if p2 > pos && match_lit(s, p2, seq![',', ' ']) && sp_value(s, p2 + 2) is Some {
            lemma_val_list_wf(s, p2 + 2);
            let (rest, _) = sp_val_list(s, p2 + 2);
            assert forall|i: int| 0 <= i < vs.len() implies wf_val(#[trigger] vs[i]) by {
                if i > 0 {
                    assert(vs[i] == rest[i - 1]);
                }
            }
        }
    }
}

/// Every pair of a parsed dictionary pair list is well-formed.
proof fn lemma_pair_list_wf(s: Seq<char>, pos: int)
    ensures
        ({
            let (ps, _) = sp_pair_list(s, pos);
            forall|i: int| 0 <= i < ps.len() ==> wf_qstr(#[trigger] ps[i].0) && wf_val(ps[i].1)
        }),
    decreases s.len() - pos, 3int,
{
    let (ps, _) = sp_pair_list(s, pos);
    if sp_pair(s, pos) is Some {
        lemma_pair_wf(s, pos);
        let (p, p2) = sp_pair(s, pos)->Some_0;
        if p2 > pos && match_lit(s, p2, seq![',', '\n']) && sp_pair(s, p2 + 2) is Some {
            lemma_pair_list_wf(s, p2 + 2);
            let (rest, _) = sp_pair_list(s, p2 + 2);
            assert forall|i: int| 0 <= i < ps.len() implies wf_qstr(#[trigger] ps[i].0) && wf_val(
                ps[i].1,
            ) by {
                if i > 0 {
                    assert(ps[i] == rest[i - 1]);
                }
            }
        }
    }
}

/// A parsed dictionary pair is well-formed.
proof fn lemma_pair_wf(s: Seq<char>, pos: int)
    requires
        sp_pair(s, pos) is Some,
    ensures
        wf_qstr(sp_pair(s, pos)->Some_0.0.0),
        wf_val(sp_pair(s, pos)->Some_0.0.1),
    decreases s.len() - pos, 1int,
{
    lemma_qstr_wf(s, pos);
    let (_, p2) = sp_qstr(s, pos)->Some_0;
    lemma_parse_value_wf(s, p2 + 2);
}

// ---------------------------------------------------------------------------
// First write wins in the resource maps
// ---------------------------------------------------------------------------
/// The external-resource map holds, for each id, the first `ExtResource`
/// tag of the declaration phase that carries it; a later tag with the same
/// id is discarded, whatever its other attributes say.
pub proof fn lemma_first_ext_resource_wins(tags: Seq<TagM>, i: int, k: Seq<char>)
    requires
        0 <= i < tags.len(),
        tags[i].ty == crate::tscn_file::TagType::ExtResource,
        sp_id_of(tags[i]) == Some(k),
        forall|j: int|
            0 <= j < i ==> !(tags[j].ty == crate::tscn_file::TagType::ExtResource && sp_id_of(
                #[trigger] tags[j],
            ) == Some(k)),
    ensures
        sp_partition(tags).0.contains_key(k),
        sp_partition(tags).0[k] == tags[i],
    decreases tags.len(),
{
    let rest = tags.drop_first();
    if i == 0 {
    } else {
        assert forall|j: int|
            0 <= j < i - 1 implies !(rest[j].ty == crate::tscn_file::TagType::ExtResource
            && sp_id_of(#[trigger] rest[j]) == Some(k)) by {
            assert(rest[j] == tags[j + 1]);
        }
        assert(rest[i - 1] == tags[i]);
        lemma_first_ext_resource_wins(rest, i - 1, k);
        let t = tags[0];
        if t.ty == crate::tscn_file::TagType::ExtResource {
            if sp_id_of(t) is Some {
                assert(sp_id_of(t) != Some(k));
            }
        }
    }
}

/// The same rule for the sub-resource map.
pub proof fn lemma_first_sub_resource_wins(tags: Seq<TagM>, i: int, k: Seq<char>)
    requires
        0 <= i < tags.len(),
        tags[i].ty == crate::tscn_file::TagType::SubResource,
        sp_id_of(tags[i]) == Some(k),
        forall|j: int|
            0 <= j < i ==> !(tags[j].ty == crate::tscn_file::TagType::SubResource && sp_id_of(
                #[trigger] tags[j],
            ) == Some(k)),
    ensures
        sp_partition(tags).1.contains_key(k),
        sp_partition(tags).1[k] == tags[i],
    decreases tags.len(),
{
    let rest = tags.drop_first();
    if i == 0 {
    } else {
        assert forall|j: int|
            0 <= j < i - 1 implies !(rest[j].ty == crate::tscn_file::TagType::SubResource
            && sp_id_of(#[trigger] rest[j]) == Some(k)) by {
            assert(rest[j] == tags[j + 1]);
        }
        assert(rest[i - 1] == tags[i]);
        lemma_first_sub_resource_wins(rest, i - 1, k);
        let t = tags[0];
        if t.ty == crate::tscn_file::TagType::SubResource {
            if sp_id_of(t) is Some {
                assert(sp_id_of(t) != Some(k));
            }
        }
    }
}

/// An id stands in the external-resource map exactly when some
/// `ExtResource` tag of the declaration phase carries it.
pub proof fn lemma_ext_resource_ids_complete(tags: Seq<TagM>, k: Seq<char>)
    ensures
        sp_partition(tags).0.contains_key(k) <==> exists|i: int|
            0 <= i < tags.len() && #[trigger] tags[i].ty == crate::tscn_file::TagType::ExtResource
                && sp_id_of(tags[i]) == Some(k),
    decreases tags.len(),
{
    if tags.len() > 0 {
        let rest = tags.drop_first();
        lemma_ext_resource_ids_complete(rest, k);
        let t = tags[0];
        if sp_partition(tags).0.contains_key(k) {
            if !(t.ty == crate::tscn_file::TagType::ExtResource && sp_id_of(t) == Some(k)) {
                let w = choose|i: int|
                    0 <= i < rest.len() && #[trigger] rest[i].ty
                        == crate::tscn_file::TagType::ExtResource && sp_id_of(rest[i]) == Some(k);
                assert(tags[w + 1] == rest[w]);
            }
        }
        if exists|i: int|
            0 <= i < tags.len() && #[trigger] tags[i].ty == crate::tscn_file::TagType::ExtResource
                && sp_id_of(tags[i]) == Some(k) {
            let w = choose|i: int|
                0 <= i < tags.len() && #[trigger] tags[i].ty
                    == crate::tscn_file::TagType::ExtResource && sp_id_of(tags[i]) == Some(k);
            if w > 0 {
                assert(rest[w - 1] == tags[w]);
            }
        }
    }
}

// ---------------------------------------------------------------------------
// The declaration phase reads exactly `load_steps - 1` tags
// ---------------------------------------------------------------------------
/// A successful fixed-count read yields exactly that many tags, whatever
/// their types are.
pub proof fn lemma_read_n_tags_count(s: Seq<char>, pos: int, n: int)
    requires
        n >= 0,
        sp_read_n_tags(s, pos, n) is Ok,
    ensures
        sp_read_n_tags(s, pos, n)->Ok_0.0.len() == n,
    decreases n,
{
    if n > 0 {
        let (_, p2) = crate::tag_reader::sp_read_tag(s, pos, None)->Ok_0;
        lemma_read_n_tags_count(s, p2, n - 1);
    }
}

/// A scene header with `load_steps = n >= 1` sends exactly `n - 1`
/// following tags into the resource-declaration phase.
pub proof fn lemma_load_steps_count(s: Seq<char>, header: TagM, p1: int)
    requires
        crate::tag_reader::sp_read_tag(s, 0, Some(crate::tscn_file::TagType::GdScene)) == Ok::<
            (TagM, int),
            crate::errors::ErrM,
        >((header, p1)),
        crate::tscn_tres_parser::sp_load_steps(header) >= 1,
        sp_read_n_tags(
            s,
            p1,
            crate::tscn_tres_parser::sp_wrap_count(
                crate::tscn_tres_parser::sp_load_steps(header) as int,
            ),
        ) is Ok,
    ensures
        sp_read_n_tags(
            s,
            p1,
            crate::tscn_tres_parser::sp_wrap_count(
                crate::tscn_tres_parser::sp_load_steps(header) as int,
            ),
        )->Ok_0.0.len() == crate::tscn_tres_parser::sp_load_steps(header) - 1,
{
    let n = crate::tscn_tres_parser::sp_load_steps(header) as int;
    lemma_read_n_tags_count(s, p1, n - 1);
}

} // verus!
