//! The project-settings (`project.godot`) parser.
//!
//! The dialect is INI-like: comment lines starting with `;`, one blank
//! line, a `config_version=<unsigned>` line, then bracketed sections of
//! `key=value` parameter lines.  Values are parsed with the shared literal
//! grammar, each bounded to its own line.  Line endings are `\n` or
//! `\r\n`; trimming removes ASCII whitespace.

use crate::errors::{ErrM, ParseError, ParseErrorKind};
use crate::project_file::{ProjectFile, ProjM};
use crate::strmap::StrMap;
use crate::value_parser::{digits_end, digits_val, find_char, find_char_at, match_lit, sp_value,
    take_value, lemma_digits_end_range, lemma_digits_val_prefix};
use crate::values::{GodotValue, Val};
use vstd::prelude::*;

verus! {

// ---------------------------------------------------------------------------
// Specification: lines and trimming
// ---------------------------------------------------------------------------
/// ASCII whitespace, the characters trimming removes.
pub open spec fn is_space(c: char) -> bool {
    c == ' ' || c == '\t' || c == '\r' || c == '\n'
}

/// One line ending at `p`: `\n` or `\r\n`.
pub open spec fn sp_line_end(s: Seq<char>, p: int) -> Option<int> {
    if 0 <= p < s.len() && s[p] == '\n' {
        Some(p + 1)
    } else if 0 <= p && p + 1 < s.len() && s[p] == '\r' && s[p + 1] == '\n' {
        Some(p + 2)
    } else {
        None
    }
}

/// End of the line content at `p`: the first `\r` or `\n`, or the end of
/// the input.
pub open spec fn sp_line_content_end(s: Seq<char>, p: int) -> int
    decreases s.len() - p,
{
    if 0 <= p < s.len() {
        if s[p] == '\r' || s[p] == '\n' {
            p
        } else {
            sp_line_content_end(s, p + 1)
        }
    } else {
        p
    }
}

/// Skip every line ending at `p`.
pub open spec fn sp_skip_line_endings(s: Seq<char>, p: int) -> int
    decreases s.len() - p,
{
    match sp_line_end(s, p) {
        Some(q) => if p < q <= s.len() {
            sp_skip_line_endings(s, q)
        } else {
            p
        },
        None => p,
    }
}

/// Skip the comment lines at `p` (each starts with `;` and runs to the
/// end of its line).
pub open spec fn sp_skip_comments(s: Seq<char>, p: int) -> int
    decreases s.len() - p,
{
    if 0 <= p < s.len() && s[p] == ';' {
        let q = sp_line_content_end(s, p + 1);
        let after = match sp_line_end(s, q) {
            Some(a) => a,
            None => q,
        };
        if p < after <= s.len() {
            sp_skip_comments(s, after)
        } else {
            p
        }
    } else {
        p
    }
}

/// `t` without trailing whitespace.
pub open spec fn sp_trim_trail(t: Seq<char>) -> Seq<char>
    decreases t.len(),
{
    if t.len() > 0 && is_space(t.last()) {
        sp_trim_trail(t.drop_last())
    } else {
        t
    }
}

/// `t` without leading whitespace.
pub open spec fn sp_trim_lead(t: Seq<char>) -> Seq<char>
    decreases t.len(),
{
    if t.len() > 0 && is_space(t[0]) {
        sp_trim_lead(t.drop_first())
    } else {
        t
    }
}

/// `t` without leading and trailing whitespace.
pub open spec fn sp_trim(t: Seq<char>) -> Seq<char> {
    sp_trim_lead(sp_trim_trail(t))
}

// ---------------------------------------------------------------------------
// Specification: parameters, sections, the whole file
// ---------------------------------------------------------------------------
/// One `key=value` parameter line: the whole line is consumed, the key is
/// the trimmed text before the first `=` (at least one character), the
/// value one literal; what follows the value on the line is ignored.
pub open spec fn sp_parameter(s: Seq<char>, p: int) -> Option<((Seq<char>, Val), int)> {
    let le = sp_line_content_end(s, p);
    let after = match sp_line_end(s, le) {
        Some(a) => a,
        None => le,
    };
    let expr = s.subrange(p, le);
    match find_char(expr, 0, '=') {
        None => None,
        Some(eq) => if eq >= 1 {
            match sp_value(expr, eq + 1) {
                Some((v, _)) => Some(((sp_trim(expr.take(eq)), v), after)),
                None => None,
            }
        } else {
            None
        },
    }
}

/// The parameter lines from `p`; a duplicate key overwrites (last write
/// wins).
pub open spec fn sp_params_map(s: Seq<char>, p: int) -> (Map<Seq<char>, Val>, int)
    decreases s.len() - p,
{
    match sp_parameter(s, p) {
        None => (Map::empty(), p),
        Some(((k, v), e)) => if p < e <= s.len() {
            let (rest, pe) = sp_params_map(s, e);
            (
                if rest.contains_key(k) {
                    rest
                } else {
                    rest.insert(k, v)
                },
                pe,
            )
        } else {
            (Map::empty(), p)
        },
    }
}

/// One section: `[name]` (the name trimmed, at least one character), blank
/// lines, parameters, blank lines.
pub open spec fn sp_section(s: Seq<char>, p: int) -> Option<((Seq<char>, Map<Seq<char>, Val>), int)> {
    if 0 <= p < s.len() && s[p] == '[' {
        match find_char(s, p + 1, ']') {
            None => None,
            Some(nb) => if nb > p + 1 {
                let name = sp_trim(s.subrange(p + 1, nb));
                let q0 = sp_skip_line_endings(s, nb + 1);
                let (params, q1) = sp_params_map(s, q0);
                let q2 = sp_skip_line_endings(s, q1);
                Some(((name, params), q2))
            } else {
                None
            },
        }
    } else {
        None
    }
}

/// The sections from `p`; a duplicate section name replaces the earlier
/// section's parameters entirely (last write wins).
pub open spec fn sp_sections_map(s: Seq<char>, p: int) -> (Map<Seq<char>, Map<Seq<char>, Val>>, int)
    decreases s.len() - p,
{
    match sp_section(s, p) {
        None => (Map::empty(), p),
        Some(((k, m), e)) => if p < e <= s.len() {
            let (rest, pe) = sp_sections_map(s, e);
            (
                if rest.contains_key(k) {
                    rest
                } else {
                    rest.insert(k, m)
                },
                pe,
            )
        } else {
            (Map::empty(), p)
        },
    }
}

/// `config_version=`
pub open spec fn config_version_lit() -> Seq<char> {
    seq!['c', 'o', 'n', 'f', 'i', 'g', '_', 'v', 'e', 'r', 's', 'i', 'o', 'n', '=']
}

/// The whole project file: comments, one mandatory line ending, the
/// `config_version` line, then the sections.  A missing separator or
/// `config_version` line fails (`IncompleteInput` at the end of the
/// input, `StructuralMismatch` elsewhere).
pub open spec fn sp_parse_project(s: Seq<char>) -> Result<(ProjM, int), ErrM> {
    let p0 = sp_skip_comments(s, 0);
    match sp_line_end(s, p0) {
        None => Err(
            ErrM {
                kind: if p0 >= s.len() {
                    ParseErrorKind::IncompleteInput
                } else {
                    ParseErrorKind::StructuralMismatch
                },
                pos: p0,
            },
        ),
        Some(p1) => if match_lit(s, p1, config_version_lit()) {
            let p2 = p1 + 15;
            let de = digits_end(s, p2);
            if de > p2 && digits_val(s.subrange(p2, de)) <= 0xffff_ffff {
                let cv = digits_val(s.subrange(p2, de)) as u32;
                let p3 = sp_skip_line_endings(s, de);
                let (sections, p4) = sp_sections_map(s, p3);
                Ok((ProjM { config_version: cv, sections }, p4))
            } else {
                Err(ErrM { kind: ParseErrorKind::StructuralMismatch, pos: p2 })
            }
        } else {
            Err(
                ErrM {
                    kind: if p1 >= s.len() {
                        ParseErrorKind::IncompleteInput
                    } else {
                        ParseErrorKind::StructuralMismatch
                    },
                    pos: p1,
                },
            )
        },
    }
}

// ---------------------------------------------------------------------------
// Executable code
// ---------------------------------------------------------------------------
/// One line ending at `p`.
fn line_end(s: &str, p: usize) -> (r: Option<usize>)
    requires
        p <= s@.len(),
    ensures
        (match r {
            Some(q) => sp_line_end(s@, p as int) == Some(q as int) && p < q <= s@.len(),
            None => sp_line_end(s@, p as int) is None,
        }),
{
    let len = s.unicode_len();
    if p < len && s.get_char(p) == '\n' {
        Some(p + 1)
    } else if p < len && s.get_char(p) == '\r' && p + 1 < len && s.get_char(p + 1) == '\n' {
        Some(p + 2)
    } else {
        None
    }
}

/// End of the line content at `p`.
fn line_content_end(s: &str, p: usize) -> (e: usize)
    requires
        p <= s@.len(),
    ensures
        e as int == sp_line_content_end(s@, p as int),
        p <= e <= s@.len(),
{
    let len = s.unicode_len();
    let mut i = p;
    while i < len
        invariant
            len == s@.len(),
            p <= i <= len,
            sp_line_content_end(s@, p as int) == sp_line_content_end(s@, i as int),
        decreases len - i,
    {
        let c = s.get_char(i);
        if c == '\r' || c == '\n' {
            return i;
        }
        i += 1;
    }
    i
}

/// Skip every line ending.
fn skip_line_endings(s: &str, p: usize) -> (e: usize)
    requires
        p <= s@.len(),
    ensures
        e as int == sp_skip_line_endings(s@, p as int),
        p <= e <= s@.len(),
{
    let mut i = p;
    loop
        invariant
            p <= i <= s@.len(),
            sp_skip_line_endings(s@, p as int) == sp_skip_line_endings(s@, i as int),
        decreases s@.len() - i,
    {
        match line_end(s, i) {
            Some(q) => {
                i = q;
            },
            None => {
                return i;
            },
        }
    }
}

/// Skip the comment lines.
fn skip_comments(s: &str, p: usize) -> (e: usize)
    requires
        p <= s@.len(),
    ensures
        e as int == sp_skip_comments(s@, p as int),
        p <= e <= s@.len(),
{
    let len = s.unicode_len();
    let mut i = p;
    while i < len && s.get_char(i) == ';'
        invariant
            len == s@.len(),
            p <= i <= len,
            sp_skip_comments(s@, p as int) == sp_skip_comments(s@, i as int),
        decreases len - i,
    {
        let q = line_content_end(s, i + 1);
        let after = match line_end(s, q) {
            Some(a) => a,
            None => q,
        };
        i = after;
    }
    i
}

/// Executable counterpart of [`is_space`].
fn space(c: char) -> (r: bool)
    ensures
        r == is_space(c),
{
    c == ' ' || c == '\t' || c == '\r' || c == '\n'
}

/// The trimmed copy of `[from, to)` of `s`.
fn trim_range(s: &str, from: usize, to: usize) -> (r: String)
    requires
        from <= to <= s@.len(),
    ensures
        r@ == sp_trim(s@.subrange(from as int, to as int)),
{
    let ghost t = s@.subrange(from as int, to as int);
    let mut b = to;
    while b > from && space(s.get_char(b - 1))
        invariant
            from <= b <= to <= s@.len(),
            t == s@.subrange(from as int, to as int),
            sp_trim_trail(t) == sp_trim_trail(s@.subrange(from as int, b as int)),
        decreases b,
    {
        proof {
            let cur = s@.subrange(from as int, b as int);
            assert(cur.drop_last() =~= s@.subrange(from as int, b - 1));
        }
        b -= 1;
    }
    proof {
        let cur = s@.subrange(from as int, b as int);
        assert(sp_trim_trail(cur) == cur);
    }
    let ghost tt = sp_trim_trail(t);
    let mut a = from;
    while a < b && space(s.get_char(a))
        invariant
            from <= a <= b <= s@.len(),
            tt == s@.subrange(from as int, b as int),
            sp_trim_lead(tt) == sp_trim_lead(s@.subrange(a as int, b as int)),
        decreases b - a,
    {
        proof {
            let cur = s@.subrange(a as int, b as int);
            assert(cur.drop_first() =~= s@.subrange(a + 1, b as int));
        }
        a += 1;
    }
    proof {
        let cur = s@.subrange(a as int, b as int);
        assert(sp_trim_lead(cur) == cur);
    }
    s.substring_char(a, b).to_owned()
}

/// One parameter line.
fn take_parameter(s: &str, p: usize) -> (r: Option<((String, GodotValue), usize)>)
    requires
        p <= s@.len(),
    ensures
        (match r {
            Some(((k, v), e)) => sp_parameter(s@, p as int) == Some(((k@, v@), e as int)) && p < e
                <= s@.len(),
            None => sp_parameter(s@, p as int) is None,
        }),
{
    let le = line_content_end(s, p);
    let after = match line_end(s, le) {
        Some(a) => a,
        None => le,
    };
    let expr = s.substring_char(p, le);
    match find_char_at(expr, 0, '=') {
        None => None,
        Some(eq) => {
            if eq >= 1 {
                match take_value(expr, eq + 1) {
                    Some((v, _end)) => {
                        let k = trim_range(expr, 0, eq);
                        proof {
                            assert(expr@.subrange(0, eq as int) =~= expr@.take(eq as int));
                            assert(expr@.len() > eq as int);
                        }
                        Some(((k, v), after))
                    },
                    None => None,
                }
            } else {
                None
            }
        },
    }
}

/// The parameter map from `p`.
fn params_map(s: &str, p: usize) -> (r: (StrMap<GodotValue>, usize))
    requires
        p <= s@.len(),
    ensures
        ({
            let (m, pe) = sp_params_map(s@, p as int);
            r.0@ == m && r.1 as int == pe && p <= r.1 <= s@.len()
        }),
    decreases s@.len() - p,
{
    match take_parameter(s, p) {
        None => (StrMap::new(), p),
        Some(((k, v), e)) => {
            let (mut m, pe) = params_map(s, e);
            m.insert_if_absent(k, v);
            (m, pe)
        },
    }
}

/// One section.
fn take_section(s: &str, p: usize) -> (r: Option<((String, StrMap<GodotValue>), usize)>)
    requires
        p <= s@.len(),
    ensures
        (match r {
            Some(((k, m), e)) => sp_section(s@, p as int) == Some(((k@, m@), e as int)) && p < e
                <= s@.len(),
            None => sp_section(s@, p as int) is None,
        }),
{
    let len = s.unicode_len();
    if p >= len || s.get_char(p) != '[' {
        return None;
    }
    match find_char_at(s, p + 1, ']') {
        None => None,
        Some(nb) => {
            if nb > p + 1 {
                let name = trim_range(s, p + 1, nb);
                let q0 = skip_line_endings(s, nb + 1);
                let (params, q1) = params_map(s, q0);
                let q2 = skip_line_endings(s, q1);
                Some(((name, params), q2))
            } else {
                None
            }
        },
    }
}

/// The section map from `p`.
fn sections_map(s: &str, p: usize) -> (r: (StrMap<StrMap<GodotValue>>, usize))
    requires
        p <= s@.len(),
    ensures
        ({
            let (m, pe) = sp_sections_map(s@, p as int);
            r.0@ == m && r.1 as int == pe && p <= r.1 <= s@.len()
        }),
    decreases s@.len() - p,
{
    match take_section(s, p) {
        None => (StrMap::new(), p),
        Some(((k, sec), e)) => {
            let (mut m, pe) = sections_map(s, e);
            m.insert_if_absent(k, sec);
            (m, pe)
        },
    }
}

/// The `config_version` number: one or more digits fitting a `u32`.
fn take_u32(s: &str, p: usize) -> (r: Option<(u32, usize)>)
    requires
        p <= s@.len(),
    ensures
        ({
            let de = digits_end(s@, p as int);
            match r {
                Some((n, e)) => e as int == de && p < e <= s@.len() && digits_val(
                    s@.subrange(p as int, de),
                ) == n,
                None => !(de > p && digits_val(s@.subrange(p as int, de)) <= 0xffff_ffff),
            }
        }),
{
    let e = crate::value_parser::digits_run(s, p);
    if e == p {
        return None;
    }
    proof {
        lemma_digits_end_range(s@, p as int);
    }
    let ghost run = s@.subrange(p as int, e as int);
    let mut m: u64 = 0;
    let mut i = p;
    while i < e
        invariant
            p <= i <= e <= s@.len(),
            e as int == digits_end(s@, p as int),
            run == s@.subrange(p as int, e as int),
            forall|j: int| p <= j < e ==> crate::text::is_digit(s@[j]),
            m == digits_val(s@.subrange(p as int, i as int)),
            m <= 0xffff_ffff,
        decreases e - i,
    {
        let c = s.get_char(i);
        let d: u64 = (c as u32 - '0' as u32) as u64;
        proof {
            assert(s@.subrange(p as int, i + 1).drop_last() =~= s@.subrange(p as int, i as int));
        }
        let next = m * 10 + d;
        if next > 0xffff_ffffu64 {
            proof {
                let full = s@.subrange(p as int, e as int);
                let part = s@.subrange(p as int, i + 1);
                assert(part =~= full.subrange(0, i + 1 - p));
                assert forall|j: int| 0 <= j < full.len() implies crate::text::is_digit(
                    #[trigger] full[j],
                ) by {
                    assert(full[j] == s@[p + j]);
                }
                lemma_digits_val_prefix(full, i + 1 - p);
            }
            return None;
        }
        m = next;
        i += 1;
    }
    proof {
        assert(s@.subrange(p as int, e as int) =~= run);
    }
    Some((m as u32, e))
}

/// Parse a project-settings file.  On success the returned position is
/// the first unconsumed character.
pub fn parse_project_file(s: &str) -> (r: Result<(ProjectFile, usize), ParseError>)
    ensures
        (match r {
            Ok((doc, e)) => sp_parse_project(s@) == Ok::<_, ErrM>((doc@, e as int)) && e
                <= s@.len(),
            Err(pe) => sp_parse_project(s@) == Err::<(ProjM, int), _>(pe@),
        }),
{
    let len = s.unicode_len();
    let p0 = skip_comments(s, 0);
    let p1 = match line_end(s, p0) {
        None => {
            let kind = if p0 >= len {
                ParseErrorKind::IncompleteInput
            } else {
                ParseErrorKind::StructuralMismatch
            };
            return Err(ParseError { kind, pos: p0 });
        },
        Some(q) => q,
    };
    proof {
        reveal_strlit("config_version=");
        assert("config_version="@ =~= config_version_lit());
    }
    if !crate::value_parser::lit_at(s, p1, "config_version=") {
        let kind = if p1 >= len {
            ParseErrorKind::IncompleteInput
        } else {
            ParseErrorKind::StructuralMismatch
        };
        return Err(ParseError { kind, pos: p1 });
    }
    let p2 = p1 + 15;
    let (cv, de) = match take_u32(s, p2) {
        None => {
            return Err(ParseError { kind: ParseErrorKind::StructuralMismatch, pos: p2 });
        },
        Some(x) => x,
    };
    let p3 = skip_line_endings(s, de);
    let (sections, p4) = sections_map(s, p3);
    Ok((ProjectFile { config_version: cv, sections }, p4))
}

} // verus!
