//! The tag reader: one bracketed header plus its property block.
//!
//! A tag is `[` + type name + optionally a space and `key=value` attributes
//! + `]`.  Tag types that carry a property block follow with `key = value`
//! lines, one per line; the block ends at a blank line or at the end of the
//! input.  Trailing newlines are consumed so the next read starts at the
//! next tag.
//!
//! A malformed attribute or property does not abort the tag: the attribute
//! list simply ends before it, exactly as the ordered-alternative value
//! grammar ends at the first non-match.  Duplicate attribute or property
//! keys overwrite (the map-insert rule), unlike the resource maps of the
//! assembler, where the first write wins.

use crate::errors::{ErrM, ParseError, ParseErrorKind};
use crate::strmap::StrMap;
use crate::text::str_eq;
use crate::tscn_file::{sp_tag_type, Tag, TagM, TagType};
use crate::value_parser::{find_char, find_char_at, lit_at, match_lit, sp_value, take_value};
use crate::values::{GodotValue, Val};
use vstd::prelude::*;

verus! {

// ---------------------------------------------------------------------------
// Specification
// ---------------------------------------------------------------------------
/// End of the tag-type token: the first space or `]` at or after `i`.
pub open spec fn sp_token_end(s: Seq<char>, i: int) -> int
    decreases s.len() - i,
{
    if 0 <= i < s.len() {
        if s[i] == ' ' || s[i] == ']' {
            i
        } else {
            sp_token_end(s, i + 1)
        }
    } else {
        i
    }
}

/// End of the run of newlines at or after `i`.
pub open spec fn sp_newlines_end(s: Seq<char>, i: int) -> int
    decreases s.len() - i,
{
    if 0 <= i < s.len() && s[i] == '\n' {
        sp_newlines_end(s, i + 1)
    } else {
        i
    }
}

/// One `key=value` attribute inside the bracket interior: the key is the
/// text up to the next `=`, the value one literal.
pub open spec fn sp_attr(sub: Seq<char>, p: int) -> Option<((Seq<char>, Val), int)> {
    match find_char(sub, p, '=') {
        None => None,
        Some(eq) => if eq > p {
            match sp_value(sub, eq + 1) {
                Some((v, e)) => Some(((sub.subrange(p, eq), v), e)),
                None => None,
            }
        } else {
            None
        },
    }
}

/// The attribute map of a bracket interior: space-separated `key=value`
/// pairs from `p`; a later duplicate key overwrites an earlier one, and
/// anything after the last well-formed attribute is ignored.
pub open spec fn sp_attrs_map(sub: Seq<char>, p: int) -> Map<Seq<char>, Val>
    decreases sub.len() - p,
{
    match sp_attr(sub, p) {
        None => Map::empty(),
        Some(((k, v), e)) => {
            let rest = if e > p && match_lit(sub, e, seq![' ']) && sp_attr(sub, e + 1) is Some {
                sp_attrs_map(sub, e + 1)
            } else {
                Map::empty()
            };
            if rest.contains_key(k) {
                rest
            } else {
                rest.insert(k, v)
            }
        },
    }
}

/// One property line: a key (no spaces or newlines), ` = `, one literal,
/// then a newline or the end of the input.
pub open spec fn sp_prop(s: Seq<char>, p: int) -> Option<((Seq<char>, Val), int)> {
    let ke = sp_prop_key_end(s, p);
    if ke > p && match_lit(s, ke, seq![' ', '=', ' ']) {
        match sp_value(s, ke + 3) {
            Some((v, e)) => if e == s.len() {
                Some(((s.subrange(p, ke), v), e))
            } else if s[e] == '\n' {
                Some(((s.subrange(p, ke), v), e + 1))
            } else {
                None
            },
            None => None,
        }
    } else {
        None
    }
}

/// End of a property key: the first space or newline at or after `i`.
pub open spec fn sp_prop_key_end(s: Seq<char>, i: int) -> int
    decreases s.len() - i,
{
    if 0 <= i < s.len() {
        if s[i] == ' ' || s[i] == '\n' {
            i
        } else {
            sp_prop_key_end(s, i + 1)
        }
    } else {
        i
    }
}

/// The property block from `p`: property lines until the first line that
/// is no property; duplicate keys overwrite.
pub open spec fn sp_props_map(s: Seq<char>, p: int) -> (Map<Seq<char>, Val>, int)
    decreases s.len() - p,
{
    match sp_prop(s, p) {
        None => (Map::empty(), p),
        Some(((k, v), e)) => if p < e <= s.len() {
            let (rest, pe) = sp_props_map(s, e);
            (
                if rest.contains_key(k) {
                    rest
                } else {
                    rest.insert(k, v)
                },
                pe,
            )
        } else {
            (Map::empty(), p)
        },
    }
}

/// Read one tag at `pos`.  `expected` asserts the tag type (used for the
/// mandatory header); a token outside the tag-type set is
/// `UnknownTagType`, a wrong expected type `StructuralMismatch`, and a
/// missing `]` before the end of the input `IncompleteInput`.
pub open spec fn sp_read_tag(s: Seq<char>, pos: int, expected: Option<TagType>) -> Result<
    (TagM, int),
    ErrM,
> {
    if !(0 <= pos < s.len()) {
        Err(ErrM { kind: ParseErrorKind::IncompleteInput, pos: pos })
    } else if s[pos] != '[' {
        Err(ErrM { kind: ParseErrorKind::StructuralMismatch, pos: pos })
    } else {
        let te = sp_token_end(s, pos + 1);
        match sp_tag_type(s.subrange(pos + 1, te)) {
            None => Err(ErrM { kind: ParseErrorKind::UnknownTagType, pos: pos + 1 }),
            Some(ty) => if expected is Some && expected != Some(ty) {
                Err(ErrM { kind: ParseErrorKind::StructuralMismatch, pos: pos })
            } else {
                sp_read_tag_body(s, pos, ty, te)
            },
        }
    }
}

/// The rest of a tag once its type is known: attributes up to `]`, then
/// the property block, then the trailing newlines.
pub open spec fn sp_read_tag_body(s: Seq<char>, pos: int, ty: TagType, te: int) -> Result<
    (TagM, int),
    ErrM,
> {
    if te >= s.len() {
        Err(ErrM { kind: ParseErrorKind::IncompleteInput, pos: te })
    } else {
        let with_attrs = if s[te] == ']' {
            Ok((Map::<Seq<char>, Val>::empty(), te + 1))
        } else {
            match find_char(s, te + 1, ']') {
                None => Err(ErrM { kind: ParseErrorKind::IncompleteInput, pos: te + 1 }),
                Some(rb) => Ok((sp_attrs_map(s.subrange(te + 1, rb), 0), rb + 1)),
            }
        };
        match with_attrs {
            Err(e) => Err(e),
            Ok((attrs, after)) => {
                let with_props = if ty.sp_carries_props() {
                    if after >= s.len() {
                        Ok((Map::<Seq<char>, Val>::empty(), after))
                    } else if s[after] == '\n' {
                        if after + 1 < s.len() && s[after + 1] == '\n' {
                            Ok((Map::<Seq<char>, Val>::empty(), after))
                        } else {
                            Ok(sp_props_map(s, after + 1))
                        }
                    } else {
                        Err(ErrM { kind: ParseErrorKind::StructuralMismatch, pos: after })
                    }
                } else {
                    Ok((Map::<Seq<char>, Val>::empty(), after))
                };
                match with_props {
                    Err(e) => Err(e),
                    Ok((props, p2)) => Ok(
                        (TagM { ty, attrs, props }, sp_newlines_end(s, p2)),
                    ),
                }
            },
        }
    }
}

// ---------------------------------------------------------------------------
// Executable code
// ---------------------------------------------------------------------------
/// End of the tag-type token.
fn token_end(s: &str, pos: usize) -> (e: usize)
    requires
        pos <= s@.len(),
    ensures
        e as int == sp_token_end(s@, pos as int),
        pos <= e <= s@.len(),
{
    let len = s.unicode_len();
    let mut i = pos;
    while i < len
        invariant
            len == s@.len(),
            pos <= i <= len,
            sp_token_end(s@, pos as int) == sp_token_end(s@, i as int),
        decreases len - i,
    {
        let c = s.get_char(i);
        if c == ' ' || c == ']' {
            return i;
        }
        i += 1;
    }
    i
}

/// End of the newline run.
fn newlines_end(s: &str, pos: usize) -> (e: usize)
    requires
        pos <= s@.len(),
    ensures
        e as int == sp_newlines_end(s@, pos as int),
        pos <= e <= s@.len(),
{
    let len = s.unicode_len();
    let mut i = pos;
    while i < len && s.get_char(i) == '\n'
        invariant
            len == s@.len(),
            pos <= i <= len,
            sp_newlines_end(s@, pos as int) == sp_newlines_end(s@, i as int),
        decreases len - i,
    {
        i += 1;
    }
    i
}

/// End of a property key.
fn prop_key_end(s: &str, pos: usize) -> (e: usize)
    requires
        pos <= s@.len(),
    ensures
        e as int == sp_prop_key_end(s@, pos as int),
        pos <= e <= s@.len(),
{
    let len = s.unicode_len();
    let mut i = pos;
    while i < len
        invariant
            len == s@.len(),
            pos <= i <= len,
            sp_prop_key_end(s@, pos as int) == sp_prop_key_end(s@, i as int),
        decreases len - i,
    {
        let c = s.get_char(i);
        if c == ' ' || c == '\n' {
            return i;
        }
        i += 1;
    }
    i
}

/// One attribute.
fn take_attr(sub: &str, p: usize) -> (r: Option<((String, GodotValue), usize)>)
    requires
        p <= sub@.len(),
    ensures
        (match r {
            Some(((k, v), e)) => sp_attr(sub@, p as int) == Some(((k@, v@), e as int)) && p < e
                <= sub@.len(),
            None => sp_attr(sub@, p as int) is None,
        }),
{
    match find_char_at(sub, p, '=') {
        None => None,
        Some(eq) => {
            if eq > p {
                match take_value(sub, eq + 1) {
                    Some((v, e)) => {
                        let k = sub.substring_char(p, eq).to_owned();
                        Some(((k, v), e))
                    },
                    None => None,
                }
            } else {
                None
            }
        },
    }
}

/// The attribute map from `p` of the bracket interior.
fn attrs_map(sub: &str, p: usize) -> (m: StrMap<GodotValue>)
    requires
        p <= sub@.len(),
    ensures
        m@ == sp_attrs_map(sub@, p as int),
    decreases sub@.len() - p,
{
    proof {
        reveal_strlit(" ");
        assert(" "@ =~= seq![' ']);
    }
    match take_attr(sub, p) {
        None => StrMap::new(),
        Some(((k, v), e)) => {
            let mut more = false;
            if lit_at(sub, e, " ") {
                if take_attr(sub, e + 1).is_some() {
                    more = true;
                }
            }
            let mut m = if more {
                attrs_map(sub, e + 1)
            } else {
                StrMap::new()
            };
            m.insert_if_absent(k, v);
            m
        },
    }
}

/// One property line.
fn take_prop(s: &str, p: usize) -> (r: Option<((String, GodotValue), usize)>)
    requires
        p <= s@.len(),
    ensures
        (match r {
            Some(((k, v), e)) => sp_prop(s@, p as int) == Some(((k@, v@), e as int)) && p < e
                <= s@.len(),
            None => sp_prop(s@, p as int) is None,
        }),
{
    proof {
        reveal_strlit(" = ");
        assert(" = "@ =~= seq![' ', '=', ' ']);
    }
    let ke = prop_key_end(s, p);
    if ke == p {
        return None;
    }
    if !lit_at(s, ke, " = ") {
        return None;
    }
    match take_value(s, ke + 3) {
        None => None,
        Some((v, e)) => {
            let len = s.unicode_len();
            if e == len {
                let k = s.substring_char(p, ke).to_owned();
                Some(((k, v), e))
            } else if s.get_char(e) == '\n' {
                let k = s.substring_char(p, ke).to_owned();
                Some(((k, v), e + 1))
            } else {
                None
            }
        },
    }
}

/// The property block from `p`.
fn props_map(s: &str, p: usize) -> (r: (StrMap<GodotValue>, usize))
    requires
        p <= s@.len(),
    ensures
        ({
            let (m, pe) = sp_props_map(s@, p as int);
            r.0@ == m && r.1 as int == pe && p <= r.1 <= s@.len()
        }),
    decreases s@.len() - p,
{
    match take_prop(s, p) {
        None => (StrMap::new(), p),
        Some(((k, v), e)) => {
            let (mut m, pe) = props_map(s, e);
            m.insert_if_absent(k, v);
            (m, pe)
        },
    }
}

/// Read one tag at `pos`, optionally asserting its type.
pub fn read_tag(s: &str, pos: usize, expected: Option<TagType>) -> (r: Result<
    (Tag, usize),
    ParseError,
>)
    requires
        pos <= s@.len(),
    ensures
        (match r {
            Ok((t, e)) => sp_read_tag(s@, pos as int, expected) == Ok::<(TagM, int), ErrM>(
                (t@, e as int),
            ) && pos < e <= s@.len(),
            Err(pe) => sp_read_tag(s@, pos as int, expected) == Err::<(TagM, int), ErrM>(pe@),
        }),
{
    let len = s.unicode_len();
    if pos >= len {
        return Err(ParseError { kind: ParseErrorKind::IncompleteInput, pos });
    }
    if s.get_char(pos) != '[' {
        return Err(ParseError { kind: ParseErrorKind::StructuralMismatch, pos });
    }
    let te = token_end(s, pos + 1);
    let token = s.substring_char(pos + 1, te);
    let ty = match TagType::from_str(token) {
        None => {
            return Err(ParseError { kind: ParseErrorKind::UnknownTagType, pos: pos + 1 });
        },
        Some(ty) => ty,
    };
    if let Some(want) = expected {
        if want != ty {
            return Err(ParseError { kind: ParseErrorKind::StructuralMismatch, pos });
        }
    }
    if te >= len {
        return Err(ParseError { kind: ParseErrorKind::IncompleteInput, pos: te });
    }
    let (attrs, after) = if s.get_char(te) == ']' {
        (StrMap::new(), te + 1)
    } else {
        match find_char_at(s, te + 1, ']') {
            None => {
                return Err(ParseError { kind: ParseErrorKind::IncompleteInput, pos: te + 1 });
            },
            Some(rb) => {
                let interior = s.substring_char(te + 1, rb);
                (attrs_map(interior, 0), rb + 1)
            },
        }
    };
    let (props, p2) = if ty.carries_props() {
        if after >= len {
            (StrMap::new(), after)
        } else if s.get_char(after) == '\n' {
            if after + 1 < len && s.get_char(after + 1) == '\n' {
                (StrMap::new(), after)
            } else {
                props_map(s, after + 1)
            }
        } else {
            return Err(ParseError { kind: ParseErrorKind::StructuralMismatch, pos: after });
        }
    } else {
        (StrMap::new(), after)
    };
    let end = newlines_end(s, p2);
    Ok((Tag { _type: ty, attrs, props }, end))
}

} // verus!
