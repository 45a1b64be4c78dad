//! The scene / resource assembler.
//!
//! Both dialects share one pass: read the mandatory header tag, read
//! `load_steps - 1` tags unconditionally into the resource-declaration
//! phase, partition those into the `ext_resources` and `sub_resources`
//! maps (first write wins per id; tags of other types are dropped), then
//! read tags until the input runs out.  The scene dialect classifies the
//! remaining tags into `nodes` and `connections` in encounter order; the
//! resource dialect keeps them all as `nodes` and has no connections.

use crate::errors::{ErrM, ParseError, ParseErrorKind};
use crate::strmap::StrMap;
use crate::tag_reader::{read_tag, sp_read_tag};
use crate::tscn_file::{tag_views, DocM, Tag, TagM, TagType, TSCNFile};
use crate::values::{GodotValue, Val};
use vstd::prelude::*;

verus! {

// ---------------------------------------------------------------------------
// Specification
// ---------------------------------------------------------------------------
/// `load_steps`
pub open spec fn load_steps_key() -> Seq<char> {
    seq!['l', 'o', 'a', 'd', '_', 's', 't', 'e', 'p', 's']
}

/// `id`
pub open spec fn id_key() -> Seq<char> {
    seq!['i', 'd']
}

/// The header's `load_steps` attribute; absent or non-integer means 1.
pub open spec fn sp_load_steps(h: TagM) -> i64 {
    if h.attrs.contains_key(load_steps_key()) && h.attrs[load_steps_key()] is VInt {
        h.attrs[load_steps_key()]->VInt_0
    } else {
        1
    }
}

/// `load_steps - 1` as the unsigned machine word the tag count is taken
/// from: a value below 1 wraps around, and such a count can never be
/// satisfied, so the parse fails before the input runs out.
pub open spec fn sp_wrap_count(ls: int) -> int {
    if ls >= 1 {
        ls - 1
    } else {
        ls - 1 + 0x1_0000_0000_0000_0000
    }
}

/// Exactly `n` tags, one after the other; any failure fails the whole
/// read.
pub open spec fn sp_read_n_tags(s: Seq<char>, pos: int, n: int) -> Result<(Seq<TagM>, int), ErrM>
    decreases n,
{
    if n <= 0 {
        Ok((Seq::empty(), pos))
    } else {
        match sp_read_tag(s, pos, None) {
            Err(e) => Err(e),
            Ok((t, p2)) => match sp_read_n_tags(s, p2, n - 1) {
                Err(e) => Err(e),
                Ok((ts, e)) => Ok((seq![t] + ts, e)),
            },
        }
    }
}

/// Tags until the first position where no tag can be read; what remains
/// there is left unconsumed.
pub open spec fn sp_read_greedy(s: Seq<char>, pos: int) -> (Seq<TagM>, int)
    decreases s.len() - pos,
{
    match sp_read_tag(s, pos, None) {
        Err(_) => (Seq::empty(), pos),
        Ok((t, p2)) => if pos < p2 <= s.len() {
            let (ts, e) = sp_read_greedy(s, p2);
            (seq![t] + ts, e)
        } else {
            (seq![t], p2)
        },
    }
}

/// The `id` attribute of a resource tag, when it is a string.
pub open spec fn sp_id_of(t: TagM) -> Option<Seq<char>> {
    if t.attrs.contains_key(id_key()) && t.attrs[id_key()] is VStr {
        Some(t.attrs[id_key()]->VStr_0)
    } else {
        None
    }
}

/// Partition the resource-declaration tags into the two id-keyed maps.
/// The first tag with a given id wins; tags of other types, and resource
/// tags without a string `id` attribute, are dropped.
pub open spec fn sp_partition(tags: Seq<TagM>) -> (Map<Seq<char>, TagM>, Map<Seq<char>, TagM>)
    decreases tags.len(),
{
    if tags.len() == 0 {
        (Map::empty(), Map::empty())
    } else {
        let (em, sm) = sp_partition(tags.drop_first());
        let t = tags[0];
        if t.ty == TagType::ExtResource {
            match sp_id_of(t) {
                Some(k) => (em.insert(k, t), sm),
                None => (em, sm),
            }
        } else if t.ty == TagType::SubResource {
            match sp_id_of(t) {
                Some(k) => (em, sm.insert(k, t)),
                None => (em, sm),
            }
        } else {
            (em, sm)
        }
    }
}

/// The tags of type `Node`, in encounter order.
pub open spec fn sp_nodes_of(tags: Seq<TagM>) -> Seq<TagM>
    decreases tags.len(),
{
    if tags.len() == 0 {
        Seq::empty()
    } else if tags[0].ty == TagType::Node {
        seq![tags[0]] + sp_nodes_of(tags.drop_first())
    } else {
        sp_nodes_of(tags.drop_first())
    }
}

/// The tags of type `Connection`, in encounter order.
pub open spec fn sp_connections_of(tags: Seq<TagM>) -> Seq<TagM>
    decreases tags.len(),
{
    if tags.len() == 0 {
        Seq::empty()
    } else if tags[0].ty == TagType::Connection {
        seq![tags[0]] + sp_connections_of(tags.drop_first())
    } else {
        sp_connections_of(tags.drop_first())
    }
}

/// The scene dialect: `gd_scene` header, the resource phase, then nodes
/// and connections.
pub open spec fn sp_parse_scene(s: Seq<char>) -> Result<(DocM, int), ErrM> {
    match sp_read_tag(s, 0, Some(TagType::GdScene)) {
        Err(e) => Err(e),
        Ok((header, p1)) => match sp_read_n_tags(
            s,
            p1,
            sp_wrap_count(sp_load_steps(header) as int),
        ) {
            Err(e) => Err(e),
            Ok((rtags, p2)) => {
                let (em, sm) = sp_partition(rtags);
                let (rest, p3) = sp_read_greedy(s, p2);
                Ok(
                    (
                        DocM {
                            header,
                            ext_resources: em,
                            sub_resources: sm,
                            nodes: sp_nodes_of(rest),
                            connections: sp_connections_of(rest),
                        },
                        p3,
                    ),
                )
            },
        },
    }
}

/// The resource dialect: `gd_resource` header, the resource phase, then
/// every remaining tag as a node; a resource document has no connections.
pub open spec fn sp_parse_resource(s: Seq<char>) -> Result<(DocM, int), ErrM> {
    match sp_read_tag(s, 0, Some(TagType::GdResource)) {
        Err(e) => Err(e),
        Ok((header, p1)) => match sp_read_n_tags(
            s,
            p1,
            sp_wrap_count(sp_load_steps(header) as int),
        ) {
            Err(e) => Err(e),
            Ok((rtags, p2)) => {
                let (em, sm) = sp_partition(rtags);
                let (rest, p3) = sp_read_greedy(s, p2);
                Ok(
                    (
                        DocM {
                            header,
                            ext_resources: em,
                            sub_resources: sm,
                            nodes: rest,
                            connections: Seq::empty(),
                        },
                        p3,
                    ),
                )
            },
        },
    }
}

// ---------------------------------------------------------------------------
// Executable code
// ---------------------------------------------------------------------------
/// The header's `load_steps` attribute, defaulting to 1.
fn load_steps_of(header: &Tag) -> (r: i64)
    ensures
        r == sp_load_steps(header@),
{
    proof {
        reveal_strlit("load_steps");
        assert("load_steps"@ =~= load_steps_key());
    }
    match header.attrs.get("load_steps") {
        Some(GodotValue::Integer(n)) => *n,
        _ => 1,
    }
}

/// `load_steps - 1` with the wrap-around of an unsigned conversion.
fn wrap_count(ls: i64) -> (r: u64)
    ensures
        r as int == sp_wrap_count(ls as int),
{
    let d: i128 = (ls as i128) - 1;
    if d >= 0 {
        d as u64
    } else {
        (d + 0x1_0000_0000_0000_0000i128) as u64
    }
}

/// Read exactly `n` tags.
fn read_n_tags(s: &str, pos: usize, n: u64) -> (r: Result<(Vec<Tag>, usize), ParseError>)
    requires
        pos <= s@.len(),
    ensures
        (match r {
            Ok((ts, e)) => sp_read_n_tags(s@, pos as int, n as int) == Ok::<_, ErrM>(
                (tag_views(ts@), e as int),
            ) && pos <= e <= s@.len(),
            Err(pe) => sp_read_n_tags(s@, pos as int, n as int) == Err::<(Seq<TagM>, int), _>(pe@),
        }),
    decreases n,
{
    if n == 0 {
        return Ok((Vec::new(), pos));
    }
    match read_tag(s, pos, None) {
        Err(e) => Err(e),
        Ok((t, p2)) => {
            match read_n_tags(s, p2, n - 1) {
                Err(e) => Err(e),
                Ok((mut ts, e)) => {
                    let ghost tv = t@;
                    let ghost old_ts = ts@;
                    ts.insert(0, t);
                    proof {
                        assert(ts@.drop_first() =~= old_ts);
                    }
                    Ok((ts, e))
                },
            }
        },
    }
}

/// Read tags until none can be read.
fn read_greedy(s: &str, pos: usize) -> (r: (Vec<Tag>, usize))
    requires
        pos <= s@.len(),
    ensures
        ({
            let (ts, e) = sp_read_greedy(s@, pos as int);
            tag_views(r.0@) == ts && r.1 as int == e && pos <= r.1 <= s@.len()
        }),
    decreases s@.len() - pos,
{
    match read_tag(s, pos, None) {
        Err(_) => (Vec::new(), pos),
        Ok((t, p2)) => {
            let (mut rest, e) = read_greedy(s, p2);
            let ghost tv = t@;
            let ghost old_rest = rest@;
            rest.insert(0, t);
            proof {
                assert(rest@.drop_first() =~= old_rest);
            }
            (rest, e)
        },
    }
}

/// Partition the resource-declaration tags into the two id-keyed maps.
fn partition_resources(tags: Vec<Tag>) -> (r: (StrMap<Tag>, StrMap<Tag>))
    ensures
        ({
            let (em, sm) = sp_partition(tag_views(tags@));
            r.0@ == em && r.1@ == sm
        }),
    decreases tags@.len(),
{
    proof {
        reveal_strlit("id");
        assert("id"@ =~= id_key());
    }
    let mut tags = tags;
    if tags.len() == 0 {
        (StrMap::new(), StrMap::new())
    } else {
        let ghost orig = tags@;
        let t = tags.remove(0);
        let ghost tv = t@;
        proof {
            assert(seq![t] + tags@ =~= orig);
            assert(tag_views(orig).drop_first() =~= tag_views(tags@));
        }
        let (mut em, mut sm) = partition_resources(tags);
        match t._type {
            TagType::ExtResource => {
                let id = match t.attrs.get("id") {
                    Some(GodotValue::String(ids)) => Some(ids.clone()),
                    _ => None,
                };
                match id {
                    Some(id) => em.insert(id, t),
                    None => (),
                }
            },
            TagType::SubResource => {
                let id = match t.attrs.get("id") {
                    Some(GodotValue::String(ids)) => Some(ids.clone()),
                    _ => None,
                };
                match id {
                    Some(id) => sm.insert(id, t),
                    None => (),
                }
            },
            _ => (),
        }
        (em, sm)
    }
}

/// Classify the remaining tags of a scene into nodes and connections.
fn classify_scene(tags: Vec<Tag>) -> (r: (Vec<Tag>, Vec<Tag>))
    ensures
        tag_views(r.0@) == sp_nodes_of(tag_views(tags@)),
        tag_views(r.1@) == sp_connections_of(tag_views(tags@)),
    decreases tags@.len(),
{
    let mut tags = tags;
    if tags.len() == 0 {
        (Vec::new(), Vec::new())
    } else {
        let ghost orig = tags@;
        let t = tags.remove(0);
        let ghost tv = t@;
        proof {
            assert(seq![t] + tags@ =~= orig);
            assert(tag_views(orig).drop_first() =~= tag_views(tags@));
        }
        let (mut ns, mut cs) = classify_scene(tags);
        match t._type {
            TagType::Node => {
                let ghost old_ns = ns@;
                ns.insert(0, t);
                proof {
                    assert(ns@.drop_first() =~= old_ns);
                }
            },
            TagType::Connection => {
                let ghost old_cs = cs@;
                cs.insert(0, t);
                proof {
                    assert(cs@.drop_first() =~= old_cs);
                }
            },
            _ => (),
        }
        (ns, cs)
    }
}

/// Parse a scene document.  On success the returned position is the first
/// unconsumed character (trailing text that is no tag is left there).
pub fn parse_tscn_file(s: &str) -> (r: Result<(TSCNFile, usize), ParseError>)
    ensures
        (match r {
            Ok((doc, e)) => sp_parse_scene(s@) == Ok::<_, ErrM>((doc@, e as int)) && e <= s@.len(),
            Err(pe) => sp_parse_scene(s@) == Err::<(DocM, int), _>(pe@),
        }),
{
    let (header, p1) = match read_tag(s, 0, Some(TagType::GdScene)) {
        Err(e) => {
            return Err(e);
        },
        Ok(x) => x,
    };
    let ls = load_steps_of(&header);
    let cnt = wrap_count(ls);
    let (rtags, p2) = match read_n_tags(s, p1, cnt) {
        Err(e) => {
            return Err(e);
        },
        Ok(x) => x,
    };
    let (ext_resources, sub_resources) = partition_resources(rtags);
    let (rest, p3) = read_greedy(s, p2);
    let (nodes, connections) = classify_scene(rest);
    Ok((TSCNFile { header, ext_resources, sub_resources, nodes, connections }, p3))
}

/// Parse a standalone resource document: same phases as a scene, but the
/// header is `gd_resource`, every remaining tag is kept as a node, and
/// `connections` is always empty.
pub fn parse_tres_file(s: &str) -> (r: Result<(TSCNFile, usize), ParseError>)
    ensures
        (match r {
            Ok((doc, e)) => sp_parse_resource(s@) == Ok::<_, ErrM>((doc@, e as int)) && e
                <= s@.len(),
            Err(pe) => sp_parse_resource(s@) == Err::<(DocM, int), _>(pe@),
        }),
{
    let (header, p1) = match read_tag(s, 0, Some(TagType::GdResource)) {
        Err(e) => {
            return Err(e);
        },
        Ok(x) => x,
    };
    let ls = load_steps_of(&header);
    let cnt = wrap_count(ls);
    let (rtags, p2) = match read_n_tags(s, p1, cnt) {
        Err(e) => {
            return Err(e);
        },
        Ok(x) => x,
    };
    let (ext_resources, sub_resources) = partition_resources(rtags);
    let (nodes, p3) = read_greedy(s, p2);
    proof {
        assert(tag_views(Seq::<Tag>::empty()) =~= Seq::<TagM>::empty());
    }
    Ok(
        (
            TSCNFile {
                header,
                ext_resources,
                sub_resources,
                nodes,
                connections: Vec::new(),
            },
            p3,
        ),
    )
}

} // verus!
