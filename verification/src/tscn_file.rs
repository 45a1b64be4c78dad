//! Tags and documents of the scene (`*.tscn`) and resource (`*.tres`)
//! dialects.

use crate::strmap::StrMap;
use crate::values::{GodotValue, Val};
use vstd::prelude::*;

verus! {

/// The closed set of tag types.  A bracket token outside this set is a
/// parse failure, never a new variant.
#[derive(Clone, Copy, Debug, PartialEq, Eq, Hash, Structural)]
pub enum TagType {
    GdScene,
    GdResource,
    ExtResource,
    SubResource,
    Node,
    Resource,
    Connection,
}

/// The textual name of each tag type, as it stands in the brackets.
pub open spec fn sp_tag_type(tok: Seq<char>) -> Option<TagType> {
    if tok == seq!['g', 'd', '_', 's', 'c', 'e', 'n', 'e'] {
        Some(TagType::GdScene)
    } else if tok == seq!['g', 'd', '_', 'r', 'e', 's', 'o', 'u', 'r', 'c', 'e'] {
        Some(TagType::GdResource)
    } else if tok == seq!['e', 'x', 't', '_', 'r', 'e', 's', 'o', 'u', 'r', 'c', 'e'] {
        Some(TagType::ExtResource)
    } else if tok == seq!['s', 'u', 'b', '_', 'r', 'e', 's', 'o', 'u', 'r', 'c', 'e'] {
        Some(TagType::SubResource)
    } else if tok == seq!['n', 'o', 'd', 'e'] {
        Some(TagType::Node)
    } else if tok == seq!['r', 'e', 's', 'o', 'u', 'r', 'c', 'e'] {
        Some(TagType::Resource)
    } else if tok == seq!['c', 'o', 'n', 'n', 'e', 'c', 't', 'i', 'o', 'n'] {
        Some(TagType::Connection)
    } else {
        None
    }
}

impl TagType {
    /// Parse a tag-type name; any other name is no tag type.
    pub fn from_str(s: &str) -> (r: Option<TagType>)
        ensures
            r == sp_tag_type(s@),
    {
        proof {
            reveal_strlit("gd_scene");
            assert("gd_scene"@ =~= seq!['g', 'd', '_', 's', 'c', 'e', 'n', 'e']);
            reveal_strlit("gd_resource");
            assert("gd_resource"@ =~= seq!['g', 'd', '_', 'r', 'e', 's', 'o', 'u', 'r', 'c', 'e']);
            reveal_strlit("ext_resource");
            assert("ext_resource"@ =~= seq![
                'e',
                'x',
                't',
                '_',
                'r',
                'e',
                's',
                'o',
                'u',
                'r',
                'c',
                'e',
            ]);
            reveal_strlit("sub_resource");
            assert("sub_resource"@ =~= seq![
                's',
                'u',
                'b',
                '_',
                'r',
                'e',
                's',
                'o',
                'u',
                'r',
                'c',
                'e',
            ]);
            reveal_strlit("node");
            assert("node"@ =~= seq!['n', 'o', 'd', 'e']);
            reveal_strlit("resource");
            assert("resource"@ =~= seq!['r', 'e', 's', 'o', 'u', 'r', 'c', 'e']);
            reveal_strlit("connection");
            assert("connection"@ =~= seq!['c', 'o', 'n', 'n', 'e', 'c', 't', 'i', 'o', 'n']);
        }
        if crate::text::str_eq(s, "gd_scene") {
            Some(TagType::GdScene)
        } else if crate::text::str_eq(s, "gd_resource") {
            Some(TagType::GdResource)
        } else if crate::text::str_eq(s, "ext_resource") {
            Some(TagType::ExtResource)
        } else if crate::text::str_eq(s, "sub_resource") {
            Some(TagType::SubResource)
        } else if crate::text::str_eq(s, "node") {
            Some(TagType::Node)
        } else if crate::text::str_eq(s, "resource") {
            Some(TagType::Resource)
        } else if crate::text::str_eq(s, "connection") {
            Some(TagType::Connection)
        } else {
            None
        }
    }

    /// Does a tag of this type carry a property block?  `ExtResource`,
    /// `GdScene` and `GdResource` tags consist of the bracket line alone.
    pub open spec fn sp_carries_props(self) -> bool {
        !(self == TagType::ExtResource || self == TagType::GdScene || self == TagType::GdResource)
    }

    /// Executable counterpart of [`Self::sp_carries_props`].
    pub fn carries_props(self) -> (r: bool)
        ensures
            r == self.sp_carries_props(),
    {
        !(self == TagType::ExtResource || self == TagType::GdScene || self == TagType::GdResource)
    }
}

/// The model of one tag: its type and the attribute and property maps.
pub struct TagM {
    pub ty: TagType,
    pub attrs: Map<Seq<char>, Val>,
    pub props: Map<Seq<char>, Val>,
}

/// One parsed bracketed block: `[type attr=val ...]` plus the following
/// property lines, if the tag type carries any.
#[derive(Debug, PartialEq, Eq)]
pub struct Tag {
    pub _type: TagType,
    pub attrs: StrMap<GodotValue>,
    pub props: StrMap<GodotValue>,
}

impl View for Tag {
    type V = TagM;

    open spec fn view(&self) -> TagM {
        TagM { ty: self._type, attrs: self.attrs@, props: self.props@ }
    }
}

/// The models of a sequence of tags.
pub open spec fn tag_views(ts: Seq<Tag>) -> Seq<TagM>
    decreases ts.len(),
{
    if ts.len() == 0 {
        Seq::empty()
    } else {
        seq![ts[0]@] + tag_views(ts.drop_first())
    }
}

/// The model of a parsed scene or resource document.
pub struct DocM {
    pub header: TagM,
    pub ext_resources: Map<Seq<char>, TagM>,
    pub sub_resources: Map<Seq<char>, TagM>,
    pub nodes: Seq<TagM>,
    pub connections: Seq<TagM>,
}

/// A parsed scene or resource document: the header tag, the resource maps
/// keyed by `id`, and the remaining tags in encounter order.
#[derive(Debug, PartialEq, Eq)]
pub struct TSCNFile {
    pub header: Tag,
    pub ext_resources: StrMap<Tag>,
    pub sub_resources: StrMap<Tag>,
    pub nodes: Vec<Tag>,
    pub connections: Vec<Tag>,
}

impl View for TSCNFile {
    type V = DocM;

    open spec fn view(&self) -> DocM {
        DocM {
            header: self.header@,
            ext_resources: self.ext_resources@,
            sub_resources: self.sub_resources@,
            nodes: tag_views(self.nodes@),
            connections: tag_views(self.connections@),
        }
    }
}

} // verus!
