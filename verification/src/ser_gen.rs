//! Helpers for the serializer code generator that accompanies the data
//! model: the expression a generated JSON serializer reads a field
//! through.  A field may carry a `proxy` attribute naming a conversion
//! type; the generated code then serializes the field through that type,
//! and an `Option` field maps the conversion over its content.

use crate::text::str_eq;
use vstd::prelude::*;

verus! {

/// One parsed attribute of a field, e.g. `#[nserde(proxy = "T")]` becomes
/// the token list `["proxy", "T"]`.
#[derive(Debug, PartialEq, Eq)]
pub struct FieldAttribute {
    pub name: String,
    pub tokens: Vec<String>,
}

/// The type of a field, reduced to its base name (`Option`, `Vec`, ...).
#[derive(Debug, PartialEq, Eq)]
pub struct FieldType {
    pub base: String,
}

/// One field of a data type, as the generator sees it.
#[derive(Debug, PartialEq, Eq)]
pub struct Field {
    pub attributes: Vec<FieldAttribute>,
    pub ty: FieldType,
}

/// The proxy type of an attribute list: the second token of the first
/// attribute whose tokens are `proxy` and a type name.
pub open spec fn sp_attrs_proxy(attrs: Seq<FieldAttribute>) -> Option<Seq<char>>
    decreases attrs.len(),
{
    if attrs.len() == 0 {
        None
    } else if attrs[0].tokens@.len() == 2 && attrs[0].tokens@[0]@ == "proxy"@ {
        Some(attrs[0].tokens@[1]@)
    } else {
        sp_attrs_proxy(attrs.drop_first())
    }
}

/// The expression the serializer reads the field through.
pub open spec fn sp_ser_proxy_guard(fieldname: Seq<char>, field: Field) -> Seq<char> {
    match sp_attrs_proxy(field.attributes@) {
        Some(proxy) => if field.ty.base@ == "Option"@ {
            "{"@ + fieldname + ".as_ref().map(|f| {let proxy: "@ + proxy
                + " = Into::into(f);proxy})}"@
        } else {
            "{let proxy: "@ + proxy + " = Into::into(&"@ + fieldname + ");proxy}"@
        },
        None => fieldname,
    }
}

/// The proxy type named by the field's attributes, if any.
fn attrs_proxy(attributes: &Vec<FieldAttribute>) -> (r: Option<&String>)
    ensures
        (match r {
            Some(p) => sp_attrs_proxy(attributes@) == Some(p@),
            None => sp_attrs_proxy(attributes@) is None,
        }),
{
    let n = attributes.len();
    let mut i: usize = 0;
    proof {
        assert(attributes@.skip(0) =~= attributes@);
    }
    while i < n
        invariant
            n == attributes@.len(),
            i <= n,
            sp_attrs_proxy(attributes@) == sp_attrs_proxy(attributes@.skip(i as int)),
        decreases n - i,
    {
        let attr = &attributes[i];
        proof {
            assert(attributes@.skip(i as int)[0] == attributes@[i as int]);
            assert(attributes@.skip(i as int).drop_first() =~= attributes@.skip(i + 1));
        }
        if attr.tokens.len() == 2 && str_eq(attr.tokens[0].as_str(), "proxy") {
            return Some(&attr.tokens[1]);
        }
        i += 1;
    }
    proof {
        assert(attributes@.skip(n as int) =~= Seq::<FieldAttribute>::empty());
    }
    None
}

/// The expression the generated JSON serializer reads `fieldname`
/// through: the field itself, or a conversion through its proxy type.
pub fn ser_proxy_guard(fieldname: &str, field: &Field) -> (r: String)
    ensures
        r@ == sp_ser_proxy_guard(fieldname@, *field),
{
    match attrs_proxy(&field.attributes) {
        Some(proxy) => {
            if str_eq(field.ty.base.as_str(), "Option") {
                let mut out = "{".to_owned();
                out.append(fieldname);
                out.append(".as_ref().map(|f| {let proxy: ");
                out.append(proxy.as_str());
                out.append(" = Into::into(f);proxy})}");
                out
            } else {
                let mut out = "{let proxy: ".to_owned();
                out.append(proxy.as_str());
                out.append(" = Into::into(&");
                out.append(fieldname);
                out.append(");proxy}");
                out
            }
        },
        None => fieldname.to_owned(),
    }
}

} // verus!
