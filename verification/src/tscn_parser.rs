//! The scene (`*.tscn`) entry point.
//!
//! The scene dialect has a single grammar; this module offers it under its
//! own name while the combined scene/resource module also carries the
//! resource dialect.

use crate::errors::{ErrM, ParseError};
use crate::tscn_file::{DocM, TSCNFile};
use crate::tscn_tres_parser::sp_parse_scene;
use vstd::prelude::*;

verus! {

/// Parse a scene document; see [`crate::tscn_tres_parser::parse_tscn_file`].
pub fn parse_tscn_file(s: &str) -> (r: Result<(TSCNFile, usize), ParseError>)
    ensures
        (match r {
            Ok((doc, e)) => sp_parse_scene(s@) == Ok::<_, ErrM>((doc@, e as int)) && e <= s@.len(),
            Err(pe) => sp_parse_scene(s@) == Err::<(DocM, int), _>(pe@),
        }),
{
    crate::tscn_tres_parser::parse_tscn_file(s)
}

} // verus!
