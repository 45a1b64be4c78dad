//! The project-settings document.

use crate::strmap::StrMap;
use crate::values::{GodotValue, Val};
use vstd::prelude::*;

verus! {

/// The parameters of one section.
pub type GodotFileParameters = StrMap<GodotValue>;

/// The model of a parsed project-settings file.
pub struct ProjM {
    pub config_version: u32,
    pub sections: Map<Seq<char>, Map<Seq<char>, Val>>,
}

/// A parsed project-settings file: the `config_version` number and the
/// sections, each a parameter map.  Section and parameter order is not
/// part of the model; duplicate names overwrite (last write wins — the
/// inverse of the resource-id rule of the scene dialect).
#[derive(Debug, PartialEq, Eq)]
pub struct ProjectFile {
    pub config_version: u32,
    pub sections: StrMap<GodotFileParameters>,
}

impl View for ProjectFile {
    type V = ProjM;

    open spec fn view(&self) -> ProjM {
        ProjM { config_version: self.config_version, sections: self.sections@ }
    }
}

} // verus!
