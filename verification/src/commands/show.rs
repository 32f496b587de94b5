//! `glctl show`: one generation.

use vstd::prelude::*;

verus! {

/// Options of `glctl show`.
#[derive(Debug, Clone, PartialEq, Eq)]
pub struct ShowArgs {
    /// The generation to show.
    pub id: String,
    /// Print JSON instead of the stored YAML.
    pub json: bool,
}

} // verus!
