//! The fixed manifest used when packing engine reference documentation.

use vstd::prelude::*;

use crate::docpack::Manifest;

verus! {

/// A manifest for a package of engine reference documentation at the
/// given version.
pub fn create_godot_manifest(version: &str) -> (r: Manifest)
    ensures
        r.tool.name@ == "godot"@,
        r.tool.version@ == version@,
        r.tool.ecosystem@ == "game-engine"@,
        r.metadata.entry_count == 0,
        r.metadata.content_hash@.len() == 0,
{
    Manifest::new("godot", version, "game-engine")
}

} // verus!
