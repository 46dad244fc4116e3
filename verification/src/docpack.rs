//! The manifest model of a directory-shaped documentation package:
//! the packing tool, and the counters the packer fills in.

use vstd::prelude::*;

verus! {

/// The tool a package was built for.
#[derive(Debug, Clone, PartialEq, Eq)]
pub struct ToolInfo {
    pub name: String,
    pub version: String,
    pub ecosystem: String,
}

/// Packing counters of one package.
#[derive(Debug, Clone, PartialEq, Eq)]
pub struct PackCounters {
    pub entry_count: usize,
    pub content_hash: String,
}

/// The manifest of a directory-shaped package.
#[derive(Debug, Clone, PartialEq, Eq)]
pub struct Manifest {
    pub tool: ToolInfo,
    pub metadata: PackCounters,
}

impl Manifest {
    /// A fresh manifest for the named tool, with empty counters.
    pub fn new(name: &str, version: &str, ecosystem: &str) -> (r: Self)
        ensures
            r.tool.name@ == name@,
            r.tool.version@ == version@,
            r.tool.ecosystem@ == ecosystem@,
            r.metadata.entry_count == 0,
            r.metadata.content_hash@.len() == 0,
    {
        Manifest {
            tool: ToolInfo {
                name: name.to_owned(),
                version: version.to_owned(),
                ecosystem: ecosystem.to_owned(),
            },
            metadata: PackCounters { entry_count: 0, content_hash: String::new() },
        }
    }
}

} // verus!
