//! The flat symbol-documentation model used by the package listing and
//! tool front ends: a manifest, the extracted symbols, and the prose
//! documentation records attached to them.

use vstd::prelude::*;

verus! {

/// The manifest of one documentation package.
#[derive(Debug, Clone, PartialEq, Eq)]
pub struct Manifest {
    pub docpack_format: u32,
    pub project: ProjectInfo,
    pub generated_at: String,
    pub language_summary: Vec<(String, u32)>,
    pub stats: Stats,
}

/// The project a package documents.
#[derive(Debug, Clone, PartialEq, Eq)]
pub struct ProjectInfo {
    pub name: String,
    pub version: String,
    pub repo: String,
    pub commit: String,
}

/// Extraction statistics of one package.
#[derive(Debug, Clone, PartialEq, Eq)]
pub struct Stats {
    pub symbols_extracted: u32,
    pub docs_generated: u32,
}

/// One extracted symbol.
#[derive(Debug, Clone, PartialEq, Eq)]
pub struct Symbol {
    pub id: String,
    pub kind: String,
    pub file: String,
    pub line: usize,
    pub signature: String,
    pub doc_id: String,
}

/// The prose documentation of one symbol.
#[derive(Debug, Clone, PartialEq, Eq)]
pub struct Documentation {
    pub symbol: String,
    pub summary: String,
    pub description: String,
    pub parameters: Vec<Parameter>,
    pub returns: String,
    pub example: String,
    pub notes: Vec<String>,
}

/// One documented parameter.
#[derive(Debug, Clone, PartialEq, Eq)]
pub struct Parameter {
    pub name: String,
    pub param_type: String,
    pub description: String,
}

/// A discovered package on disk, as shown by the listing front end.
#[derive(Debug, Clone, PartialEq, Eq)]
pub struct DocpackInfo {
    pub path: String,
    pub name: String,
    pub version: String,
    pub ecosystem: String,
    pub entry_count: usize,
}

} // verus!
