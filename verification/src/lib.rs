//! Differential analysis of code-knowledge graphs.
//!
//! A docpack carries a snapshot of a codebase as a graph of symbols
//! (functions, types, modules, clusters, ...) joined by directed edges.
//! This crate holds the verified core of the `localdoc` tool: the data
//! model for such snapshots, the detectors that compare two snapshots
//! (node additions and removals, signature changes, complexity deltas,
//! cluster drift, documentation changes, structural mutation), and the
//! single-snapshot cluster analysis (inter-cluster edge traffic and the
//! 2-D projection of cluster centroids).
//!
//! Loading a docpack archive, every form of rendering, and the command
//! front ends live outside this crate; they hand the core fully built
//! snapshots and take plain result collections back.

pub mod cluster;
pub mod diff;
pub mod docpack;
pub mod godot;
pub mod locate;
pub mod mcp;
pub mod models;
pub mod project;
pub mod report;
pub mod seqext;
pub mod structure;
pub mod text;
pub mod types;
