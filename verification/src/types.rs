//! The typed in-memory model of one docpack snapshot: nodes, edges,
//! graph metadata, and the optional AI-generated documentation bundle.
//!
//! A snapshot is immutable once built; every analysis in this crate is a
//! pure function over one or two of these values.  Node identifiers are
//! unique within one snapshot's node list, and that uniqueness is the
//! only invariant the analyses rely on (see [`DocpackGraph::wf`]).

use vstd::prelude::*;

verus! {

/// Opaque identifier of a node, unique within a snapshot and stable
/// across snapshots when it denotes the same symbol.  Identity is exact
/// string equality; there is no fuzzy matching across renames.
pub type NodeId = String;

/// Source position of a node.
#[derive(Debug, Clone, PartialEq, Eq)]
pub struct Location {
    pub file: String,
    pub start_line: usize,
    pub end_line: usize,
    pub start_col: usize,
    pub end_col: usize,
}

/// Optional metrics and annotations attached to every node.
#[derive(Debug, Clone, PartialEq, Eq)]
pub struct NodeMetadata {
    pub complexity: Option<u32>,
    pub fan_in: usize,
    pub fan_out: usize,
    pub is_public_api: bool,
    pub docstring: Option<String>,
    pub tags: Vec<String>,
    pub source_snippet: Option<String>,
}

/// A formal parameter of a function node.
#[derive(Debug, Clone, PartialEq, Eq)]
pub struct Parameter {
    pub name: String,
    pub param_type: Option<String>,
    pub is_mutable: bool,
}

/// A field of a type node.
#[derive(Debug, Clone, PartialEq, Eq)]
pub struct Field {
    pub name: String,
    pub field_type: Option<String>,
    pub is_public: bool,
}

#[derive(Debug, Clone, PartialEq, Eq)]
pub struct FunctionNode {
    pub name: String,
    pub signature: String,
    pub is_public: bool,
    pub is_async: bool,
    pub is_method: bool,
    pub parameters: Vec<Parameter>,
    pub return_type: Option<String>,
}

#[derive(Debug, Clone, PartialEq, Eq)]
pub enum TypeKind {
    Struct,
    Class,
    Enum,
    Interface,
    Trait,
    Union,
    TypeAlias,
}

#[derive(Debug, Clone, PartialEq, Eq)]
pub struct TypeNode {
    pub name: String,
    pub kind: TypeKind,
    pub is_public: bool,
    pub fields: Vec<Field>,
    pub methods: Vec<String>,
}

#[derive(Debug, Clone, PartialEq, Eq)]
pub struct TraitNode {
    pub name: String,
    pub is_public: bool,
    pub methods: Vec<String>,
    pub implementors: Vec<String>,
}

#[derive(Debug, Clone, PartialEq, Eq)]
pub struct ModuleNode {
    pub name: String,
    pub path: String,
    pub is_public: bool,
    pub children: Vec<NodeId>,
}

#[derive(Debug, Clone, PartialEq, Eq)]
pub struct ConstantNode {
    pub name: String,
    pub value_type: Option<String>,
    pub is_public: bool,
}

#[derive(Debug, Clone, PartialEq, Eq)]
pub struct FileNode {
    pub path: String,
    pub language: String,
    pub size_bytes: usize,
    pub line_count: usize,
    pub symbols: Vec<NodeId>,
}

/// A semantic grouping of nodes discovered by the embedding pipeline.
///
/// The centroid, when present, is a vector in embedding space with each
/// component stored in fixed-point form (the loader scales the raw
/// floating-point coordinates to integers before the core sees them).
/// Only the first two components are ever read, by the 2-D projection.
#[derive(Debug, Clone, PartialEq, Eq)]
pub struct ClusterNode {
    pub name: String,
    pub topic: Option<String>,
    pub members: Vec<NodeId>,
    pub keywords: Vec<String>,
    pub centroid: Option<Vec<i64>>,
}

#[derive(Debug, Clone, PartialEq, Eq)]
pub struct PackageNode {
    pub name: String,
    pub version: Option<String>,
    pub modules: Vec<NodeId>,
}

#[derive(Debug, Clone, PartialEq, Eq)]
pub enum MacroType {
    Declarative,
    Procedural,
    Derive,
    Attribute,
}

#[derive(Debug, Clone, PartialEq, Eq)]
pub struct MacroNode {
    pub name: String,
    pub is_public: bool,
    pub macro_type: MacroType,
    pub pattern: Option<String>,
}

/// The closed set of node variants; every comparison site matches on it
/// exhaustively, so a new kind forces each consumer to be revisited.
#[derive(Debug, Clone, PartialEq, Eq)]
pub enum NodeKind {
    Function(FunctionNode),
    Type(TypeNode),
    Trait(TraitNode),
    Module(ModuleNode),
    Constant(ConstantNode),
    File(FileNode),
    Cluster(ClusterNode),
    Package(PackageNode),
    Macro(MacroNode),
}

/// One symbol of the graph.
#[derive(Debug, Clone, PartialEq, Eq)]
pub struct Node {
    pub id: NodeId,
    pub kind: NodeKind,
    pub location: Location,
    pub metadata: NodeMetadata,
}

/// The closed set of edge variants.
#[derive(Debug, Clone, PartialEq, Eq, Hash)]
pub enum EdgeKind {
    Calls,
    Imports,
    TypeReference,
    DataFlow,
    ModuleOwnership,
    TraitImplementation,
    Inheritance,
    MethodOf,
    DefinedIn,
    InferredType,
    TraitMethodCall,
    MethodDispatch,
    MacroExpansion,
    TraitProvides,
}

/// A directed edge between two nodes.  Duplicates are permitted and each
/// is counted independently by every analysis.
#[derive(Debug, Clone, PartialEq, Eq)]
pub struct Edge {
    pub source: NodeId,
    pub target: NodeId,
    pub kind: EdgeKind,
}

/// Whole-graph metadata carried inside a snapshot.
#[derive(Debug, Clone, PartialEq, Eq)]
pub struct GraphMetadata {
    pub repository_name: Option<String>,
    pub total_files: usize,
    pub total_symbols: usize,
    pub languages: Vec<String>,
    pub created_at: String,
}

/// One fully loaded, immutable graph snapshot.
#[derive(Debug, Clone, PartialEq, Eq)]
pub struct DocpackGraph {
    pub nodes: Vec<Node>,
    pub edges: Vec<Edge>,
    pub metadata: GraphMetadata,
}

/// Metadata of the package container a snapshot was loaded from.
#[derive(Debug, Clone, PartialEq, Eq)]
pub struct PackageMetadata {
    pub version: String,
    pub generator: String,
    pub source: String,
    pub generated_at: String,
    pub files_included: usize,
    pub total_size_bytes: usize,
    pub format: String,
    pub contents: Vec<(String, String)>,
}

/// AI-generated documentation of one symbol.
#[derive(Debug, Clone, PartialEq, Eq)]
pub struct SymbolDocumentation {
    pub node_id: NodeId,
    pub purpose: String,
    pub explanation: String,
    pub complexity_notes: Option<String>,
    pub usage_hints: Option<String>,
    pub caller_references: Vec<String>,
    pub callee_references: Vec<String>,
    pub semantic_cluster: Option<String>,
}

/// AI-generated overview of one module.
#[derive(Debug, Clone, PartialEq, Eq)]
pub struct ModuleOverview {
    pub module_name: String,
    pub responsibilities: String,
    pub key_symbols: Vec<String>,
    pub interactions: String,
}

/// AI-generated overview of the whole system.
#[derive(Debug, Clone, PartialEq, Eq)]
pub struct ArchitectureOverview {
    pub overview: String,
    pub system_behavior: String,
    pub data_flow: String,
    pub key_components: Vec<String>,
}

/// The optional documentation bundle of one snapshot; zero or one per
/// snapshot.  Symbol summaries are keyed by the `node_id` field of each
/// entry, unique within one bundle (see [`Documentation::wf`]).
#[derive(Debug, Clone, PartialEq, Eq)]
pub struct Documentation {
    pub symbol_summaries: Vec<SymbolDocumentation>,
    pub module_overviews: Vec<ModuleOverview>,
    pub architecture_overview: ArchitectureOverview,
    pub total_tokens_used: usize,
}

impl Node {
    /// The display name of a node, drawn from its kind-specific payload.
    pub open spec fn spec_name(&self) -> Seq<char> {
        match self.kind {
            NodeKind::Function(f) => f.name@,
            NodeKind::Type(t) => t.name@,
            NodeKind::Trait(t) => t.name@,
            NodeKind::Module(m) => m.name@,
            NodeKind::Constant(c) => c.name@,
            NodeKind::File(f) => f.path@,
            NodeKind::Cluster(c) => c.name@,
            NodeKind::Package(p) => p.name@,
            NodeKind::Macro(m) => m.name@,
        }
    }

    pub fn name(&self) -> (r: String)
        ensures
            r@ == self.spec_name(),
    {
        match &self.kind {
            NodeKind::Function(f) => f.name.clone(),
            NodeKind::Type(t) => t.name.clone(),
            NodeKind::Trait(t) => t.name.clone(),
            NodeKind::Module(m) => m.name.clone(),
            NodeKind::Constant(c) => c.name.clone(),
            NodeKind::File(f) => f.path.clone(),
            NodeKind::Cluster(c) => c.name.clone(),
            NodeKind::Package(p) => p.name.clone(),
            NodeKind::Macro(m) => m.name.clone(),
        }
    }

    /// Whether the node is visible outside its defining scope; files,
    /// clusters and packages count as always public.
    pub open spec fn spec_is_public(&self) -> bool {
        match self.kind {
            NodeKind::Function(f) => f.is_public,
            NodeKind::Type(t) => t.is_public,
            NodeKind::Trait(t) => t.is_public,
            NodeKind::Module(m) => m.is_public,
            NodeKind::Constant(c) => c.is_public,
            NodeKind::Macro(m) => m.is_public,
            NodeKind::File(_) => true,
            NodeKind::Cluster(_) => true,
            NodeKind::Package(_) => true,
        }
    }

    pub fn is_public(&self) -> (r: bool)
        ensures
            r == self.spec_is_public(),
    {
        match &self.kind {
            NodeKind::Function(f) => f.is_public,
            NodeKind::Type(t) => t.is_public,
            NodeKind::Trait(t) => t.is_public,
            NodeKind::Module(m) => m.is_public,
            NodeKind::Constant(c) => c.is_public,
            NodeKind::Macro(m) => m.is_public,
            NodeKind::File(_) => true,
            NodeKind::Cluster(_) => true,
            NodeKind::Package(_) => true,
        }
    }

    /// The lower-case label of a node's kind, as shown in listings.
    pub open spec fn spec_kind_str(&self) -> Seq<char> {
        match self.kind {
            NodeKind::Function(_) => "function"@,
            NodeKind::Type(_) => "type"@,
            NodeKind::Trait(_) => "trait"@,
            NodeKind::Module(_) => "module"@,
            NodeKind::Constant(_) => "constant"@,
            NodeKind::File(_) => "file"@,
            NodeKind::Cluster(_) => "cluster"@,
            NodeKind::Package(_) => "package"@,
            NodeKind::Macro(_) => "macro"@,
        }
    }

    pub fn kind_str(&self) -> (r: &'static str)
        ensures
            r@ == self.spec_kind_str(),
    {
        match &self.kind {
            NodeKind::Function(_) => "function",
            NodeKind::Type(_) => "type",
            NodeKind::Trait(_) => "trait",
            NodeKind::Module(_) => "module",
            NodeKind::Constant(_) => "constant",
            NodeKind::File(_) => "file",
            NodeKind::Cluster(_) => "cluster",
            NodeKind::Package(_) => "package",
            NodeKind::Macro(_) => "macro",
        }
    }
}

impl DocpackGraph {
    /// Node identifiers are unique within one snapshot's node list.
    pub open spec fn wf(&self) -> bool {
        forall|i: int, j: int|
            0 <= i < self.nodes@.len() && 0 <= j < self.nodes@.len() && i != j
                ==> self.nodes@[i].id@ != self.nodes@[j].id@
    }

    /// Whether some node of the snapshot carries the given identifier.
    pub open spec fn spec_has_node(&self, id: Seq<char>) -> bool {
        exists|i: int| 0 <= i < self.nodes@.len() && self.nodes@[i].id@ == id
    }

    /// The position of the node with the given identifier.
    pub open spec fn spec_node_index(&self, id: Seq<char>) -> int {
        choose|i: int| 0 <= i < self.nodes@.len() && self.nodes@[i].id@ == id
    }

    /// The node with the given identifier.
    pub open spec fn spec_node(&self, id: Seq<char>) -> Node {
        self.nodes@[self.spec_node_index(id)]
    }

    /// In a well-formed snapshot, any position holding the identifier is
    /// the position [`DocpackGraph::spec_node_index`] denotes.
    pub proof fn lemma_node_index_unique(&self, id: Seq<char>, i: int)
        requires
            self.wf(),
            0 <= i < self.nodes@.len(),
            self.nodes@[i].id@ == id,
        ensures
            self.spec_node_index(id) == i,
            self.spec_node(id) == self.nodes@[i],
            self.spec_has_node(id),
    {
        assert(self.spec_has_node(id));
        let j = self.spec_node_index(id);
        if j != i {
            assert(self.nodes@[i].id@ != self.nodes@[j].id@);
        }
    }

    /// Linear lookup of a node by identifier.
    pub fn find_node(&self, id: &NodeId) -> (r: Option<&Node>)
        requires
            self.wf(),
        ensures
            match r {
                Some(n) => self.spec_has_node(id@) && *n == self.spec_node(id@),
                None => !self.spec_has_node(id@),
            },
    {
        let n = self.nodes.len();
        for i in 0..n
            invariant
                n == self.nodes@.len(),
                self.wf(),
                forall|k: int| 0 <= k < i ==> self.nodes@[k].id@ != id@,
        {
            if self.nodes[i].id == *id {
                proof {
                    self.lemma_node_index_unique(id@, i as int);
                }
                return Some(&self.nodes[i]);
            }
        }
        None
    }
}

impl Documentation {
    /// Symbol summaries are keyed by `node_id`, unique within the bundle.
    pub open spec fn wf(&self) -> bool {
        forall|i: int, j: int|
            0 <= i < self.symbol_summaries@.len() && 0 <= j < self.symbol_summaries@.len() && i != j
                ==> self.symbol_summaries@[i].node_id@ != self.symbol_summaries@[j].node_id@
    }

    /// Whether the bundle documents the given symbol.
    pub open spec fn spec_has_summary(&self, id: Seq<char>) -> bool {
        exists|i: int|
            0 <= i < self.symbol_summaries@.len() && self.symbol_summaries@[i].node_id@ == id
    }

    /// The position of the summary for the given symbol.
    pub open spec fn spec_summary_index(&self, id: Seq<char>) -> int {
        choose|i: int|
            0 <= i < self.symbol_summaries@.len() && self.symbol_summaries@[i].node_id@ == id
    }

    /// The summary for the given symbol.
    pub open spec fn spec_summary(&self, id: Seq<char>) -> SymbolDocumentation {
        self.symbol_summaries@[self.spec_summary_index(id)]
    }

    /// In a well-formed bundle, any position holding the identifier is
    /// the position [`Documentation::spec_summary_index`] denotes.
    pub proof fn lemma_summary_index_unique(&self, id: Seq<char>, i: int)
        requires
            self.wf(),
            0 <= i < self.symbol_summaries@.len(),
            self.symbol_summaries@[i].node_id@ == id,
        ensures
            self.spec_summary_index(id) == i,
            self.spec_summary(id) == self.symbol_summaries@[i],
            self.spec_has_summary(id),
    {
        assert(self.spec_has_summary(id));
        let j = self.spec_summary_index(id);
        if j != i {
            assert(self.symbol_summaries@[i].node_id@ != self.symbol_summaries@[j].node_id@);
        }
    }

    /// Linear lookup of a symbol summary by identifier.
    pub fn find_summary(&self, id: &NodeId) -> (r: Option<&SymbolDocumentation>)
        requires
            self.wf(),
        ensures
            match r {
                Some(d) => self.spec_has_summary(id@) && *d == self.spec_summary(id@),
                None => !self.spec_has_summary(id@),
            },
    {
        let n = self.symbol_summaries.len();
        for i in 0..n
            invariant
                n == self.symbol_summaries@.len(),
                self.wf(),
                forall|k: int| 0 <= k < i ==> self.symbol_summaries@[k].node_id@ != id@,
        {
            if self.symbol_summaries[i].node_id == *id {
                proof {
                    self.lemma_summary_index_unique(id@, i as int);
                }
                return Some(&self.symbol_summaries[i]);
            }
        }
        None
    }
}

} // verus!
