use localdoc::structure::{
    analyze_graph_structure, extract_module_path, StructureChanges, SubtreeMutation,
    DEFAULT_MUTATION_THRESHOLD,
};
use localdoc::types::{
    DocpackGraph, Edge, EdgeKind, FunctionNode, GraphMetadata, Location, Node, NodeKind,
    NodeMetadata,
};

fn loc() -> Location {
    Location { file: "lib.rs".to_string(), start_line: 1, end_line: 2, start_col: 0, end_col: 0 }
}

fn meta() -> NodeMetadata {
    NodeMetadata {
        complexity: None,
        fan_in: 0,
        fan_out: 0,
        is_public_api: false,
        docstring: None,
        tags: vec![],
        source_snippet: None,
    }
}

fn function_node(id: &str) -> Node {
    Node {
        id: id.to_string(),
        kind: NodeKind::Function(FunctionNode {
            name: id.to_string(),
            signature: "f()".to_string(),
            is_public: true,
            is_async: false,
            is_method: false,
            parameters: vec![],
            return_type: None,
        }),
        location: loc(),
        metadata: meta(),
    }
}

fn graph(nodes: Vec<Node>, edges: Vec<Edge>) -> DocpackGraph {
    DocpackGraph {
        nodes,
        edges,
        metadata: GraphMetadata {
            repository_name: None,
            total_files: 0,
            total_symbols: 0,
            languages: vec![],
            created_at: String::new(),
        },
    }
}

fn edge(source: &str, target: &str) -> Edge {
    Edge { source: source.to_string(), target: target.to_string(), kind: EdgeKind::Calls }
}

#[test]
fn module_path_is_the_text_before_the_first_separator() {
    assert_eq!(extract_module_path("core::parse::lex"), Some("core".to_string()));
    assert_eq!(extract_module_path("core::x"), Some("core".to_string()));
    assert_eq!(extract_module_path("flat"), None);
    assert_eq!(extract_module_path(""), None);
    assert_eq!(extract_module_path("::leading"), Some("".to_string()));
    assert_eq!(extract_module_path("a:b"), None);
}

#[test]
fn two_changes_stay_below_the_threshold() {
    let old = graph(vec![function_node("m::a"), function_node("m::b")], vec![]);
    let new = graph(vec![], vec![]);
    let r = analyze_graph_structure(&old, &new, DEFAULT_MUTATION_THRESHOLD);
    assert!(r.heavily_mutated_subtrees.is_empty());
}

#[test]
fn three_changes_reach_the_threshold() {
    let old = graph(vec![function_node("m::a"), function_node("m::b")], vec![]);
    let new = graph(vec![function_node("m::c"), function_node("other")], vec![]);
    let r = analyze_graph_structure(&old, &new, DEFAULT_MUTATION_THRESHOLD);
    assert_eq!(r.heavily_mutated_subtrees.len(), 1);
    assert_eq!(r.heavily_mutated_subtrees[0].root, "m");
    assert_eq!(r.heavily_mutated_subtrees[0].change_count, 3);
}

#[test]
fn subtrees_rank_by_change_count_descending() {
    let old = graph(
        vec![
            function_node("a::1"),
            function_node("a::2"),
            function_node("a::3"),
            function_node("b::1"),
            function_node("b::2"),
            function_node("b::3"),
            function_node("b::4"),
        ],
        vec![],
    );
    let new = graph(vec![], vec![]);
    let r = analyze_graph_structure(&old, &new, 3);
    assert_eq!(r.heavily_mutated_subtrees.len(), 2);
    assert_eq!(r.heavily_mutated_subtrees[0].root, "b");
    assert_eq!(r.heavily_mutated_subtrees[0].change_count, 4);
    assert_eq!(r.heavily_mutated_subtrees[1].root, "a");
    assert_eq!(r.heavily_mutated_subtrees[1].change_count, 3);
}

#[test]
fn unchanged_common_nodes_do_not_count() {
    // three nodes of one module exist on both sides: not a mutation
    let old = graph(
        vec![function_node("m::a"), function_node("m::b"), function_node("m::c")],
        vec![],
    );
    let new = graph(
        vec![function_node("m::a"), function_node("m::b"), function_node("m::c")],
        vec![],
    );
    let r = analyze_graph_structure(&old, &new, 3);
    assert!(r.heavily_mutated_subtrees.is_empty());
}

#[test]
fn edge_counts_and_delta() {
    let old = graph(vec![function_node("a"), function_node("b")], vec![edge("a", "b")]);
    let new = graph(
        vec![function_node("a"), function_node("b")],
        vec![edge("a", "b"), edge("a", "b"), edge("b", "a")],
    );
    let r = analyze_graph_structure(&old, &new, 3);
    assert_eq!(r.old_edge_count, 1);
    assert_eq!(r.new_edge_count, 3);
    assert_eq!(r.edge_delta(), 2);
    assert!(r.has_significant_changes());
}

#[test]
fn negative_edge_delta() {
    let s = StructureChanges {
        old_edge_count: 5,
        new_edge_count: 2,
        heavily_mutated_subtrees: vec![],
    };
    assert_eq!(s.edge_delta(), -3);
    assert!(s.has_significant_changes());
}

#[test]
fn quiet_structure_is_not_significant() {
    let s = StructureChanges {
        old_edge_count: 4,
        new_edge_count: 4,
        heavily_mutated_subtrees: vec![],
    };
    assert_eq!(s.edge_delta(), 0);
    assert!(!s.has_significant_changes());
}

#[test]
fn subtree_alone_is_significant() {
    let s = StructureChanges {
        old_edge_count: 4,
        new_edge_count: 4,
        heavily_mutated_subtrees: vec![SubtreeMutation {
            root: "m".to_string(),
            change_count: 3,
        }],
    };
    assert!(s.has_significant_changes());
}
