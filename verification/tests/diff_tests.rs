use localdoc::diff::{
    compute_complexity_deltas, compute_node_diff, detect_cluster_drift,
    detect_meaningful_doc_changes, detect_signature_changes,
};
use localdoc::report::{compute_diff_report, partition_deltas, sort_deltas_by_magnitude};
use localdoc::types::{
    ArchitectureOverview, DocpackGraph, Documentation, Field, FunctionNode, GraphMetadata,
    Location, Node, NodeKind, NodeMetadata, SymbolDocumentation, TypeNode,
};

fn loc() -> Location {
    Location { file: "lib.rs".to_string(), start_line: 1, end_line: 2, start_col: 0, end_col: 0 }
}

fn meta(complexity: Option<u32>) -> NodeMetadata {
    NodeMetadata {
        complexity,
        fan_in: 0,
        fan_out: 0,
        is_public_api: false,
        docstring: None,
        tags: vec![],
        source_snippet: None,
    }
}

fn function_node(id: &str, signature: &str, complexity: Option<u32>) -> Node {
    Node {
        id: id.to_string(),
        kind: NodeKind::Function(FunctionNode {
            name: id.to_string(),
            signature: signature.to_string(),
            is_public: true,
            is_async: false,
            is_method: false,
            parameters: vec![],
            return_type: None,
        }),
        location: loc(),
        metadata: meta(complexity),
    }
}

fn type_node(id: &str, fields: Vec<Field>) -> Node {
    Node {
        id: id.to_string(),
        kind: NodeKind::Type(TypeNode {
            name: id.to_string(),
            kind: localdoc::types::TypeKind::Struct,
            is_public: true,
            fields,
            methods: vec![],
        }),
        location: loc(),
        metadata: meta(None),
    }
}

fn graph(nodes: Vec<Node>) -> DocpackGraph {
    DocpackGraph {
        nodes,
        edges: vec![],
        metadata: GraphMetadata {
            repository_name: None,
            total_files: 0,
            total_symbols: 0,
            languages: vec![],
            created_at: String::new(),
        },
    }
}

fn docs(summaries: Vec<SymbolDocumentation>) -> Documentation {
    Documentation {
        symbol_summaries: summaries,
        module_overviews: vec![],
        architecture_overview: ArchitectureOverview {
            overview: String::new(),
            system_behavior: String::new(),
            data_flow: String::new(),
            key_components: vec![],
        },
        total_tokens_used: 0,
    }
}

fn summary(id: &str, purpose: &str, explanation: &str, cluster: Option<&str>) -> SymbolDocumentation {
    SymbolDocumentation {
        node_id: id.to_string(),
        purpose: purpose.to_string(),
        explanation: explanation.to_string(),
        complexity_notes: None,
        usage_hints: None,
        caller_references: vec![],
        callee_references: vec![],
        semantic_cluster: cluster.map(|c| c.to_string()),
    }
}

#[test]
fn partition_of_disjoint_and_common_ids() {
    let old = graph(vec![
        function_node("a", "f()", None),
        function_node("b", "g()", None),
        function_node("c", "h()", None),
    ]);
    let new = graph(vec![
        function_node("b", "g()", None),
        function_node("c", "h()", None),
        function_node("d", "k()", None),
    ]);
    let d = compute_node_diff(&old, &new);
    assert_eq!(d.added, vec!["d".to_string()]);
    assert_eq!(d.removed, vec!["a".to_string()]);
    assert_eq!(d.common, vec!["b".to_string(), "c".to_string()]);
    // the partition counting law on concrete values
    assert_eq!(d.added.len() + d.common.len(), new.nodes.len());
    assert_eq!(d.removed.len() + d.common.len(), old.nodes.len());
}

#[test]
fn identical_snapshots_report_nothing() {
    let g = graph(vec![
        function_node("a", "f()", Some(3)),
        type_node("t", vec![Field { name: "p".to_string(), field_type: None, is_public: true }]),
    ]);
    let g2 = graph(vec![
        function_node("a", "f()", Some(3)),
        type_node("t", vec![Field { name: "p".to_string(), field_type: None, is_public: true }]),
    ]);
    let bundle = docs(vec![summary("a", "adds", "adds numbers", Some("math"))]);
    let bundle2 = docs(vec![summary("a", "adds", "adds numbers", Some("math"))]);
    let r = compute_diff_report(&g, &g2, Some(&bundle), Some(&bundle2), 3);
    assert!(r.node_diff.added.is_empty());
    assert!(r.node_diff.removed.is_empty());
    assert_eq!(r.node_diff.common.len(), 2);
    assert!(r.signature_changes.is_empty());
    assert!(r.complexity_deltas.is_empty());
    assert!(r.cluster_drifts.is_empty());
    assert!(r.doc_changes.is_empty());
    assert_eq!(r.structure_changes.old_edge_count, r.structure_changes.new_edge_count);
    assert_eq!(r.total_changes, 0);
    assert!(!r.structure_changes.has_significant_changes());
}

#[test]
fn kind_change_is_not_a_signature_change() {
    let old = graph(vec![function_node("x", "f()", None)]);
    let new = graph(vec![type_node("x", vec![])]);
    let d = compute_node_diff(&old, &new);
    assert_eq!(d.common, vec!["x".to_string()]);
    let changes = detect_signature_changes(&old, &new, &d.common);
    assert!(changes.is_empty());
}

#[test]
fn function_signature_change_is_reported_verbatim() {
    let old = graph(vec![function_node("a", "f(x)", None)]);
    let new = graph(vec![function_node("a", "f(x,y)", None)]);
    let d = compute_node_diff(&old, &new);
    let changes = detect_signature_changes(&old, &new, &d.common);
    assert_eq!(changes.len(), 1);
    assert_eq!(changes[0].node_name, "a");
    assert_eq!(changes[0].node_kind, "function");
    assert_eq!(changes[0].old_signature, "f(x)");
    assert_eq!(changes[0].new_signature, "f(x,y)");
}

#[test]
fn type_field_change_reports_synthetic_summary() {
    let f1 = Field { name: "p".to_string(), field_type: None, is_public: true };
    let f2 = Field { name: "q".to_string(), field_type: None, is_public: true };
    let old = graph(vec![type_node("t", vec![f1.clone()])]);
    let new = graph(vec![type_node("t", vec![f1, f2])]);
    let d = compute_node_diff(&old, &new);
    let changes = detect_signature_changes(&old, &new, &d.common);
    assert_eq!(changes.len(), 1);
    assert_eq!(changes[0].old_signature, "t with 1 fields");
    assert_eq!(changes[0].new_signature, "t with 2 fields");
}

#[test]
fn equal_field_lists_report_nothing() {
    let f1 = Field { name: "p".to_string(), field_type: Some("u32".to_string()), is_public: true };
    let old = graph(vec![type_node("t", vec![f1.clone()])]);
    let new = graph(vec![type_node("t", vec![f1])]);
    let d = compute_node_diff(&old, &new);
    assert!(detect_signature_changes(&old, &new, &d.common).is_empty());
}

#[test]
fn complexity_delta_sign_and_partition() {
    let old = graph(vec![function_node("a", "f()", Some(3))]);
    let new = graph(vec![function_node("a", "f()", Some(5))]);
    let d = compute_node_diff(&old, &new);
    let deltas = compute_complexity_deltas(&old, &new, &d.common);
    assert_eq!(deltas.len(), 1);
    assert_eq!(deltas[0].old_complexity, 3);
    assert_eq!(deltas[0].new_complexity, 5);
    assert_eq!(deltas[0].delta, 2);
    let (increased, decreased) = partition_deltas(&deltas);
    assert_eq!(increased.len(), 1);
    assert_eq!(increased[0].node_name, "a");
    assert!(decreased.is_empty());
}

#[test]
fn missing_complexity_on_either_side_is_skipped() {
    let old = graph(vec![
        function_node("a", "f()", Some(3)),
        function_node("b", "g()", None),
        function_node("c", "h()", Some(7)),
    ]);
    let new = graph(vec![
        function_node("a", "f()", None),
        function_node("b", "g()", Some(2)),
        function_node("c", "h()", Some(7)),
    ]);
    let d = compute_node_diff(&old, &new);
    let deltas = compute_complexity_deltas(&old, &new, &d.common);
    assert!(deltas.is_empty());
}

#[test]
fn deltas_rank_by_magnitude_descending() {
    let old = graph(vec![
        function_node("a", "f()", Some(10)),
        function_node("b", "g()", Some(10)),
        function_node("c", "h()", Some(10)),
    ]);
    let new = graph(vec![
        function_node("a", "f()", Some(12)),
        function_node("b", "g()", Some(3)),
        function_node("c", "h()", Some(11)),
    ]);
    let d = compute_node_diff(&old, &new);
    let deltas = compute_complexity_deltas(&old, &new, &d.common);
    let ranked = sort_deltas_by_magnitude(deltas);
    assert_eq!(ranked.len(), 3);
    assert_eq!(ranked[0].node_name, "b");
    assert_eq!(ranked[0].delta, -7);
    assert_eq!(ranked[1].node_name, "a");
    assert_eq!(ranked[2].node_name, "c");
}

#[test]
fn cluster_drift_detects_label_changes_and_absence() {
    let old_docs = docs(vec![
        summary("a", "p", "e", Some("alpha")),
        summary("b", "p", "e", Some("beta")),
        summary("c", "p", "e", None),
        summary("d", "p", "e", Some("delta")),
    ]);
    let new_docs = docs(vec![
        summary("a", "p", "e", Some("gamma")),
        summary("b", "p", "e", Some("beta")),
        summary("c", "p", "e", Some("fresh")),
        // d lacks a summary on the new side: silently skipped
    ]);
    let common: Vec<String> =
        vec!["a".to_string(), "b".to_string(), "c".to_string(), "d".to_string()];
    let drifts = detect_cluster_drift(&old_docs, &new_docs, &common);
    assert_eq!(drifts.len(), 2);
    assert_eq!(drifts[0].node_name, "a");
    assert_eq!(drifts[0].old_cluster.as_deref(), Some("alpha"));
    assert_eq!(drifts[0].new_cluster.as_deref(), Some("gamma"));
    assert_eq!(drifts[1].node_name, "c");
    assert_eq!(drifts[1].old_cluster, None);
    assert_eq!(drifts[1].new_cluster.as_deref(), Some("fresh"));
}

#[test]
fn doc_change_reasons_list_what_applied() {
    let old_docs = docs(vec![
        summary("a", "old purpose", "same", None),
        summary("b", "same", "old explanation", None),
        summary("c", "old", "old", None),
        summary("d", "same", "same", None),
    ]);
    let new_docs = docs(vec![
        summary("a", "new purpose", "same", None),
        summary("b", "same", "new explanation", None),
        summary("c", "new", "new", None),
        summary("d", "same", "same", None),
    ]);
    let common: Vec<String> =
        vec!["a".to_string(), "b".to_string(), "c".to_string(), "d".to_string()];
    let changes = detect_meaningful_doc_changes(&old_docs, &new_docs, &common);
    assert_eq!(changes.len(), 3);
    assert_eq!(changes[0].node_name, "a");
    assert_eq!(changes[0].reason, "purpose changed");
    assert_eq!(changes[0].node_kind, "symbol");
    assert_eq!(changes[1].reason, "explanation updated");
    assert_eq!(changes[2].reason, "purpose changed, explanation updated");
}

#[test]
fn end_to_end_scenario() {
    let old = graph(vec![
        function_node("A", "f(x)", Some(3)),
        type_node("B", vec![Field { name: "p".to_string(), field_type: None, is_public: true }]),
    ]);
    let new = graph(vec![
        function_node("A", "f(x,y)", Some(5)),
        function_node("C", "g()", None),
    ]);
    let r = compute_diff_report(&old, &new, None, None, 3);
    assert_eq!(r.node_diff.added, vec!["C".to_string()]);
    assert_eq!(r.node_diff.removed, vec!["B".to_string()]);
    assert_eq!(r.node_diff.common, vec!["A".to_string()]);
    assert_eq!(r.signature_changes.len(), 1);
    assert_eq!(r.signature_changes[0].old_signature, "f(x)");
    assert_eq!(r.signature_changes[0].new_signature, "f(x,y)");
    assert_eq!(r.complexity_deltas.len(), 1);
    assert_eq!(r.complexity_deltas[0].delta, 2);
    assert!(r.cluster_drifts.is_empty());
    assert!(r.doc_changes.is_empty());
    // added + removed + signature change + complexity delta, no edge drift
    assert_eq!(r.total_changes, 4);
}

#[test]
fn empty_snapshots_diff_cleanly() {
    let old = graph(vec![]);
    let new = graph(vec![]);
    let d = compute_node_diff(&old, &new);
    assert!(d.added.is_empty());
    assert!(d.removed.is_empty());
    assert!(d.common.is_empty());
}

#[test]
fn node_accessors_follow_the_kind() {
    let f = function_node("a", "f()", None);
    assert_eq!(f.name(), "a");
    assert_eq!(f.kind_str(), "function");
    assert!(f.is_public());
    let t = type_node("t", vec![]);
    assert_eq!(t.kind_str(), "type");
}
