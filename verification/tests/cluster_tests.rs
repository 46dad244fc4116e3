use localdoc::cluster::{
    cluster_summaries, compute_cluster_relationships, intensity_bucket, intensity_bucket_with,
};
use localdoc::types::{
    ClusterNode, DocpackGraph, Edge, EdgeKind, FunctionNode, GraphMetadata, Location, Node,
    NodeKind, NodeMetadata, TypeKind, TypeNode,
};

fn loc() -> Location {
    Location { file: "lib.rs".to_string(), start_line: 1, end_line: 2, start_col: 0, end_col: 0 }
}

fn meta(complexity: Option<u32>) -> NodeMetadata {
    NodeMetadata {
        complexity,
        fan_in: 0,
        fan_out: 0,
        is_public_api: false,
        docstring: None,
        tags: vec![],
        source_snippet: None,
    }
}

fn function_node(id: &str, complexity: Option<u32>) -> Node {
    Node {
        id: id.to_string(),
        kind: NodeKind::Function(FunctionNode {
            name: id.to_string(),
            signature: "f()".to_string(),
            is_public: true,
            is_async: false,
            is_method: false,
            parameters: vec![],
            return_type: None,
        }),
        location: loc(),
        metadata: meta(complexity),
    }
}

fn type_node(id: &str) -> Node {
    Node {
        id: id.to_string(),
        kind: NodeKind::Type(TypeNode {
            name: id.to_string(),
            kind: TypeKind::Struct,
            is_public: true,
            fields: vec![],
            methods: vec![],
        }),
        location: loc(),
        metadata: meta(None),
    }
}

fn cluster_node(id: &str, members: Vec<&str>, centroid: Option<Vec<i64>>) -> Node {
    Node {
        id: id.to_string(),
        kind: NodeKind::Cluster(ClusterNode {
            name: id.to_string(),
            topic: None,
            members: members.into_iter().map(|m| m.to_string()).collect(),
            keywords: vec!["kw".to_string()],
            centroid,
        }),
        location: loc(),
        metadata: meta(None),
    }
}

fn graph(nodes: Vec<Node>, edges: Vec<Edge>) -> DocpackGraph {
    DocpackGraph {
        nodes,
        edges,
        metadata: GraphMetadata {
            repository_name: None,
            total_files: 0,
            total_symbols: 0,
            languages: vec![],
            created_at: String::new(),
        },
    }
}

fn edge(source: &str, target: &str) -> Edge {
    Edge { source: source.to_string(), target: target.to_string(), kind: EdgeKind::Calls }
}

fn six_clusters() -> DocpackGraph {
    // clusters c0..c5, each with one member m0..m5
    let mut nodes = vec![];
    for i in 0..6 {
        nodes.push(function_node(&format!("m{}", i), None));
        nodes.push(cluster_node(&format!("c{}", i), vec![&format!("m{}", i)], None));
    }
    graph(
        nodes,
        vec![
            // one edge in each direction between cluster 2 and cluster 5
            edge("m5", "m2"),
            edge("m2", "m5"),
        ],
    )
}

#[test]
fn canonical_pair_accumulates_both_directions() {
    let g = six_clusters();
    let ids: Vec<String> = (0..6).map(|i| format!("c{}", i)).collect();
    let table = compute_cluster_relationships(&g, &ids);
    // both edges land on the same canonical key (2, 5)
    assert_eq!(table.pairs.len(), 1);
    assert_eq!(table.pairs[0].lo, 2);
    assert_eq!(table.pairs[0].hi, 5);
    assert_eq!(table.pairs[0].weight, 2);
    // reads canonicalize the key as well
    assert_eq!(table.get(2, 5), 2);
    assert_eq!(table.get(5, 2), 2);
    assert_eq!(table.get(0, 1), 0);
}

#[test]
fn same_cluster_and_unclustered_edges_contribute_nothing() {
    let g = graph(
        vec![
            function_node("a", None),
            function_node("b", None),
            function_node("stray", None),
            cluster_node("c0", vec!["a", "b"], None),
        ],
        vec![edge("a", "b"), edge("a", "stray"), edge("stray", "b")],
    );
    let ids = vec!["c0".to_string()];
    let table = compute_cluster_relationships(&g, &ids);
    assert!(table.pairs.is_empty());
}

#[test]
fn overlapping_membership_goes_to_the_last_cluster() {
    // "shared" is listed by c0 and by c1: the later cluster wins it,
    // so the edge runs inside c1 only when both endpoints end there
    let g = graph(
        vec![
            function_node("shared", None),
            function_node("only0", None),
            cluster_node("c0", vec!["shared", "only0"], None),
            cluster_node("c1", vec!["shared"], None),
        ],
        vec![edge("only0", "shared")],
    );
    let ids = vec!["c0".to_string(), "c1".to_string()];
    let table = compute_cluster_relationships(&g, &ids);
    // only0 stays in cluster 0, shared moved to cluster 1
    assert_eq!(table.pairs.len(), 1);
    assert_eq!(table.pairs[0].lo, 0);
    assert_eq!(table.pairs[0].hi, 1);
    assert_eq!(table.pairs[0].weight, 1);
}

#[test]
fn unknown_cluster_ids_contribute_no_members() {
    let g = graph(
        vec![function_node("a", None), cluster_node("c0", vec!["a"], None)],
        vec![edge("a", "a")],
    );
    let ids = vec!["c0".to_string(), "missing".to_string(), "a".to_string()];
    let table = compute_cluster_relationships(&g, &ids);
    assert!(table.pairs.is_empty());
}

#[test]
fn summaries_count_members_by_kind_and_complexity() {
    let g = graph(
        vec![
            function_node("f1", Some(4)),
            function_node("f2", None),
            type_node("t1"),
            cluster_node("c0", vec!["f1", "f2", "t1", "ghost"], Some(vec![400_000, 700_000])),
        ],
        vec![],
    );
    let summaries = cluster_summaries(&g);
    assert_eq!(summaries.len(), 1);
    let s = &summaries[0];
    assert_eq!(s.id, "c0");
    assert_eq!(s.name, "c0");
    assert_eq!(s.keywords, vec!["kw".to_string()]);
    assert_eq!(s.member_count, 4);
    assert_eq!(s.functions, 2);
    assert_eq!(s.types, 1);
    assert_eq!(s.complexity_total, 4);
    assert_eq!(s.complexity_count, 1);
    assert_eq!(s.centroid, Some(vec![400_000, 700_000]));
}

#[test]
fn intensity_buckets_follow_the_legend() {
    assert_eq!(intensity_bucket(1), 0);
    assert_eq!(intensity_bucket(5), 0);
    assert_eq!(intensity_bucket(6), 1);
    assert_eq!(intensity_bucket(10), 1);
    assert_eq!(intensity_bucket(11), 2);
    assert_eq!(intensity_bucket(20), 2);
    assert_eq!(intensity_bucket(21), 3);
    assert_eq!(intensity_bucket_with(7, 2, 6, 8), 2);
}
