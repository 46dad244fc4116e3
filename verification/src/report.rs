//! The whole differential analysis of two snapshots, gathered into one
//! report, and the ranking helpers its consumers apply to complexity
//! deltas.

use vstd::prelude::*;

use crate::diff::{
    added_ids, common_ids, complexity_changed_ids, complexity_delta_at, complexity_results_match,
    compute_complexity_deltas, compute_node_diff, detect_cluster_drift,
    detect_meaningful_doc_changes, detect_signature_changes, doc_changed_ids, doc_results_match,
    drift_results_match, drifted_ids, graph_ids, lemma_graph_ids, removed_ids, sig_change_at,
    sig_changed_ids, sig_results_match, ClusterDrift, ComplexityDelta, DocChange, NodeDiff,
    SignatureChange,
};
use crate::seqext::{lemma_filter_push, lemma_filter_sub};
use crate::structure::{analyze_graph_structure, module_tally, StructureChanges};
use crate::text::seq_views;
use crate::types::{DocpackGraph, Documentation};

verus! {

/// The magnitude of a complexity delta.
pub open spec fn delta_magnitude(d: ComplexityDelta) -> int {
    if d.delta >= 0 {
        d.delta as int
    } else {
        -(d.delta as int)
    }
}

/// Splits complexity deltas into the increased ones (positive delta)
/// and the decreased ones (negative delta), keeping each group's
/// order.
pub fn partition_deltas(deltas: &Vec<ComplexityDelta>) -> (r: (
    Vec<ComplexityDelta>,
    Vec<ComplexityDelta>,
))
    ensures
        r.0@ == deltas@.filter(|d: ComplexityDelta| d.delta > 0),
        r.1@ == deltas@.filter(|d: ComplexityDelta| d.delta < 0),
{
    let mut increased: Vec<ComplexityDelta> = Vec::new();
    let mut decreased: Vec<ComplexityDelta> = Vec::new();
    proof {
        assert(increased@ =~= deltas@.take(0).filter(|d: ComplexityDelta| d.delta > 0));
        assert(decreased@ =~= deltas@.take(0).filter(|d: ComplexityDelta| d.delta < 0));
    }
    let n = deltas.len();
    for i in 0..n
        invariant
            n == deltas@.len(),
            increased@ == deltas@.take(i as int).filter(|d: ComplexityDelta| d.delta > 0),
            decreased@ == deltas@.take(i as int).filter(|d: ComplexityDelta| d.delta < 0),
    {
        proof {
            assert(deltas@.take(i + 1) =~= deltas@.take(i as int).push(deltas@[i as int]));
            lemma_filter_push(
                deltas@.take(i as int),
                deltas@[i as int],
                |d: ComplexityDelta| d.delta > 0,
            );
            lemma_filter_push(
                deltas@.take(i as int),
                deltas@[i as int],
                |d: ComplexityDelta| d.delta < 0,
            );
        }
        if deltas[i].delta > 0 {
            increased.push(deltas[i].clone());
        } else if deltas[i].delta < 0 {
            decreased.push(deltas[i].clone());
        }
    }
    proof {
        assert(deltas@.take(n as int) =~= deltas@);
    }
    (increased, decreased)
}

/// Sorts complexity deltas by magnitude, largest first, keeping the
/// same collection of records.
pub fn sort_deltas_by_magnitude(v: Vec<ComplexityDelta>) -> (r: Vec<ComplexityDelta>)
    requires
        forall|i: int|
            0 <= i < v@.len() ==> -0x1_0000_0000 < (#[trigger] v@[i]).delta < 0x1_0000_0000,
    ensures
        r@.to_multiset() == v@.to_multiset(),
        r@.len() == v@.len(),
        forall|i: int, j: int|
            0 <= i < j < r@.len() ==> delta_magnitude(#[trigger] r@[i]) >= delta_magnitude(
                #[trigger] r@[j],
            ),
{
    broadcast use vstd::seq_lib::group_to_multiset_ensures;

    let mut src = v;
    let mut out: Vec<ComplexityDelta> = Vec::new();
    proof {
        assert(out@.to_multiset().add(src@.to_multiset()) =~= v@.to_multiset());
    }
    loop
        invariant
            out@.to_multiset().add(src@.to_multiset()) == v@.to_multiset(),
            out@.len() + src@.len() == v@.len(),
            forall|i: int|
                0 <= i < src@.len() ==> -0x1_0000_0000 < (#[trigger] src@[i]).delta
                    < 0x1_0000_0000,
            forall|i: int, j: int|
                0 <= i < j < out@.len() ==> delta_magnitude(#[trigger] out@[i]) >= delta_magnitude(
                    #[trigger] out@[j],
                ),
            forall|i: int, j: int|
                0 <= i < out@.len() && 0 <= j < src@.len() ==> delta_magnitude(#[trigger] out@[i])
                    >= delta_magnitude(#[trigger] src@[j]),
        decreases src@.len(),
    {
        broadcast use vstd::seq_lib::group_to_multiset_ensures;

        if src.len() == 0 {
            proof {
                assert(src@.to_multiset() =~= vstd::multiset::Multiset::<ComplexityDelta>::empty());
                assert(out@.to_multiset() =~= v@.to_multiset());
            }
            return out;
        }
        let mut best: usize = 0;
        let n = src.len();
        let mut best_mag: i64 = if src[0].delta >= 0 {
            src[0].delta
        } else {
            -src[0].delta
        };
        for j in 1..n
            invariant
                n == src@.len(),
                best < n,
                forall|i: int|
                    0 <= i < src@.len() ==> -0x1_0000_0000 < (#[trigger] src@[i]).delta
                        < 0x1_0000_0000,
                best_mag == delta_magnitude(src@[best as int]),
                forall|k: int|
                    0 <= k < j ==> delta_magnitude(#[trigger] src@[k]) <= best_mag,
        {
            let mag: i64 = if src[j].delta >= 0 {
                src[j].delta
            } else {
                -src[j].delta
            };
            if mag > best_mag {
                best = j;
                best_mag = mag;
            }
        }
        let ghost prev_src = src@;
        let ghost prev_out = out@;
        let x = src.remove(best);
        out.push(x);
        proof {
            prev_src.to_multiset_ensures();
            assert(src@.to_multiset() == prev_src.to_multiset().remove(x));
            assert(out@.to_multiset() == prev_out.to_multiset().insert(x));
            assert(prev_src.to_multiset().count(x) >= 1) by {
                assert(prev_src[best as int] == x);
                assert(prev_src.contains(x));
            }
            assert(out@.to_multiset().add(src@.to_multiset()) =~= v@.to_multiset());
            assert forall|i: int, j: int|
                0 <= i < out@.len() && 0 <= j < src@.len() implies delta_magnitude(
                #[trigger] out@[i],
            ) >= delta_magnitude(#[trigger] src@[j]) by {
                assert(src@[j] == if j < best {
                    prev_src[j]
                } else {
                    prev_src[j + 1]
                });
                if i < prev_out.len() {
                    assert(out@[i] == prev_out[i]);
                } else {
                    assert(out@[i] == x);
                }
            }
            assert forall|i: int|
                0 <= i < src@.len() implies -0x1_0000_0000 < (#[trigger] src@[i]).delta
                < 0x1_0000_0000 by {
                assert(src@[i] == if i < best {
                    prev_src[i]
                } else {
                    prev_src[i + 1]
                });
            }
        }
    }
}

/// The complete differential analysis of two snapshots.
#[derive(Debug)]
pub struct DiffReport {
    pub node_diff: NodeDiff,
    pub signature_changes: Vec<SignatureChange>,
    pub complexity_deltas: Vec<ComplexityDelta>,
    pub cluster_drifts: Vec<ClusterDrift>,
    pub doc_changes: Vec<DocChange>,
    pub structure_changes: StructureChanges,
    pub total_changes: usize,
}

/// The total number of detected changes: added and removed nodes,
/// signature changes, complexity deltas, and the magnitude of the
/// edge-count drift.
pub open spec fn spec_total_changes(r: DiffReport, old: DocpackGraph, new: DocpackGraph) -> int {
    r.node_diff.added@.len() + r.node_diff.removed@.len() + r.signature_changes@.len()
        + r.complexity_deltas@.len() + (if new.edges@.len() >= old.edges@.len() {
        new.edges@.len() - old.edges@.len()
    } else {
        old.edges@.len() - new.edges@.len()
    })
}

/// Runs the whole differential analysis: node set differencing, the
/// four per-node detectors, and the structural analysis with the given
/// heavy-mutation threshold.  Cluster drift and documentation changes
/// are computed only when both snapshots carry a documentation bundle;
/// with either absent those result sets are empty, which is not an
/// error.
pub fn compute_diff_report(
    old: &DocpackGraph,
    new: &DocpackGraph,
    old_docs: Option<&Documentation>,
    new_docs: Option<&Documentation>,
    threshold: usize,
) -> (r: DiffReport)
    requires
        old.wf(),
        new.wf(),
        match old_docs {
            Option::Some(d) => d.wf(),
            Option::None => true,
        },
        match new_docs {
            Option::Some(d) => d.wf(),
            Option::None => true,
        },
        old.nodes@.len() + new.nodes@.len() + old.edges@.len() + new.edges@.len() < usize::MAX
            as int / 8,
    ensures
        seq_views(r.node_diff.added@) == added_ids(*old, *new),
        seq_views(r.node_diff.removed@) == removed_ids(*old, *new),
        seq_views(r.node_diff.common@) == common_ids(*old, *new),
        r.node_diff.added@.len() + r.node_diff.common@.len() == new.nodes@.len(),
        r.node_diff.removed@.len() + r.node_diff.common@.len() == old.nodes@.len(),
        sig_results_match(
            *old,
            *new,
            sig_changed_ids(*old, *new, common_ids(*old, *new)),
            r.signature_changes@,
        ),
        complexity_results_match(
            *old,
            *new,
            complexity_changed_ids(*old, *new, common_ids(*old, *new)),
            r.complexity_deltas@,
        ),
        match (old_docs, new_docs) {
            (Option::Some(od), Option::Some(nd)) => drift_results_match(
                *od,
                *nd,
                drifted_ids(*od, *nd, common_ids(*old, *new)),
                r.cluster_drifts@,
            ) && doc_results_match(
                *od,
                *nd,
                doc_changed_ids(*od, *nd, common_ids(*old, *new)),
                r.doc_changes@,
            ),
            _ => r.cluster_drifts@.len() == 0 && r.doc_changes@.len() == 0,
        },
        r.structure_changes.old_edge_count == old.edges@.len(),
        r.structure_changes.new_edge_count == new.edges@.len(),
        forall|i: int|
            0 <= i < r.structure_changes.heavily_mutated_subtrees@.len() ==> module_tally(
                *old,
                *new,
                (#[trigger] r.structure_changes.heavily_mutated_subtrees@[i]).root@,
            ) == r.structure_changes.heavily_mutated_subtrees@[i].change_count
                && r.structure_changes.heavily_mutated_subtrees@[i].change_count >= threshold,
        forall|m: Seq<char>|
            #[trigger] module_tally(*old, *new, m) >= threshold && module_tally(*old, *new, m) >= 1
                ==> exists|i: int|
                0 <= i < r.structure_changes.heavily_mutated_subtrees@.len() && (
                #[trigger] r.structure_changes.heavily_mutated_subtrees@[i]).root@ == m,
        forall|i: int, j: int|
            0 <= i < j < r.structure_changes.heavily_mutated_subtrees@.len() ==> (
            #[trigger] r.structure_changes.heavily_mutated_subtrees@[i]).change_count >= (
            #[trigger] r.structure_changes.heavily_mutated_subtrees@[j]).change_count,
        r.total_changes == spec_total_changes(r, *old, *new),
{
    let node_diff = compute_node_diff(old, new);
    proof {
        lemma_graph_ids(*old);
        lemma_graph_ids(*new);
        lemma_filter_sub(graph_ids(*new), |id: Seq<char>| old.spec_has_node(id));
        assert forall|k: int| #![trigger node_diff.common@[k]]
            0 <= k < node_diff.common@.len() implies old.spec_has_node(node_diff.common@[k]@)
            && new.spec_has_node(node_diff.common@[k]@) by {
            let ids = common_ids(*old, *new);
            assert(seq_views(node_diff.common@)[k] == node_diff.common@[k]@);
            assert(ids[k] == node_diff.common@[k]@);
            graph_ids(*new).lemma_filter_pred(|id: Seq<char>| old.spec_has_node(id), k);
            assert(graph_ids(*new).filter(|id: Seq<char>| old.spec_has_node(id)).contains(ids[k]));
            assert(graph_ids(*new).contains(ids[k]));
        }
    }
    let signature_changes = detect_signature_changes(old, new, &node_diff.common);
    let complexity_deltas = compute_complexity_deltas(old, new, &node_diff.common);
    let mut cluster_drifts: Vec<ClusterDrift> = Vec::new();
    let mut doc_changes: Vec<DocChange> = Vec::new();
    match (old_docs, new_docs) {
        (Option::Some(od), Option::Some(nd)) => {
            cluster_drifts = detect_cluster_drift(od, nd, &node_diff.common);
            doc_changes = detect_meaningful_doc_changes(od, nd, &node_diff.common);
        },
        _ => {},
    }
    let structure_changes = analyze_graph_structure(old, new, threshold);
    let edge_drift: usize = if new.edges.len() >= old.edges.len() {
        new.edges.len() - old.edges.len()
    } else {
        old.edges.len() - new.edges.len()
    };
    proof {
        lemma_graph_ids(*new);
        let ids = common_ids(*old, *new);
        graph_ids(*new).lemma_filter_len(|id: Seq<char>| old.spec_has_node(id));
        ids.lemma_filter_len(|id: Seq<char>| sig_change_at(*old, *new, id));
        ids.lemma_filter_len(|id: Seq<char>| complexity_delta_at(*old, *new, id));
    }
    let total_changes = node_diff.added.len() + node_diff.removed.len() + signature_changes.len()
        + complexity_deltas.len() + edge_drift;
    DiffReport {
        node_diff,
        signature_changes,
        complexity_deltas,
        cluster_drifts,
        doc_changes,
        structure_changes,
        total_changes,
    }
}

} // verus!
