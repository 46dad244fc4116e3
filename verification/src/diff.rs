//! Differencing of two graph snapshots: node additions and removals,
//! signature changes, complexity deltas, semantic-cluster drift, and
//! meaning-level documentation changes.
//!
//! Every detector is a pure function of its inputs.  Each is
//! characterized exactly: the sequence of identifiers it reports is a
//! filter of the input order, and every record's fields are pinned to
//! the two snapshots' contents.

use vstd::prelude::*;

use crate::seqext::{
    lemma_filter_all, lemma_filter_complement_len, lemma_filter_no_duplicates, lemma_filter_none,
    lemma_filter_push, lemma_filter_sub, lemma_filter_to_set,
    lemma_unique_seqs_same_set_same_len,
};
use crate::text::{clone_opt_string, dec_string, opt_str_eq, opt_view_eq, seq_views};
use crate::types::{
    DocpackGraph, Documentation, Field, Node, NodeId, NodeKind, SymbolDocumentation, TypeNode,
};

verus! {

// ------------------------------------------------------------------
// Node set differencing
// ------------------------------------------------------------------
/// The identifiers of a snapshot's nodes, in node-list order.
pub open spec fn graph_ids(g: DocpackGraph) -> Seq<Seq<char>> {
    g.nodes@.map_values(|n: Node| n.id@)
}

/// The set of identifiers of a snapshot's nodes.
pub open spec fn id_set(g: DocpackGraph) -> Set<Seq<char>> {
    graph_ids(g).to_set()
}

/// Identifiers present only in the new snapshot, in its node order.
pub open spec fn added_ids(old: DocpackGraph, new: DocpackGraph) -> Seq<Seq<char>> {
    graph_ids(new).filter(|id: Seq<char>| !old.spec_has_node(id))
}

/// Identifiers present only in the old snapshot, in its node order.
pub open spec fn removed_ids(old: DocpackGraph, new: DocpackGraph) -> Seq<Seq<char>> {
    graph_ids(old).filter(|id: Seq<char>| !new.spec_has_node(id))
}

/// Identifiers present in both snapshots, in the new snapshot's node
/// order.
pub open spec fn common_ids(old: DocpackGraph, new: DocpackGraph) -> Seq<Seq<char>> {
    graph_ids(new).filter(|id: Seq<char>| old.spec_has_node(id))
}

/// Membership in a snapshot's id sequence is the same as holding a node.
pub proof fn lemma_graph_ids(g: DocpackGraph)
    ensures
        graph_ids(g).len() == g.nodes@.len(),
        forall|i: int|
            0 <= i < g.nodes@.len() ==> #[trigger] graph_ids(g)[i] == g.nodes@[i].id@,
        forall|id: Seq<char>| #[trigger] graph_ids(g).contains(id) <==> g.spec_has_node(id),
        g.wf() ==> graph_ids(g).no_duplicates(),
{
    assert forall|id: Seq<char>| #[trigger] graph_ids(g).contains(id) <==> g.spec_has_node(
        id,
    ) by {
        if graph_ids(g).contains(id) {
            let i = choose|i: int| 0 <= i < graph_ids(g).len() && graph_ids(g)[i] == id;
            assert(g.nodes@[i].id@ == id);
        }
        if g.spec_has_node(id) {
            let i = choose|i: int| 0 <= i < g.nodes@.len() && g.nodes@[i].id@ == id;
            assert(graph_ids(g)[i] == id);
        }
    }
}

/// The outcome of node set differencing of two snapshots.
#[derive(Debug)]
pub struct NodeDiff {
    pub added: Vec<NodeId>,
    pub removed: Vec<NodeId>,
    pub common: Vec<NodeId>,
}

/// Partition law: the added, removed and common identifiers of two
/// well-formed snapshots are duplicate-free, pairwise disjoint, cover
/// the union of both id sets, and their counts satisfy
/// `|added| + |common| = |new|` and `|removed| + |common| = |old|`.
pub proof fn lemma_diff_partition(old: DocpackGraph, new: DocpackGraph)
    requires
        old.wf(),
        new.wf(),
    ensures
        added_ids(old, new).no_duplicates(),
        removed_ids(old, new).no_duplicates(),
        common_ids(old, new).no_duplicates(),
        added_ids(old, new).to_set().disjoint(removed_ids(old, new).to_set()),
        added_ids(old, new).to_set().disjoint(common_ids(old, new).to_set()),
        removed_ids(old, new).to_set().disjoint(common_ids(old, new).to_set()),
        added_ids(old, new).to_set() + removed_ids(old, new).to_set() + common_ids(old, new).to_set()
            == id_set(old) + id_set(new),
        added_ids(old, new).len() + common_ids(old, new).len() == new.nodes@.len(),
        removed_ids(old, new).len() + common_ids(old, new).len() == old.nodes@.len(),
{
    lemma_graph_ids(old);
    lemma_graph_ids(new);
    let pa = |id: Seq<char>| !old.spec_has_node(id);
    let pc = |id: Seq<char>| old.spec_has_node(id);
    let pr = |id: Seq<char>| !new.spec_has_node(id);
    let pn = |id: Seq<char>| new.spec_has_node(id);
    lemma_filter_no_duplicates(graph_ids(new), pa);
    lemma_filter_no_duplicates(graph_ids(new), pc);
    lemma_filter_no_duplicates(graph_ids(old), pr);
    lemma_filter_no_duplicates(graph_ids(old), pn);
    lemma_filter_to_set(graph_ids(new), pa);
    lemma_filter_to_set(graph_ids(new), pc);
    lemma_filter_to_set(graph_ids(old), pr);
    lemma_filter_to_set(graph_ids(old), pn);
    // coverage of the union
    assert(added_ids(old, new).to_set() + removed_ids(old, new).to_set() + common_ids(
        old,
        new,
    ).to_set() =~= id_set(old) + id_set(new));
    // counting on the new side: common and added split the new id list
    lemma_filter_complement_len(graph_ids(new), pc, pa);
    // counting on the old side: removed and the old-side common split the
    // old id list, and the old-side common has the same length as the
    // new-side one because both are duplicate-free with the same set
    lemma_filter_complement_len(graph_ids(old), pn, pr);
    assert(graph_ids(old).filter(pn).to_set() =~= common_ids(old, new).to_set());
    lemma_unique_seqs_same_set_same_len(graph_ids(old).filter(pn), common_ids(old, new));
}

/// Computes which node identifiers were added, removed, and kept
/// between two snapshots.  The three results partition the union of
/// both id sets; `added` and `common` follow the new snapshot's node
/// order, `removed` the old one's.
pub fn compute_node_diff(old: &DocpackGraph, new: &DocpackGraph) -> (d: NodeDiff)
    requires
        old.wf(),
        new.wf(),
    ensures
        seq_views(d.added@) == added_ids(*old, *new),
        seq_views(d.removed@) == removed_ids(*old, *new),
        seq_views(d.common@) == common_ids(*old, *new),
        d.added@.len() + d.common@.len() == new.nodes@.len(),
        d.removed@.len() + d.common@.len() == old.nodes@.len(),
{
    let mut added: Vec<NodeId> = Vec::new();
    let mut common: Vec<NodeId> = Vec::new();
    let mut removed: Vec<NodeId> = Vec::new();
    proof {
        assert(seq_views(added@) =~= graph_ids(*new).take(0).filter((|id: Seq<char>| !old.spec_has_node(id))));
        assert(seq_views(common@) =~= graph_ids(*new).take(0).filter((|id: Seq<char>| old.spec_has_node(id))));
        assert(seq_views(removed@) =~= graph_ids(*old).take(0).filter((|id: Seq<char>| !new.spec_has_node(id))));
    }
    let nn = new.nodes.len();
    for i in 0..nn
        invariant
            old.wf(),
            new.wf(),
            nn == new.nodes@.len(),
            seq_views(added@) == graph_ids(*new).take(i as int).filter((|id: Seq<char>| !old.spec_has_node(id))),
            seq_views(common@) == graph_ids(*new).take(i as int).filter((|id: Seq<char>| old.spec_has_node(id))),
    {
        let id = &new.nodes[i].id;
        proof {
            lemma_graph_ids(*new);
            assert(graph_ids(*new).take(i + 1) =~= graph_ids(*new).take(i as int).push(id@));
            lemma_filter_push(graph_ids(*new).take(i as int), id@, (|id: Seq<char>| !old.spec_has_node(id)));
            lemma_filter_push(graph_ids(*new).take(i as int), id@, (|id: Seq<char>| old.spec_has_node(id)));
        }
        match old.find_node(id) {
            Option::Some(_) => {
                let ghost prev = common@;
                common.push(id.clone());
                proof {
                    assert(seq_views(common@) =~= seq_views(prev).push(id@));
                    assert(seq_views(common@) == graph_ids(*new).take(i + 1).filter((|id: Seq<char>| old.spec_has_node(id))));
                }
            },
            Option::None => {
                let ghost prev = added@;
                added.push(id.clone());
                proof {
                    assert(seq_views(added@) =~= seq_views(prev).push(id@));
                    assert(seq_views(added@) == graph_ids(*new).take(i + 1).filter((|id: Seq<char>| !old.spec_has_node(id))));
                }
            },
        }
    }
    let no = old.nodes.len();
    for i in 0..no
        invariant
            old.wf(),
            new.wf(),
            no == old.nodes@.len(),
            seq_views(removed@) == graph_ids(*old).take(i as int).filter((|id: Seq<char>| !new.spec_has_node(id))),
    {
        let id = &old.nodes[i].id;
        proof {
            lemma_graph_ids(*old);
            assert(graph_ids(*old).take(i + 1) =~= graph_ids(*old).take(i as int).push(id@));
            lemma_filter_push(graph_ids(*old).take(i as int), id@, (|id: Seq<char>| !new.spec_has_node(id)));
        }
        match new.find_node(id) {
            Option::Some(_) => {},
            Option::None => {
                let ghost prev = removed@;
                removed.push(id.clone());
                proof {
                    assert(seq_views(removed@) =~= seq_views(prev).push(id@));
                    assert(seq_views(removed@) == graph_ids(*old).take(i + 1).filter((|id: Seq<char>| !new.spec_has_node(id))));
                }
            },
        }
    }
    proof {
        assert(graph_ids(*new).take(nn as int) =~= graph_ids(*new));
        assert(graph_ids(*old).take(no as int) =~= graph_ids(*old));
        lemma_diff_partition(*old, *new);
    }
    NodeDiff { added, removed, common }
}

// ------------------------------------------------------------------
// Signature change detection
// ------------------------------------------------------------------
/// Equality of two type fields by name, type and visibility.
pub open spec fn field_eq(a: Field, b: Field) -> bool {
    a.name@ == b.name@ && opt_view_eq(a.field_type, b.field_type) && a.is_public == b.is_public
}

/// Equality of two ordered field lists by value.
pub open spec fn fields_eq(a: Seq<Field>, b: Seq<Field>) -> bool {
    a.len() == b.len() && forall|i: int| 0 <= i < a.len() ==> field_eq(#[trigger] a[i], b[i])
}

/// The synthetic signature summary of a type node.
pub open spec fn type_summary(t: TypeNode) -> Seq<char> {
    t.name@ + " with "@ + spec_dec_chars_of_len(t.fields@.len()) + " fields"@
}

/// The decimal rendering of a length.
pub open spec fn spec_dec_chars_of_len(n: nat) -> Seq<char> {
    crate::text::spec_dec_chars(n as int)
}

/// Whether a common node's behaviour-relevant signature changed.
/// Functions compare their signature strings, types their ordered field
/// lists; any other matching kind, and any kind mismatch, reports
/// nothing.
pub open spec fn sig_change_expected(old_n: Node, new_n: Node) -> bool {
    match (old_n.kind, new_n.kind) {
        (NodeKind::Function(f0), NodeKind::Function(f1)) => f0.signature@ != f1.signature@,
        (NodeKind::Type(t0), NodeKind::Type(t1)) => !fields_eq(t0.fields@, t1.fields@),
        _ => false,
    }
}

/// The pair of signature strings recorded for a changed node.
pub open spec fn sig_pair(old_n: Node, new_n: Node) -> (Seq<char>, Seq<char>) {
    match (old_n.kind, new_n.kind) {
        (NodeKind::Function(f0), NodeKind::Function(f1)) => (f0.signature@, f1.signature@),
        (NodeKind::Type(t0), NodeKind::Type(t1)) => (type_summary(t0), type_summary(t1)),
        _ => (Seq::empty(), Seq::empty()),
    }
}

/// Whether a signature change is reported for the given identifier.
pub open spec fn sig_change_at(old: DocpackGraph, new: DocpackGraph, id: Seq<char>) -> bool {
    old.spec_has_node(id) && new.spec_has_node(id) && sig_change_expected(
        old.spec_node(id),
        new.spec_node(id),
    )
}

/// The identifiers of `common` whose signature changed, in order.
pub open spec fn sig_changed_ids(
    old: DocpackGraph,
    new: DocpackGraph,
    common: Seq<Seq<char>>,
) -> Seq<Seq<char>> {
    common.filter(|id: Seq<char>| sig_change_at(old, new, id))
}

/// A behaviour-relevant signature change of one common node.
#[derive(Debug)]
pub struct SignatureChange {
    pub node_name: String,
    pub node_kind: String,
    pub old_signature: String,
    pub new_signature: String,
}

/// Whether a record correctly describes the change between two nodes.
pub open spec fn sig_change_matches(c: SignatureChange, old_n: Node, new_n: Node) -> bool {
    c.node_name@ == old_n.spec_name() && c.node_kind@ == old_n.spec_kind_str()
        && c.old_signature@ == sig_pair(old_n, new_n).0 && c.new_signature@ == sig_pair(
        old_n,
        new_n,
    ).1
}

/// Compares two ordered field lists by value.
pub fn fields_equal(a: &Vec<Field>, b: &Vec<Field>) -> (r: bool)
    ensures
        r == fields_eq(a@, b@),
{
    if a.len() != b.len() {
        return false;
    }
    let n = a.len();
    for i in 0..n
        invariant
            n == a@.len(),
            a@.len() == b@.len(),
            forall|k: int| 0 <= k < i ==> field_eq(#[trigger] a@[k], b@[k]),
    {
        if !(a[i].name == b[i].name) {
            return false;
        }
        if !opt_str_eq(&a[i].field_type, &b[i].field_type) {
            return false;
        }
        if a[i].is_public != b[i].is_public {
            return false;
        }
    }
    true
}

fn type_summary_string(t: &TypeNode) -> (r: String)
    ensures
        r@ == type_summary(*t),
{
    let count = dec_string(t.fields.len());
    let r = t.name.clone().concat(" with ").concat(count.as_str()).concat(" fields");
    proof {
        assert(r@ =~= type_summary(*t));
    }
    r
}

/// Whether `rs` reports, record for record, the changed identifiers
/// `ids` of two snapshots.
pub open spec fn sig_results_match(
    old: DocpackGraph,
    new: DocpackGraph,
    ids: Seq<Seq<char>>,
    rs: Seq<SignatureChange>,
) -> bool {
    rs.len() == ids.len() && forall|j: int|
        0 <= j < rs.len() ==> sig_change_matches(
            #[trigger] rs[j],
            old.spec_node(ids[j]),
            new.spec_node(ids[j]),
        )
}

/// Detects behaviour-relevant signature changes for the common nodes of
/// two snapshots.  A record is reported for exactly those common
/// identifiers where both nodes are functions with different signature
/// strings or both are types with different field lists; a kind change
/// under the same identifier reports nothing here and is visible only
/// through the structural signals.
pub fn detect_signature_changes(
    old: &DocpackGraph,
    new: &DocpackGraph,
    common: &Vec<NodeId>,
) -> (r: Vec<SignatureChange>)
    requires
        old.wf(),
        new.wf(),
        forall|k: int| #![trigger common@[k]]
            0 <= k < common@.len() ==> old.spec_has_node(common@[k]@) && new.spec_has_node(
                common@[k]@,
            ),
    ensures
        sig_results_match(*old, *new, sig_changed_ids(*old, *new, seq_views(common@)), r@),
{
    let mut r: Vec<SignatureChange> = Vec::new();
    proof {
        assert(seq_views(common@.take(0)) =~= Seq::<Seq<char>>::empty());
    }
    let n = common.len();
    for k in 0..n
        invariant
            old.wf(),
            new.wf(),
            n == common@.len(),
            forall|k2: int| #![trigger common@[k2]]
                0 <= k2 < common@.len() ==> old.spec_has_node(common@[k2]@) && new.spec_has_node(
                    common@[k2]@,
                ),
            sig_results_match(
                *old,
                *new,
                seq_views(common@.take(k as int)).filter(
                    |id: Seq<char>| sig_change_at(*old, *new, id),
                ),
                r@,
            ),
    {
        let id = &common[k];
        let old_node = old.find_node(id).unwrap();
        let new_node = new.find_node(id).unwrap();
        let ghost prev_r = r@;
        let ghost prev_ids = seq_views(common@.take(k as int)).filter(
            |id: Seq<char>| sig_change_at(*old, *new, id),
        );
        proof {
            assert(seq_views(common@.take(k + 1)) =~= seq_views(common@.take(k as int)).push(
                id@,
            ));
            lemma_filter_push(
                seq_views(common@.take(k as int)),
                id@,
                |id: Seq<char>| sig_change_at(*old, *new, id),
            );
        }
        match (&old_node.kind, &new_node.kind) {
            (NodeKind::Function(f0), NodeKind::Function(f1)) => {
                if !(f0.signature == f1.signature) {
                    r.push(
                        SignatureChange {
                            node_name: old_node.name(),
                            node_kind: old_node.kind_str().to_owned(),
                            old_signature: f0.signature.clone(),
                            new_signature: f1.signature.clone(),
                        },
                    );
                    proof {
                        assert(sig_change_at(*old, *new, id@));
                        assert(sig_change_matches(
                            r@[prev_r.len() as int],
                            old.spec_node(id@),
                            new.spec_node(id@),
                        ));
                    }
                } else {
                    proof {
                        assert(!sig_change_at(*old, *new, id@));
                    }
                }
            },
            (NodeKind::Type(t0), NodeKind::Type(t1)) => {
                if !fields_equal(&t0.fields, &t1.fields) {
                    r.push(
                        SignatureChange {
                            node_name: old_node.name(),
                            node_kind: old_node.kind_str().to_owned(),
                            old_signature: type_summary_string(t0),
                            new_signature: type_summary_string(t1),
                        },
                    );
                    proof {
                        assert(sig_change_at(*old, *new, id@));
                        assert(sig_change_matches(
                            r@[prev_r.len() as int],
                            old.spec_node(id@),
                            new.spec_node(id@),
                        ));
                    }
                } else {
                    proof {
                        assert(!sig_change_at(*old, *new, id@));
                    }
                }
            },
            _ => {
                proof {
                    assert(!sig_change_at(*old, *new, id@));
                }
            },
        }
        proof {
            let ids2 = seq_views(common@.take(k + 1)).filter(
                |id: Seq<char>| sig_change_at(*old, *new, id),
            );
            if sig_change_at(*old, *new, id@) {
                assert(ids2 == prev_ids.push(id@));
            } else {
                assert(ids2 == prev_ids);
                assert(r@ == prev_r);
            }
            assert forall|j: int| 0 <= j < r@.len() implies sig_change_matches(
                #[trigger] r@[j],
                old.spec_node(ids2[j]),
                new.spec_node(ids2[j]),
            ) by {
                if j < prev_r.len() {
                    assert(r@[j] == prev_r[j]);
                    assert(prev_ids[j] == ids2[j]);
                    assert(sig_change_matches(
                        prev_r[j],
                        old.spec_node(prev_ids[j]),
                        new.spec_node(prev_ids[j]),
                    ));
                } else {
                    assert(r@.len() > prev_r.len());
                    assert(sig_change_at(*old, *new, id@));
                    assert(j == prev_ids.len());
                    assert(ids2[j] == id@);
                }
            }
            assert(sig_results_match(*old, *new, ids2, r@));
        }
    }
    proof {
        assert(seq_views(common@.take(n as int)) =~= seq_views(common@));
    }
    r
}

// ------------------------------------------------------------------
// Complexity delta computation
// ------------------------------------------------------------------
/// Whether a complexity delta is emitted for a pair of nodes: both
/// sides carry a complexity value and the two values differ.
pub open spec fn complexity_delta_expected(old_n: Node, new_n: Node) -> bool {
    match (old_n.metadata.complexity, new_n.metadata.complexity) {
        (Option::Some(a), Option::Some(b)) => a != b,
        _ => false,
    }
}

/// Whether a complexity delta is reported for the given identifier.
pub open spec fn complexity_delta_at(old: DocpackGraph, new: DocpackGraph, id: Seq<char>) -> bool {
    old.spec_has_node(id) && new.spec_has_node(id) && complexity_delta_expected(
        old.spec_node(id),
        new.spec_node(id),
    )
}

/// The identifiers of `common` whose complexity changed, in order.
pub open spec fn complexity_changed_ids(
    old: DocpackGraph,
    new: DocpackGraph,
    common: Seq<Seq<char>>,
) -> Seq<Seq<char>> {
    common.filter(|id: Seq<char>| complexity_delta_at(old, new, id))
}

/// A numeric complexity change of one common node.  The delta is the
/// new value minus the old one, widened so it can never wrap.
#[derive(Debug)]
pub struct ComplexityDelta {
    pub node_name: String,
    pub node_kind: String,
    pub old_complexity: u32,
    pub new_complexity: u32,
    pub delta: i64,
}

impl Clone for ComplexityDelta {
    fn clone(&self) -> (res: Self)
        ensures
            res == *self,
    {
        ComplexityDelta {
            node_name: self.node_name.clone(),
            node_kind: self.node_kind.clone(),
            old_complexity: self.old_complexity,
            new_complexity: self.new_complexity,
            delta: self.delta,
        }
    }
}

/// Whether a record correctly describes the delta between two nodes.
pub open spec fn complexity_delta_matches(c: ComplexityDelta, old_n: Node, new_n: Node) -> bool {
    c.node_name@ == old_n.spec_name() && c.node_kind@ == old_n.spec_kind_str()
        && old_n.metadata.complexity == Option::Some(c.old_complexity)
        && new_n.metadata.complexity == Option::Some(c.new_complexity) && c.delta
        == c.new_complexity - c.old_complexity
}

/// Whether `rs` reports, record for record, the identifiers `ids`.
pub open spec fn complexity_results_match(
    old: DocpackGraph,
    new: DocpackGraph,
    ids: Seq<Seq<char>>,
    rs: Seq<ComplexityDelta>,
) -> bool {
    rs.len() == ids.len() && forall|j: int|
        0 <= j < rs.len() ==> complexity_delta_matches(
            #[trigger] rs[j],
            old.spec_node(ids[j]),
            new.spec_node(ids[j]),
        )
}

/// Computes complexity deltas for the common nodes of two snapshots.
/// A record is emitted for exactly those common identifiers where both
/// nodes carry a complexity value and the two values differ; its delta
/// is exactly the new value minus the old one.
pub fn compute_complexity_deltas(
    old: &DocpackGraph,
    new: &DocpackGraph,
    common: &Vec<NodeId>,
) -> (r: Vec<ComplexityDelta>)
    requires
        old.wf(),
        new.wf(),
        forall|k: int| #![trigger common@[k]]
            0 <= k < common@.len() ==> old.spec_has_node(common@[k]@) && new.spec_has_node(
                common@[k]@,
            ),
    ensures
        complexity_results_match(
            *old,
            *new,
            complexity_changed_ids(*old, *new, seq_views(common@)),
            r@,
        ),
{
    let mut r: Vec<ComplexityDelta> = Vec::new();
    proof {
        assert(seq_views(common@.take(0)) =~= Seq::<Seq<char>>::empty());
    }
    let n = common.len();
    for k in 0..n
        invariant
            old.wf(),
            new.wf(),
            n == common@.len(),
            forall|k2: int| #![trigger common@[k2]]
                0 <= k2 < common@.len() ==> old.spec_has_node(common@[k2]@) && new.spec_has_node(
                    common@[k2]@,
                ),
            complexity_results_match(
                *old,
                *new,
                seq_views(common@.take(k as int)).filter(
                    |id: Seq<char>| complexity_delta_at(*old, *new, id),
                ),
                r@,
            ),
    {
        let id = &common[k];
        let old_node = old.find_node(id).unwrap();
        let new_node = new.find_node(id).unwrap();
        let ghost prev_r = r@;
        let ghost prev_ids = seq_views(common@.take(k as int)).filter(
            |id: Seq<char>| complexity_delta_at(*old, *new, id),
        );
        proof {
            assert(seq_views(common@.take(k + 1)) =~= seq_views(common@.take(k as int)).push(
                id@,
            ));
            lemma_filter_push(
                seq_views(common@.take(k as int)),
                id@,
                |id: Seq<char>| complexity_delta_at(*old, *new, id),
            );
        }
        match (old_node.metadata.complexity, new_node.metadata.complexity) {
            (Option::Some(old_c), Option::Some(new_c)) => {
                if old_c != new_c {
                    r.push(
                        ComplexityDelta {
                            node_name: old_node.name(),
                            node_kind: old_node.kind_str().to_owned(),
                            old_complexity: old_c,
                            new_complexity: new_c,
                            delta: new_c as i64 - old_c as i64,
                        },
                    );
                    proof {
                        assert(complexity_delta_at(*old, *new, id@));
                        assert(complexity_delta_matches(
                            r@[prev_r.len() as int],
                            old.spec_node(id@),
                            new.spec_node(id@),
                        ));
                    }
                } else {
                    proof {
                        assert(!complexity_delta_at(*old, *new, id@));
                    }
                }
            },
            _ => {
                proof {
                    assert(!complexity_delta_at(*old, *new, id@));
                }
            },
        }
        proof {
            let ids2 = seq_views(common@.take(k + 1)).filter(
                |id: Seq<char>| complexity_delta_at(*old, *new, id),
            );
            if complexity_delta_at(*old, *new, id@) {
                assert(ids2 == prev_ids.push(id@));
            } else {
                assert(ids2 == prev_ids);
                assert(r@ == prev_r);
            }
            assert forall|j: int| 0 <= j < r@.len() implies complexity_delta_matches(
                #[trigger] r@[j],
                old.spec_node(ids2[j]),
                new.spec_node(ids2[j]),
            ) by {
                if j < prev_r.len() {
                    assert(r@[j] == prev_r[j]);
                    assert(prev_ids[j] == ids2[j]);
                    assert(complexity_delta_matches(
                        prev_r[j],
                        old.spec_node(prev_ids[j]),
                        new.spec_node(prev_ids[j]),
                    ));
                } else {
                    assert(r@.len() > prev_r.len());
                    assert(complexity_delta_at(*old, *new, id@));
                    assert(j == prev_ids.len());
                    assert(ids2[j] == id@);
                }
            }
            assert(complexity_results_match(*old, *new, ids2, r@));
        }
    }
    proof {
        assert(seq_views(common@.take(n as int)) =~= seq_views(common@));
    }
    r
}

// ------------------------------------------------------------------
// Semantic cluster drift detection
// ------------------------------------------------------------------
/// Whether cluster drift is reported for the given identifier: both
/// documentation bundles carry a summary for it and the two optional
/// cluster labels differ (one side absent counts as different).  A node
/// lacking a summary on either side is silently skipped.
pub open spec fn cluster_drift_at(
    old_docs: Documentation,
    new_docs: Documentation,
    id: Seq<char>,
) -> bool {
    old_docs.spec_has_summary(id) && new_docs.spec_has_summary(id) && !opt_view_eq(
        old_docs.spec_summary(id).semantic_cluster,
        new_docs.spec_summary(id).semantic_cluster,
    )
}

/// The identifiers of `common` whose cluster label drifted, in order.
pub open spec fn drifted_ids(
    old_docs: Documentation,
    new_docs: Documentation,
    common: Seq<Seq<char>>,
) -> Seq<Seq<char>> {
    common.filter(|id: Seq<char>| cluster_drift_at(old_docs, new_docs, id))
}

/// A semantic-cluster reassignment of one common node.
#[derive(Debug)]
pub struct ClusterDrift {
    pub node_name: String,
    pub node_kind: String,
    pub old_cluster: Option<String>,
    pub new_cluster: Option<String>,
}

/// Whether a record correctly describes the drift of one identifier.
pub open spec fn cluster_drift_matches(
    c: ClusterDrift,
    id: Seq<char>,
    od: SymbolDocumentation,
    nd: SymbolDocumentation,
) -> bool {
    c.node_name@ == id && c.node_kind@ == "symbol"@ && opt_view_eq(
        c.old_cluster,
        od.semantic_cluster,
    ) && opt_view_eq(c.new_cluster, nd.semantic_cluster)
}

/// Whether `rs` reports, record for record, the identifiers `ids`.
pub open spec fn drift_results_match(
    old_docs: Documentation,
    new_docs: Documentation,
    ids: Seq<Seq<char>>,
    rs: Seq<ClusterDrift>,
) -> bool {
    rs.len() == ids.len() && forall|j: int|
        0 <= j < rs.len() ==> cluster_drift_matches(
            #[trigger] rs[j],
            ids[j],
            old_docs.spec_summary(ids[j]),
            new_docs.spec_summary(ids[j]),
        )
}

/// Detects semantic-cluster reassignment for the common nodes of two
/// snapshots, given both snapshots' documentation bundles.  A record is
/// reported for exactly those common identifiers documented on both
/// sides whose optional cluster labels differ.
pub fn detect_cluster_drift(
    old_docs: &Documentation,
    new_docs: &Documentation,
    common: &Vec<NodeId>,
) -> (r: Vec<ClusterDrift>)
    requires
        old_docs.wf(),
        new_docs.wf(),
    ensures
        drift_results_match(
            *old_docs,
            *new_docs,
            drifted_ids(*old_docs, *new_docs, seq_views(common@)),
            r@,
        ),
{
    let mut r: Vec<ClusterDrift> = Vec::new();
    proof {
        assert(seq_views(common@.take(0)) =~= Seq::<Seq<char>>::empty());
    }
    let n = common.len();
    for k in 0..n
        invariant
            old_docs.wf(),
            new_docs.wf(),
            n == common@.len(),
            drift_results_match(
                *old_docs,
                *new_docs,
                seq_views(common@.take(k as int)).filter(
                    |id: Seq<char>| cluster_drift_at(*old_docs, *new_docs, id),
                ),
                r@,
            ),
    {
        let id = &common[k];
        let ghost prev_r = r@;
        let ghost prev_ids = seq_views(common@.take(k as int)).filter(
            |id: Seq<char>| cluster_drift_at(*old_docs, *new_docs, id),
        );
        proof {
            assert(seq_views(common@.take(k + 1)) =~= seq_views(common@.take(k as int)).push(
                id@,
            ));
            lemma_filter_push(
                seq_views(common@.take(k as int)),
                id@,
                |id: Seq<char>| cluster_drift_at(*old_docs, *new_docs, id),
            );
        }
        match (old_docs.find_summary(id), new_docs.find_summary(id)) {
            (Option::Some(od), Option::Some(nd)) => {
                if !opt_str_eq(&od.semantic_cluster, &nd.semantic_cluster) {
                    r.push(
                        ClusterDrift {
                            node_name: id.clone(),
                            node_kind: "symbol".to_owned(),
                            old_cluster: clone_opt_string(&od.semantic_cluster),
                            new_cluster: clone_opt_string(&nd.semantic_cluster),
                        },
                    );
                    proof {
                        assert(cluster_drift_at(*old_docs, *new_docs, id@));
                        assert(cluster_drift_matches(
                            r@[prev_r.len() as int],
                            id@,
                            old_docs.spec_summary(id@),
                            new_docs.spec_summary(id@),
                        ));
                    }
                } else {
                    proof {
                        assert(!cluster_drift_at(*old_docs, *new_docs, id@));
                    }
                }
            },
            _ => {
                proof {
                    assert(!cluster_drift_at(*old_docs, *new_docs, id@));
                }
            },
        }
        proof {
            let ids2 = seq_views(common@.take(k + 1)).filter(
                |id: Seq<char>| cluster_drift_at(*old_docs, *new_docs, id),
            );
            if cluster_drift_at(*old_docs, *new_docs, id@) {
                assert(ids2 == prev_ids.push(id@));
            } else {
                assert(ids2 == prev_ids);
                assert(r@ == prev_r);
            }
            assert forall|j: int| 0 <= j < r@.len() implies cluster_drift_matches(
                #[trigger] r@[j],
                ids2[j],
                old_docs.spec_summary(ids2[j]),
                new_docs.spec_summary(ids2[j]),
            ) by {
                if j < prev_r.len() {
                    assert(r@[j] == prev_r[j]);
                    assert(prev_ids[j] == ids2[j]);
                    assert(cluster_drift_matches(
                        prev_r[j],
                        prev_ids[j],
                        old_docs.spec_summary(prev_ids[j]),
                        new_docs.spec_summary(prev_ids[j]),
                    ));
                } else {
                    assert(r@.len() > prev_r.len());
                    assert(cluster_drift_at(*old_docs, *new_docs, id@));
                    assert(j == prev_ids.len());
                    assert(ids2[j] == id@);
                }
            }
            assert(drift_results_match(*old_docs, *new_docs, ids2, r@));
        }
    }
    proof {
        assert(seq_views(common@.take(n as int)) =~= seq_views(common@));
    }
    r
}

// ------------------------------------------------------------------
// Documentation change detection
// ------------------------------------------------------------------
/// Whether a documentation change is reported for the given identifier:
/// both bundles document it and the purpose or the explanation text
/// differs (exact, case-sensitive).
pub open spec fn doc_change_at(
    old_docs: Documentation,
    new_docs: Documentation,
    id: Seq<char>,
) -> bool {
    old_docs.spec_has_summary(id) && new_docs.spec_has_summary(id) && (old_docs.spec_summary(
        id,
    ).purpose@ != new_docs.spec_summary(id).purpose@ || old_docs.spec_summary(id).explanation@
        != new_docs.spec_summary(id).explanation@)
}

/// The identifiers of `common` whose documentation changed, in order.
pub open spec fn doc_changed_ids(
    old_docs: Documentation,
    new_docs: Documentation,
    common: Seq<Seq<char>>,
) -> Seq<Seq<char>> {
    common.filter(|id: Seq<char>| doc_change_at(old_docs, new_docs, id))
}

/// The reason text: both checks are independent and both may be listed.
pub open spec fn spec_reason(purpose_changed: bool, explanation_changed: bool) -> Seq<char> {
    if purpose_changed && explanation_changed {
        "purpose changed, explanation updated"@
    } else if purpose_changed {
        "purpose changed"@
    } else {
        "explanation updated"@
    }
}

/// A meaning-level documentation change of one common node.
#[derive(Debug)]
pub struct DocChange {
    pub node_name: String,
    pub node_kind: String,
    pub reason: String,
}

/// Whether a record correctly describes the change of one identifier.
pub open spec fn doc_change_matches(
    c: DocChange,
    id: Seq<char>,
    od: SymbolDocumentation,
    nd: SymbolDocumentation,
) -> bool {
    c.node_name@ == id && c.node_kind@ == "symbol"@ && c.reason@ == spec_reason(
        od.purpose@ != nd.purpose@,
        od.explanation@ != nd.explanation@,
    )
}

/// Whether `rs` reports, record for record, the identifiers `ids`.
pub open spec fn doc_results_match(
    old_docs: Documentation,
    new_docs: Documentation,
    ids: Seq<Seq<char>>,
    rs: Seq<DocChange>,
) -> bool {
    rs.len() == ids.len() && forall|j: int|
        0 <= j < rs.len() ==> doc_change_matches(
            #[trigger] rs[j],
            ids[j],
            old_docs.spec_summary(ids[j]),
            new_docs.spec_summary(ids[j]),
        )
}

/// Detects meaning-level documentation changes for the common nodes of
/// two snapshots.  A record is reported for exactly those common
/// identifiers documented on both sides whose purpose or explanation
/// text changed, with a reason naming whichever of the two applied.
pub fn detect_meaningful_doc_changes(
    old_docs: &Documentation,
    new_docs: &Documentation,
    common: &Vec<NodeId>,
) -> (r: Vec<DocChange>)
    requires
        old_docs.wf(),
        new_docs.wf(),
    ensures
        doc_results_match(
            *old_docs,
            *new_docs,
            doc_changed_ids(*old_docs, *new_docs, seq_views(common@)),
            r@,
        ),
{
    let mut r: Vec<DocChange> = Vec::new();
    proof {
        assert(seq_views(common@.take(0)) =~= Seq::<Seq<char>>::empty());
    }
    let n = common.len();
    for k in 0..n
        invariant
            old_docs.wf(),
            new_docs.wf(),
            n == common@.len(),
            doc_results_match(
                *old_docs,
                *new_docs,
                seq_views(common@.take(k as int)).filter(
                    |id: Seq<char>| doc_change_at(*old_docs, *new_docs, id),
                ),
                r@,
            ),
    {
        let id = &common[k];
        let ghost prev_r = r@;
        let ghost prev_ids = seq_views(common@.take(k as int)).filter(
            |id: Seq<char>| doc_change_at(*old_docs, *new_docs, id),
        );
        proof {
            assert(seq_views(common@.take(k + 1)) =~= seq_views(common@.take(k as int)).push(
                id@,
            ));
            lemma_filter_push(
                seq_views(common@.take(k as int)),
                id@,
                |id: Seq<char>| doc_change_at(*old_docs, *new_docs, id),
            );
        }
        match (old_docs.find_summary(id), new_docs.find_summary(id)) {
            (Option::Some(od), Option::Some(nd)) => {
                let purpose_changed = !(od.purpose == nd.purpose);
                let explanation_changed = !(od.explanation == nd.explanation);
                if purpose_changed || explanation_changed {
                    let reason: &'static str = if purpose_changed && explanation_changed {
                        "purpose changed, explanation updated"
                    } else if purpose_changed {
                        "purpose changed"
                    } else {
                        "explanation updated"
                    };
                    r.push(
                        DocChange {
                            node_name: id.clone(),
                            node_kind: "symbol".to_owned(),
                            reason: reason.to_owned(),
                        },
                    );
                    proof {
                        assert(doc_change_at(*old_docs, *new_docs, id@));
                        assert(doc_change_matches(
                            r@[prev_r.len() as int],
                            id@,
                            old_docs.spec_summary(id@),
                            new_docs.spec_summary(id@),
                        ));
                    }
                } else {
                    proof {
                        assert(!doc_change_at(*old_docs, *new_docs, id@));
                    }
                }
            },
            _ => {
                proof {
                    assert(!doc_change_at(*old_docs, *new_docs, id@));
                }
            },
        }
        proof {
            let ids2 = seq_views(common@.take(k + 1)).filter(
                |id: Seq<char>| doc_change_at(*old_docs, *new_docs, id),
            );
            if doc_change_at(*old_docs, *new_docs, id@) {
                assert(ids2 == prev_ids.push(id@));
            } else {
                assert(ids2 == prev_ids);
                assert(r@ == prev_r);
            }
            assert forall|j: int| 0 <= j < r@.len() implies doc_change_matches(
                #[trigger] r@[j],
                ids2[j],
                old_docs.spec_summary(ids2[j]),
                new_docs.spec_summary(ids2[j]),
            ) by {
                if j < prev_r.len() {
                    assert(r@[j] == prev_r[j]);
                    assert(prev_ids[j] == ids2[j]);
                    assert(doc_change_matches(
                        prev_r[j],
                        prev_ids[j],
                        old_docs.spec_summary(prev_ids[j]),
                        new_docs.spec_summary(prev_ids[j]),
                    ));
                } else {
                    assert(r@.len() > prev_r.len());
                    assert(doc_change_at(*old_docs, *new_docs, id@));
                    assert(j == prev_ids.len());
                    assert(ids2[j] == id@);
                }
            }
            assert(doc_results_match(*old_docs, *new_docs, ids2, r@));
        }
    }
    proof {
        assert(seq_views(common@.take(n as int)) =~= seq_views(common@));
    }
    r
}

// ------------------------------------------------------------------
// Silence on identical snapshots
// ------------------------------------------------------------------
/// Symmetry of absence: diffing a snapshot against itself yields no
/// added and no removed identifiers, keeps every identifier common, and
/// every detector reports nothing, whatever list of common identifiers
/// it is handed.
pub proof fn lemma_identical_snapshot(g: DocpackGraph, docs: Documentation, common: Seq<Seq<char>>)
    requires
        g.wf(),
        docs.wf(),
    ensures
        added_ids(g, g).len() == 0,
        removed_ids(g, g).len() == 0,
        common_ids(g, g) == graph_ids(g),
        sig_changed_ids(g, g, common).len() == 0,
        complexity_changed_ids(g, g, common).len() == 0,
        drifted_ids(docs, docs, common).len() == 0,
        doc_changed_ids(docs, docs, common).len() == 0,
{
    lemma_graph_ids(g);
    let pa = |id: Seq<char>| !g.spec_has_node(id);
    let pc = |id: Seq<char>| g.spec_has_node(id);
    assert(forall|i: int|
        0 <= i < graph_ids(g).len() ==> !pa(#[trigger] graph_ids(g)[i]));
    lemma_filter_none(graph_ids(g), pa);
    assert(forall|i: int|
        0 <= i < graph_ids(g).len() ==> pc(#[trigger] graph_ids(g)[i]));
    lemma_filter_all(graph_ids(g), pc);
    assert forall|id: Seq<char>| !(#[trigger] sig_change_at(g, g, id)) by {
        if g.spec_has_node(id) {
            let n = g.spec_node(id);
            assert(!sig_change_expected(n, n)) by {
                match (n.kind, n.kind) {
                    (NodeKind::Type(t0), NodeKind::Type(t1)) => {
                        assert(fields_eq(t0.fields@, t1.fields@));
                    },
                    _ => {},
                }
            }
        }
    }
    lemma_filter_none(common, |id: Seq<char>| sig_change_at(g, g, id));
    assert forall|id: Seq<char>| !(#[trigger] complexity_delta_at(g, g, id)) by {}
    lemma_filter_none(common, |id: Seq<char>| complexity_delta_at(g, g, id));
    assert forall|id: Seq<char>| !(#[trigger] cluster_drift_at(docs, docs, id)) by {
        if docs.spec_has_summary(id) {
            assert(opt_view_eq(
                docs.spec_summary(id).semantic_cluster,
                docs.spec_summary(id).semantic_cluster,
            ));
        }
    }
    lemma_filter_none(common, |id: Seq<char>| cluster_drift_at(docs, docs, id));
    assert forall|id: Seq<char>| !(#[trigger] doc_change_at(docs, docs, id)) by {}
    lemma_filter_none(common, |id: Seq<char>| doc_change_at(docs, docs, id));
}

/// Kind-mismatch silence: a common identifier whose node changed its
/// kind between the snapshots (and is not a function or a type on both
/// sides) is never reported as a signature change; such a change is
/// visible only through the structural signals.
pub proof fn lemma_kind_mismatch_silent(
    old: DocpackGraph,
    new: DocpackGraph,
    id: Seq<char>,
    common: Seq<Seq<char>>,
)
    requires
        old.spec_has_node(id),
        new.spec_has_node(id),
        !(old.spec_node(id).kind is Function && new.spec_node(id).kind is Function),
        !(old.spec_node(id).kind is Type && new.spec_node(id).kind is Type),
    ensures
        !sig_change_at(old, new, id),
        !sig_changed_ids(old, new, common).contains(id),
{
    assert(!sig_change_expected(old.spec_node(id), new.spec_node(id)));
    lemma_filter_sub(common, |id2: Seq<char>| sig_change_at(old, new, id2));
    if sig_changed_ids(old, new, common).contains(id) {
        assert(sig_change_at(old, new, id));
    }
}

} // verus!
