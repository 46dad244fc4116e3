//! Single-snapshot cluster analysis: per-cluster composition summaries
//! and the inter-cluster relationship weights.
//!
//! Relationship counting walks every edge of the snapshot once.  Each
//! member node is attributed to the cluster that enumerates it last
//! (last write wins when membership overlaps), and an edge whose two
//! endpoints resolve to different clusters counts one unit toward the
//! canonical pair of their indices, smaller index first.

use vstd::prelude::*;

use crate::seqext::{lemma_filter_push, lemma_filter_sub};
use crate::text::{clone_i64_vec, clone_string_vec};
use crate::types::{DocpackGraph, Edge, Node, NodeId, NodeKind};

verus! {

// ------------------------------------------------------------------
// Member attribution
// ------------------------------------------------------------------
/// The member list of the cluster node with the given identifier, or
/// empty when the snapshot has no such node or it is not a cluster.
pub open spec fn cluster_members(g: DocpackGraph, id: String) -> Seq<String> {
    if g.spec_has_node(id@) {
        match g.spec_node(id@).kind {
            NodeKind::Cluster(c) => c.members@,
            _ => Seq::empty(),
        }
    } else {
        Seq::empty()
    }
}

/// Whether one of the first `j` strings has the given contents.
pub open spec fn has_view_upto(ms: Seq<String>, j: int, m: Seq<char>) -> bool {
    exists|j2: int| 0 <= j2 < j && j2 < ms.len() && (#[trigger] ms[j2])@ == m
}

/// Whether the cluster node with the given identifier lists `m` as a
/// member.
pub open spec fn cluster_lists_member(g: DocpackGraph, id: String, m: Seq<char>) -> bool {
    has_view_upto(cluster_members(g, id), cluster_members(g, id).len() as int, m)
}

/// The cluster index attributed to a member by the first `n` clusters:
/// the largest index among them whose cluster lists the member.
pub open spec fn member_cluster_upto(
    g: DocpackGraph,
    ids: Seq<String>,
    n: int,
    m: Seq<char>,
) -> Option<int>
    decreases n,
{
    if n <= 0 {
        Option::None
    } else if cluster_lists_member(g, ids[n - 1], m) {
        Option::Some(n - 1)
    } else {
        member_cluster_upto(g, ids, n - 1, m)
    }
}

/// The cluster index attributed to a member: the index of the last
/// enumerated cluster that lists it.
pub open spec fn member_cluster(g: DocpackGraph, ids: Seq<String>, m: Seq<char>) -> Option<int> {
    member_cluster_upto(g, ids, ids.len() as int, m)
}

/// An attributed cluster index lies below `n`.
pub proof fn lemma_member_cluster_range(g: DocpackGraph, ids: Seq<String>, n: int, m: Seq<char>)
    ensures
        match member_cluster_upto(g, ids, n, m) {
            Option::Some(c) => 0 <= c < n,
            Option::None => true,
        },
    decreases n,
{
    if n > 0 {
        lemma_member_cluster_range(g, ids, n - 1, m);
    }
}

// ------------------------------------------------------------------
// The member-to-cluster lookup table
// ------------------------------------------------------------------
struct MemberBinding {
    member: NodeId,
    cluster: usize,
}

spec fn map_unique(entries: Seq<MemberBinding>) -> bool {
    forall|i: int, j: int|
        0 <= i < j < entries.len() ==> (#[trigger] entries[i]).member@ != (
        #[trigger] entries[j]).member@
}

spec fn map_has(entries: Seq<MemberBinding>, m: Seq<char>) -> bool {
    exists|i: int| 0 <= i < entries.len() && (#[trigger] entries[i]).member@ == m
}

spec fn map_index(entries: Seq<MemberBinding>, m: Seq<char>) -> int {
    choose|i: int| 0 <= i < entries.len() && (#[trigger] entries[i]).member@ == m
}

spec fn map_lookup(entries: Seq<MemberBinding>, m: Seq<char>) -> Option<int> {
    if map_has(entries, m) {
        Option::Some(entries[map_index(entries, m)].cluster as int)
    } else {
        Option::None
    }
}

proof fn lemma_map_lookup_at(entries: Seq<MemberBinding>, m: Seq<char>, i: int)
    requires
        map_unique(entries),
        0 <= i < entries.len(),
        entries[i].member@ == m,
    ensures
        map_lookup(entries, m) == Option::Some(entries[i].cluster as int),
{
    assert(map_has(entries, m));
    let j = map_index(entries, m);
    if j != i {
        if j < i {
            assert(entries[j].member@ != entries[i].member@);
        } else {
            assert(entries[i].member@ != entries[j].member@);
        }
    }
}

fn map_get(entries: &Vec<MemberBinding>, m: &NodeId) -> (r: Option<usize>)
    requires
        map_unique(entries@),
    ensures
        match r {
            Option::Some(c) => map_lookup(entries@, m@) == Option::Some(c as int),
            Option::None => map_lookup(entries@, m@) is None,
        },
{
    let n = entries.len();
    for i in 0..n
        invariant
            n == entries@.len(),
            map_unique(entries@),
            forall|k: int| 0 <= k < i ==> (#[trigger] entries@[k]).member@ != m@,
    {
        if entries[i].member == *m {
            proof {
                lemma_map_lookup_at(entries@, m@, i as int);
            }
            return Option::Some(entries[i].cluster);
        }
    }
    proof {
        if map_has(entries@, m@) {
            let w = map_index(entries@, m@);
            assert(entries@[w].member@ == m@);
            assert(false);
        }
    }
    Option::None
}

/// Binds a member to a cluster index, overwriting any earlier binding:
/// last write wins.
fn map_put(entries: &mut Vec<MemberBinding>, m: NodeId, c: usize)
    requires
        map_unique(old(entries)@),
    ensures
        map_unique(final(entries)@),
        forall|m2: Seq<char>|
            #[trigger] map_lookup(final(entries)@, m2) == if m2 == m@ {
                Option::Some(c as int)
            } else {
                map_lookup(old(entries)@, m2)
            },
{
    let n = entries.len();
    for i in 0..n
        invariant
            n == entries@.len(),
            entries@ == old(entries)@,
            map_unique(entries@),
            forall|k: int| 0 <= k < i ==> (#[trigger] entries@[k]).member@ != m@,
    {
        if entries[i].member == *(&m) {
            entries[i] = MemberBinding { member: m, cluster: c };
            proof {
                assert forall|m2: Seq<char>|
                    #[trigger] map_lookup(entries@, m2) == if m2 == m@ {
                        Option::Some(c as int)
                    } else {
                        map_lookup(old(entries)@, m2)
                    } by {
                    if m2 == m@ {
                        lemma_map_lookup_at(entries@, m2, i as int);
                    } else {
                        if map_has(old(entries)@, m2) {
                            let w = map_index(old(entries)@, m2);
                            assert(old(entries)@[w].member@ == m2);
                            assert(w != i);
                            assert(entries@[w].member@ == m2);
                            lemma_map_lookup_at(entries@, m2, w);
                            lemma_map_lookup_at(old(entries)@, m2, w);
                        } else {
                            if map_has(entries@, m2) {
                                let w = map_index(entries@, m2);
                                assert(entries@[w].member@ == m2);
                                assert(w != i);
                                assert(old(entries)@[w].member@ == m2);
                                assert(false);
                            }
                        }
                    }
                }
            }
            return ;
        }
    }
    let ghost prev = entries@;
    entries.push(MemberBinding { member: m, cluster: c });
    proof {
        assert forall|m2: Seq<char>|
            #[trigger] map_lookup(entries@, m2) == if m2 == m@ {
                Option::Some(c as int)
            } else {
                map_lookup(prev, m2)
            } by {
            if m2 == m@ {
                assert(entries@[prev.len() as int].member@ == m2);
                lemma_map_lookup_at(entries@, m2, prev.len() as int);
            } else {
                if map_has(prev, m2) {
                    let w = map_index(prev, m2);
                    assert(prev[w].member@ == m2);
                    assert(entries@[w].member@ == m2);
                    lemma_map_lookup_at(entries@, m2, w);
                    lemma_map_lookup_at(prev, m2, w);
                } else {
                    if map_has(entries@, m2) {
                        let w = map_index(entries@, m2);
                        assert(entries@[w].member@ == m2);
                        assert(w == prev.len());
                        assert(false);
                    }
                }
            }
        }
    }
}

// ------------------------------------------------------------------
// Relationship counting
// ------------------------------------------------------------------
/// The canonical cluster-index pair an edge contributes to: both
/// endpoints resolve to clusters and the two indices differ; the
/// smaller index always comes first.
pub open spec fn edge_canonical_pair(
    g: DocpackGraph,
    ids: Seq<String>,
    e: Edge,
) -> Option<(int, int)> {
    match (member_cluster(g, ids, e.source@), member_cluster(g, ids, e.target@)) {
        (Option::Some(a), Option::Some(b)) => if a == b {
            Option::None
        } else if a < b {
            Option::Some((a, b))
        } else {
            Option::Some((b, a))
        },
        _ => Option::None,
    }
}

/// How many of the edges contribute to the canonical pair `(a, b)`.
pub open spec fn pair_weight(
    g: DocpackGraph,
    ids: Seq<String>,
    es: Seq<Edge>,
    a: int,
    b: int,
) -> nat {
    es.filter(|e: Edge| edge_canonical_pair(g, ids, e) == Option::Some((a, b))).len()
}

/// Canonical pair law: an edge and its reversal contribute to the same
/// canonical pair, so the relationship weight accumulates both
/// directions under one key, smaller cluster index first.
pub proof fn lemma_canonical_pair_symmetric(
    g: DocpackGraph,
    ids: Seq<String>,
    e1: Edge,
    e2: Edge,
)
    requires
        e2.source@ == e1.target@,
        e2.target@ == e1.source@,
    ensures
        edge_canonical_pair(g, ids, e2) == edge_canonical_pair(g, ids, e1),
        match edge_canonical_pair(g, ids, e1) {
            Option::Some(p) => p.0 < p.1,
            Option::None => true,
        },
{
}

/// One inter-cluster relationship: the canonical index pair and the
/// number of edges crossing between the two clusters.
#[derive(Debug)]
pub struct ClusterRelationship {
    pub lo: usize,
    pub hi: usize,
    pub weight: usize,
}

/// Whether the relationship list `ps` accounts exactly for the edges
/// `es`: keys are canonical (smaller index first) and unique, each
/// entry carries the exact count of edges crossing its pair, and every
/// edge that links two distinct clusters has an entry.
pub open spec fn pairs_ok(
    ps: Seq<ClusterRelationship>,
    g: DocpackGraph,
    ids: Seq<String>,
    es: Seq<Edge>,
) -> bool {
    &&& forall|i: int, j: int|
        0 <= i < j < ps.len() ==> !((#[trigger] ps[i]).lo == (#[trigger] ps[j]).lo && ps[i].hi
            == ps[j].hi)
    &&& forall|i: int|
        0 <= i < ps.len() ==> (#[trigger] ps[i]).lo < ps[i].hi < ids.len() && ps[i].weight
            == pair_weight(g, ids, es, ps[i].lo as int, ps[i].hi as int) && ps[i].weight >= 1
    &&& forall|t: int|
        0 <= t < es.len() ==> match edge_canonical_pair(g, ids, #[trigger] es[t]) {
            Option::Some(p) => exists|i: int|
                0 <= i < ps.len() && (#[trigger] ps[i]).lo == p.0 && ps[i].hi == p.1,
            Option::None => true,
        }
}

/// A pair with a positive weight has an entry in any list that
/// accounts for the edges.
proof fn lemma_positive_weight_has_pair(
    ps: Seq<ClusterRelationship>,
    g: DocpackGraph,
    ids: Seq<String>,
    es: Seq<Edge>,
    a: int,
    b: int,
)
    requires
        pairs_ok(ps, g, ids, es),
        pair_weight(g, ids, es, a, b) >= 1,
    ensures
        exists|i: int| 0 <= i < ps.len() && (#[trigger] ps[i]).lo == a && ps[i].hi == b,
{
    let f = es.filter(|e: Edge| edge_canonical_pair(g, ids, e) == Option::Some((a, b)));
    assert(f.contains(f[0]));
    lemma_filter_sub(es, |e: Edge| edge_canonical_pair(g, ids, e) == Option::Some((a, b)));
    assert(es.contains(f[0]));
    let t = choose|t: int| 0 <= t < es.len() && es[t] == f[0];
    assert(edge_canonical_pair(g, ids, es[t]) == Option::Some((a, b)));
}

/// An edge that does not cross two distinct clusters changes no weight.
proof fn lemma_pairs_skip(
    ps: Seq<ClusterRelationship>,
    g: DocpackGraph,
    ids: Seq<String>,
    es: Seq<Edge>,
    e0: Edge,
)
    requires
        pairs_ok(ps, g, ids, es),
        edge_canonical_pair(g, ids, e0) is None,
    ensures
        pairs_ok(ps, g, ids, es.push(e0)),
{
    let es2 = es.push(e0);
    assert forall|a: int, b: int|
        #[trigger] pair_weight(g, ids, es2, a, b) == pair_weight(g, ids, es, a, b) by {
        lemma_filter_push(es, e0, |e: Edge| edge_canonical_pair(g, ids, e) == Option::Some((a, b)));
    }
    assert forall|t: int| 0 <= t < es2.len() implies match edge_canonical_pair(
        g,
        ids,
        #[trigger] es2[t],
    ) {
        Option::Some(p) => exists|i: int|
            0 <= i < ps.len() && (#[trigger] ps[i]).lo == p.0 && ps[i].hi == p.1,
        Option::None => true,
    } by {
        if t < es.len() {
            assert(es2[t] == es[t]);
        } else {
            assert(es2[t] == e0);
        }
    }
}

/// Counts one more edge toward the canonical pair `(a, b)`.
fn bump_pair(
    ps: &mut Vec<ClusterRelationship>,
    a: usize,
    b: usize,
    Ghost(g): Ghost<DocpackGraph>,
    Ghost(ids): Ghost<Seq<String>>,
    Ghost(es): Ghost<Seq<Edge>>,
    Ghost(e0): Ghost<Edge>,
)
    requires
        pairs_ok(old(ps)@, g, ids, es),
        edge_canonical_pair(g, ids, e0) == Option::Some((a as int, b as int)),
        a < b < ids.len(),
        es.len() < usize::MAX as int,
    ensures
        pairs_ok(final(ps)@, g, ids, es.push(e0)),
{
    let ghost es2 = es.push(e0);
    proof {
        assert forall|x: int, y: int|
            #[trigger] pair_weight(g, ids, es2, x, y) == pair_weight(g, ids, es, x, y) + (
            if x == a && y == b {
                1int
            } else {
                0int
            }) by {
            lemma_filter_push(
                es,
                e0,
                |e: Edge| edge_canonical_pair(g, ids, e) == Option::Some((x, y)),
            );
        }
        assert forall|x: int, y: int| pair_weight(g, ids, es, x, y) < usize::MAX as int by {
            es.lemma_filter_len(|e: Edge| edge_canonical_pair(g, ids, e) == Option::Some((x, y)));
        }
    }
    let n = ps.len();
    for idx in 0..n
        invariant
            n == ps@.len(),
            ps@ == old(ps)@,
            pairs_ok(ps@, g, ids, es),
            edge_canonical_pair(g, ids, e0) == Option::Some((a as int, b as int)),
            a < b < ids.len(),
            es2 == es.push(e0),
            forall|x: int, y: int|
                #[trigger] pair_weight(g, ids, es2, x, y) == pair_weight(g, ids, es, x, y) + (
                if x == a && y == b {
                    1int
                } else {
                    0int
                }),
            forall|x: int, y: int| #[trigger] pair_weight(g, ids, es, x, y) < usize::MAX as int,
            forall|k: int|
                0 <= k < idx ==> !((#[trigger] ps@[k]).lo == a && ps@[k].hi == b),
    {
        if ps[idx].lo == a && ps[idx].hi == b {
            let w = ps[idx].weight;
            proof {
                assert(ps@[idx as int].weight == pair_weight(g, ids, es, a as int, b as int));
            }
            ps[idx] = ClusterRelationship { lo: a, hi: b, weight: w + 1 };
            proof {
                assert forall|i: int|
                    0 <= i < ps@.len() implies (#[trigger] ps@[i]).lo < ps@[i].hi < ids.len()
                    && ps@[i].weight == pair_weight(g, ids, es2, ps@[i].lo as int, ps@[i].hi as int)
                    && ps@[i].weight >= 1 by {
                    if i != idx {
                        assert(ps@[i] == old(ps)@[i]);
                        if i < idx {
                            assert(!(ps@[i].lo == ps@[idx as int].lo && ps@[i].hi
                                == ps@[idx as int].hi));
                        } else {
                            assert(!(ps@[idx as int].lo == ps@[i].lo && ps@[idx as int].hi
                                == ps@[i].hi));
                        }
                    }
                }
                assert forall|t: int| 0 <= t < es2.len() implies match edge_canonical_pair(
                    g,
                    ids,
                    #[trigger] es2[t],
                ) {
                    Option::Some(p) => exists|i: int|
                        0 <= i < ps@.len() && (#[trigger] ps@[i]).lo == p.0 && ps@[i].hi == p.1,
                    Option::None => true,
                } by {
                    if t < es.len() {
                        assert(es2[t] == es[t]);
                        match edge_canonical_pair(g, ids, es[t]) {
                            Option::Some(p) => {
                                let w2 = choose|i: int|
                                    0 <= i < old(ps)@.len() && (#[trigger] old(ps)@[i]).lo == p.0
                                        && old(ps)@[i].hi == p.1;
                                assert(ps@[w2].lo == p.0 && ps@[w2].hi == p.1);
                            },
                            Option::None => {},
                        }
                    } else {
                        assert(es2[t] == e0);
                        assert(ps@[idx as int].lo == a && ps@[idx as int].hi == b);
                    }
                }
            }
            return ;
        }
    }
    proof {
        if pair_weight(g, ids, es, a as int, b as int) >= 1 {
            lemma_positive_weight_has_pair(ps@, g, ids, es, a as int, b as int);
            let w = choose|i: int|
                0 <= i < ps@.len() && (#[trigger] ps@[i]).lo == a as int && ps@[i].hi == b as int;
            assert(false);
        }
    }
    let ghost prev = ps@;
    ps.push(ClusterRelationship { lo: a, hi: b, weight: 1 });
    proof {
        assert forall|t: int| 0 <= t < es2.len() implies match edge_canonical_pair(
            g,
            ids,
            #[trigger] es2[t],
        ) {
            Option::Some(p) => exists|i: int|
                0 <= i < ps@.len() && (#[trigger] ps@[i]).lo == p.0 && ps@[i].hi == p.1,
            Option::None => true,
        } by {
            if t < es.len() {
                assert(es2[t] == es[t]);
                match edge_canonical_pair(g, ids, es[t]) {
                    Option::Some(p) => {
                        let w2 = choose|i: int|
                            0 <= i < prev.len() && (#[trigger] prev[i]).lo == p.0 && prev[i].hi
                                == p.1;
                        assert(ps@[w2].lo == p.0 && ps@[w2].hi == p.1);
                    },
                    Option::None => {},
                }
            } else {
                assert(es2[t] == e0);
                assert(ps@[prev.len() as int].lo == a && ps@[prev.len() as int].hi == b);
            }
        }
    }
}

/// The inter-cluster relationship weights of one snapshot.
#[derive(Debug)]
pub struct RelationshipTable {
    pub pairs: Vec<ClusterRelationship>,
}

/// Whether some entry carries the (already canonical) pair.
pub open spec fn pairs_has(ps: Seq<ClusterRelationship>, lo: int, hi: int) -> bool {
    exists|i: int| 0 <= i < ps.len() && (#[trigger] ps[i]).lo == lo && ps[i].hi == hi
}

/// The weight stored for the (already canonical) pair, or zero.
pub open spec fn pairs_value(ps: Seq<ClusterRelationship>, lo: int, hi: int) -> nat {
    if pairs_has(ps, lo, hi) {
        let i = choose|i: int| 0 <= i < ps.len() && (#[trigger] ps[i]).lo == lo && ps[i].hi == hi;
        ps[i].weight as nat
    } else {
        0
    }
}

/// With unique keys, any entry holding the pair decides its value.
proof fn lemma_pairs_value_at(ps: Seq<ClusterRelationship>, lo: int, hi: int, i: int)
    requires
        forall|i2: int, j2: int|
            0 <= i2 < j2 < ps.len() ==> !((#[trigger] ps[i2]).lo == (#[trigger] ps[j2]).lo
                && ps[i2].hi == ps[j2].hi),
        0 <= i < ps.len(),
        ps[i].lo == lo,
        ps[i].hi == hi,
    ensures
        pairs_value(ps, lo, hi) == ps[i].weight,
{
    assert(pairs_has(ps, lo, hi));
    let w = choose|k: int| 0 <= k < ps.len() && (#[trigger] ps[k]).lo == lo && ps[k].hi == hi;
    if w != i {
        if w < i {
            assert(!(ps[w].lo == ps[i].lo && ps[w].hi == ps[i].hi));
        } else {
            assert(!(ps[i].lo == ps[w].lo && ps[i].hi == ps[w].hi));
        }
    }
}

impl RelationshipTable {
    /// Keys are unique.
    pub open spec fn wf(&self) -> bool {
        forall|i: int, j: int|
            0 <= i < j < self.pairs@.len() ==> !((#[trigger] self.pairs@[i]).lo == (
            #[trigger] self.pairs@[j]).lo && self.pairs@[i].hi == self.pairs@[j].hi)
    }

    /// Reads the weight between two clusters, canonicalizing the key
    /// before the lookup; pairs never counted weigh zero.
    pub fn get(&self, a: usize, b: usize) -> (r: usize)
        requires
            self.wf(),
        ensures
            ({
                let lo = if a <= b {
                    a
                } else {
                    b
                };
                let hi = if a <= b {
                    b
                } else {
                    a
                };
                r == pairs_value(self.pairs@, lo as int, hi as int)
            }),
    {
        let lo = if a <= b {
            a
        } else {
            b
        };
        let hi = if a <= b {
            b
        } else {
            a
        };
        let n = self.pairs.len();
        for i in 0..n
            invariant
                n == self.pairs@.len(),
                self.wf(),
                lo == if a <= b {
                    a
                } else {
                    b
                },
                hi == if a <= b {
                    b
                } else {
                    a
                },
                forall|k: int|
                    0 <= k < i ==> !((#[trigger] self.pairs@[k]).lo == lo && self.pairs@[k].hi
                        == hi),
        {
            if self.pairs[i].lo == lo && self.pairs[i].hi == hi {
                proof {
                    lemma_pairs_value_at(self.pairs@, lo as int, hi as int, i as int);
                }
                return self.pairs[i].weight;
            }
        }
        proof {
            if pairs_has(self.pairs@, lo as int, hi as int) {
                let w = choose|k: int|
                    0 <= k < self.pairs@.len() && (#[trigger] self.pairs@[k]).lo == lo as int
                        && self.pairs@[k].hi == hi as int;
                assert(false);
            }
            assert(pairs_value(self.pairs@, lo as int, hi as int) == 0);
        }
        0
    }
}

/// Computes the inter-cluster relationship weights of one snapshot.
/// The clusters are the nodes named by `cluster_ids`, indexed in that
/// order; identifiers that name no cluster node contribute no members.
/// Every edge whose endpoints resolve to two different clusters counts
/// one unit toward the canonical pair of the two indices; all other
/// edges contribute nothing.
pub fn compute_cluster_relationships(graph: &DocpackGraph, cluster_ids: &Vec<NodeId>) -> (r:
    RelationshipTable)
    requires
        graph.wf(),
        graph.edges@.len() < usize::MAX as int,
    ensures
        pairs_ok(r.pairs@, *graph, cluster_ids@, graph.edges@),
        r.wf(),
{
    // build the member-to-cluster lookup, last write wins
    let mut map: Vec<MemberBinding> = Vec::new();
    let kk = cluster_ids.len();
    for k in 0..kk
        invariant
            graph.wf(),
            kk == cluster_ids@.len(),
            map_unique(map@),
            forall|m: Seq<char>|
                #[trigger] map_lookup(map@, m) == member_cluster_upto(
                    *graph,
                    cluster_ids@,
                    k as int,
                    m,
                ),
    {
        let id = &cluster_ids[k];
        let mut is_cluster = false;
        match graph.find_node(id) {
            Option::Some(node) => {
                match &node.kind {
                    NodeKind::Cluster(c) => {
                        is_cluster = true;
                        let ghost ms = c.members@;
                        proof {
                            assert(cluster_members(*graph, cluster_ids@[k as int]) == ms);
                        }
                        let nm = c.members.len();
                        for j in 0..nm
                            invariant
                                graph.wf(),
                                kk == cluster_ids@.len(),
                                k < kk,
                                nm == ms.len(),
                                ms == c.members@,
                                cluster_members(*graph, cluster_ids@[k as int]) == ms,
                                map_unique(map@),
                                forall|m: Seq<char>|
                                    #[trigger] map_lookup(map@, m) == if has_view_upto(
                                        ms,
                                        j as int,
                                        m,
                                    ) {
                                        Option::Some(k as int)
                                    } else {
                                        member_cluster_upto(*graph, cluster_ids@, k as int, m)
                                    },
                        {
                            let member = c.members[j].clone();
                            let ghost m0 = member@;
                            map_put(&mut map, member, k);
                            proof {
                                assert forall|m: Seq<char>|
                                    #[trigger] map_lookup(map@, m) == if has_view_upto(
                                        ms,
                                        j + 1,
                                        m,
                                    ) {
                                        Option::Some(k as int)
                                    } else {
                                        member_cluster_upto(*graph, cluster_ids@, k as int, m)
                                    } by {
                                    if m == m0 {
                                        assert(ms[j as int]@ == m);
                                        assert(has_view_upto(ms, j + 1, m));
                                    } else {
                                        if has_view_upto(ms, j as int, m) {
                                            assert(has_view_upto(ms, j + 1, m));
                                        } else if has_view_upto(ms, j + 1, m) {
                                            let j2 = choose|j2: int|
                                                0 <= j2 < j + 1 && j2 < ms.len() && (
                                                #[trigger] ms[j2])@ == m;
                                            assert(j2 == j);
                                            assert(false);
                                        }
                                    }
                                }
                            }
                        }
                        proof {
                            assert forall|m: Seq<char>|
                                #[trigger] map_lookup(map@, m) == member_cluster_upto(
                                    *graph,
                                    cluster_ids@,
                                    k + 1,
                                    m,
                                ) by {
                                assert(cluster_lists_member(*graph, cluster_ids@[k as int], m)
                                    == has_view_upto(ms, nm as int, m));
                            }
                        }
                    },
                    _ => {},
                }
            },
            Option::None => {},
        }
        if !is_cluster {
            proof {
                assert forall|m: Seq<char>|
                    #[trigger] map_lookup(map@, m) == member_cluster_upto(
                        *graph,
                        cluster_ids@,
                        k + 1,
                        m,
                    ) by {
                    assert(cluster_members(*graph, cluster_ids@[k as int]) =~= Seq::<
                        String,
                    >::empty());
                    assert(!cluster_lists_member(*graph, cluster_ids@[k as int], m));
                }
            }
        }
    }
    // count every edge toward its canonical pair
    let mut pairs: Vec<ClusterRelationship> = Vec::new();
    proof {
        assert(graph.edges@.take(0) =~= Seq::<Edge>::empty());
    }
    let ne = graph.edges.len();
    for t in 0..ne
        invariant
            graph.wf(),
            ne == graph.edges@.len(),
            ne < usize::MAX as int,
            map_unique(map@),
            forall|m: Seq<char>|
                #[trigger] map_lookup(map@, m) == member_cluster(*graph, cluster_ids@, m),
            pairs_ok(pairs@, *graph, cluster_ids@, graph.edges@.take(t as int)),
    {
        let e = &graph.edges[t];
        proof {
            assert(graph.edges@.take(t + 1) =~= graph.edges@.take(t as int).push(
                graph.edges@[t as int],
            ));
        }
        let sc = map_get(&map, &e.source);
        let tc = map_get(&map, &e.target);
        let mut counted = false;
        match (sc, tc) {
            (Option::Some(a), Option::Some(b)) => {
                if a != b {
                    counted = true;
                    let lo = if a < b {
                        a
                    } else {
                        b
                    };
                    let hi = if a < b {
                        b
                    } else {
                        a
                    };
                    proof {
                        lemma_member_cluster_range(
                            *graph,
                            cluster_ids@,
                            cluster_ids@.len() as int,
                            e.source@,
                        );
                        lemma_member_cluster_range(
                            *graph,
                            cluster_ids@,
                            cluster_ids@.len() as int,
                            e.target@,
                        );
                        assert(edge_canonical_pair(*graph, cluster_ids@, graph.edges@[t as int])
                            == Option::Some((lo as int, hi as int)));
                        graph.edges@.take(t as int).lemma_filter_len(
                            |e2: Edge| edge_canonical_pair(*graph, cluster_ids@, e2)
                                == Option::Some((lo as int, hi as int)),
                        );
                    }
                    bump_pair(
                        &mut pairs,
                        lo,
                        hi,
                        Ghost(*graph),
                        Ghost(cluster_ids@),
                        Ghost(graph.edges@.take(t as int)),
                        Ghost(graph.edges@[t as int]),
                    );
                }
            },
            _ => {},
        }
        if !counted {
            proof {
                assert(edge_canonical_pair(*graph, cluster_ids@, graph.edges@[t as int]) is None);
                lemma_pairs_skip(
                    pairs@,
                    *graph,
                    cluster_ids@,
                    graph.edges@.take(t as int),
                    graph.edges@[t as int],
                );
            }
        }
    }
    proof {
        assert(graph.edges@.take(ne as int) =~= graph.edges@);
    }
    RelationshipTable { pairs }
}

// ------------------------------------------------------------------
// Cluster composition summaries
// ------------------------------------------------------------------
/// The cluster-kind nodes of a snapshot, in node order.
pub open spec fn cluster_nodes(g: DocpackGraph) -> Seq<Node> {
    g.nodes@.filter(|n: Node| n.kind is Cluster)
}

/// Whether a member identifier names a function node.
pub open spec fn member_is_function(g: DocpackGraph, mid: String) -> bool {
    g.spec_has_node(mid@) && g.spec_node(mid@).kind is Function
}

/// Whether a member identifier names a type node.
pub open spec fn member_is_type(g: DocpackGraph, mid: String) -> bool {
    g.spec_has_node(mid@) && g.spec_node(mid@).kind is Type
}

/// Whether a member identifier names a node with a complexity value.
pub open spec fn member_has_complexity(g: DocpackGraph, mid: String) -> bool {
    g.spec_has_node(mid@) && g.spec_node(mid@).metadata.complexity is Some
}

/// The complexity contributed by one member: its node's value, or zero
/// when the member is unresolved or unmeasured.
pub open spec fn member_complexity(g: DocpackGraph, mid: String) -> int {
    if g.spec_has_node(mid@) {
        match g.spec_node(mid@).metadata.complexity {
            Option::Some(v) => v as int,
            Option::None => 0,
        }
    } else {
        0
    }
}

/// The total complexity of a member list.
pub open spec fn complexity_sum(g: DocpackGraph, ms: Seq<String>) -> int
    decreases ms.len(),
{
    if ms.len() == 0 {
        0
    } else {
        complexity_sum(g, ms.drop_last()) + member_complexity(g, ms.last())
    }
}

/// The composition of one cluster, as shown by the subsystem map.
/// The average complexity a renderer displays is
/// `complexity_total / complexity_count` (zero when nothing was
/// measured); the two factors are kept separate so no precision is
/// fixed here.
#[derive(Debug)]
pub struct ClusterSummary {
    pub id: NodeId,
    pub name: String,
    pub keywords: Vec<String>,
    pub member_count: usize,
    pub functions: usize,
    pub types: usize,
    pub complexity_total: u128,
    pub complexity_count: usize,
    pub centroid: Option<Vec<i64>>,
}

/// Whether a summary describes a cluster node exactly.
pub open spec fn summary_matches(s: ClusterSummary, n: Node, g: DocpackGraph) -> bool {
    match n.kind {
        NodeKind::Cluster(c) => {
            &&& s.id@ == n.id@
            &&& s.name@ == c.name@
            &&& crate::text::seq_views(s.keywords@) == crate::text::seq_views(c.keywords@)
            &&& s.member_count == c.members@.len()
            &&& s.functions == c.members@.filter(|mid: String| member_is_function(g, mid)).len()
            &&& s.types == c.members@.filter(|mid: String| member_is_type(g, mid)).len()
            &&& s.complexity_total == complexity_sum(g, c.members@)
            &&& s.complexity_count == c.members@.filter(
                |mid: String| member_has_complexity(g, mid),
            ).len()
            &&& match (s.centroid, c.centroid) {
                (Option::Some(a), Option::Some(b)) => a@ == b@,
                (Option::None, Option::None) => true,
                _ => false,
            }
        },
        _ => false,
    }
}

/// Whether `rs` summarizes, record for record, the cluster nodes `ns`.
pub open spec fn summaries_match(rs: Seq<ClusterSummary>, ns: Seq<Node>, g: DocpackGraph) -> bool {
    rs.len() == ns.len() && forall|i: int|
        0 <= i < rs.len() ==> summary_matches(#[trigger] rs[i], ns[i], g)
}

/// Summarizes every cluster node of a snapshot, in node order: its
/// name and keywords, how many members it has and how many of them are
/// functions or types, its total measured complexity with the number
/// of measured members, and its centroid if it carries one.
pub fn cluster_summaries(graph: &DocpackGraph) -> (r: Vec<ClusterSummary>)
    requires
        graph.wf(),
    ensures
        summaries_match(r@, cluster_nodes(*graph), *graph),
{
    let mut r: Vec<ClusterSummary> = Vec::new();
    proof {
        assert(graph.nodes@.take(0) =~= Seq::<Node>::empty());
    }
    let n = graph.nodes.len();
    for i in 0..n
        invariant
            graph.wf(),
            n == graph.nodes@.len(),
            summaries_match(
                r@,
                graph.nodes@.take(i as int).filter(|n2: Node| n2.kind is Cluster),
                *graph,
            ),
    {
        let ghost prev_r = r@;
        let ghost prev_ns = graph.nodes@.take(i as int).filter(|n2: Node| n2.kind is Cluster);
        proof {
            assert(graph.nodes@.take(i + 1) =~= graph.nodes@.take(i as int).push(
                graph.nodes@[i as int],
            ));
            lemma_filter_push(
                graph.nodes@.take(i as int),
                graph.nodes@[i as int],
                |n2: Node| n2.kind is Cluster,
            );
        }
        let node = &graph.nodes[i];
        match &node.kind {
            NodeKind::Cluster(c) => {
                let ghost ms = c.members@;
                let mut functions: usize = 0;
                let mut types: usize = 0;
                let mut complexity_total: u128 = 0;
                let mut complexity_count: usize = 0;
                proof {
                    assert(ms.take(0) =~= Seq::<String>::empty());
                }
                let nm = c.members.len();
                for j in 0..nm
                    invariant
                        graph.wf(),
                        nm == ms.len(),
                        ms == c.members@,
                        functions == ms.take(j as int).filter(
                            |mid: String| member_is_function(*graph, mid),
                        ).len(),
                        types == ms.take(j as int).filter(
                            |mid: String| member_is_type(*graph, mid),
                        ).len(),
                        complexity_count == ms.take(j as int).filter(
                            |mid: String| member_has_complexity(*graph, mid),
                        ).len(),
                        complexity_total == complexity_sum(*graph, ms.take(j as int)),
                        complexity_total <= j * 0xffff_ffff,
                {
                    proof {
                        assert(ms.take(j + 1) =~= ms.take(j as int).push(ms[j as int]));
                        assert(ms.take(j + 1).drop_last() =~= ms.take(j as int));
                        lemma_filter_push(
                            ms.take(j as int),
                            ms[j as int],
                            |mid: String| member_is_function(*graph, mid),
                        );
                        lemma_filter_push(
                            ms.take(j as int),
                            ms[j as int],
                            |mid: String| member_is_type(*graph, mid),
                        );
                        lemma_filter_push(
                            ms.take(j as int),
                            ms[j as int],
                            |mid: String| member_has_complexity(*graph, mid),
                        );
                        ms.take(j as int).lemma_filter_len(
                            |mid: String| member_is_function(*graph, mid),
                        );
                        ms.take(j as int).lemma_filter_len(
                            |mid: String| member_is_type(*graph, mid),
                        );
                        ms.take(j as int).lemma_filter_len(
                            |mid: String| member_has_complexity(*graph, mid),
                        );
                    }
                    match graph.find_node(&c.members[j]) {
                        Option::Some(member) => {
                            match &member.kind {
                                NodeKind::Function(_) => {
                                    functions = functions + 1;
                                },
                                NodeKind::Type(_) => {
                                    types = types + 1;
                                },
                                _ => {},
                            }
                            match member.metadata.complexity {
                                Option::Some(v) => {
                                    complexity_total = complexity_total + v as u128;
                                    complexity_count = complexity_count + 1;
                                },
                                Option::None => {},
                            }
                        },
                        Option::None => {},
                    }
                }
                proof {
                    assert(ms.take(nm as int) =~= ms);
                }
                let centroid: Option<Vec<i64>> = match &c.centroid {
                    Option::Some(v) => Option::Some(clone_i64_vec(v)),
                    Option::None => Option::None,
                };
                r.push(
                    ClusterSummary {
                        id: node.id.clone(),
                        name: c.name.clone(),
                        keywords: clone_string_vec(&c.keywords),
                        member_count: c.members.len(),
                        functions,
                        types,
                        complexity_total,
                        complexity_count,
                        centroid,
                    },
                );
                proof {
                    assert(summary_matches(
                        r@[prev_r.len() as int],
                        graph.nodes@[i as int],
                        *graph,
                    ));
                    assert forall|k: int|
                        0 <= k < r@.len() implies summary_matches(
                        #[trigger] r@[k],
                        prev_ns.push(graph.nodes@[i as int])[k],
                        *graph,
                    ) by {
                        if k < prev_r.len() {
                            assert(r@[k] == prev_r[k]);
                        }
                    }
                }
            },
            _ => {},
        }
    }
    proof {
        assert(graph.nodes@.take(n as int) =~= graph.nodes@);
    }
    r
}

// ------------------------------------------------------------------
// Intensity buckets
// ------------------------------------------------------------------
/// Default bucket boundaries for relationship intensity: weights of 1
/// to 5, 6 to 10, and 11 to 20 fall into the three lower buckets, and
/// anything above 20 into the top one.
pub const INTENSITY_LOW_MAX: usize = 5;

pub const INTENSITY_MID_MAX: usize = 10;

pub const INTENSITY_HIGH_MAX: usize = 20;

/// The intensity bucket of a relationship weight, under the given
/// boundaries: 0 up to `low_max`, 1 up to `mid_max`, 2 up to
/// `high_max`, and 3 above.
pub fn intensity_bucket_with(count: usize, low_max: usize, mid_max: usize, high_max: usize) -> (r:
    u8)
    ensures
        r == if count > high_max {
            3int
        } else if count > mid_max {
            2int
        } else if count > low_max {
            1int
        } else {
            0int
        },
{
    if count > high_max {
        3
    } else if count > mid_max {
        2
    } else if count > low_max {
        1
    } else {
        0
    }
}

/// The intensity bucket of a relationship weight under the default
/// boundaries.
pub fn intensity_bucket(count: usize) -> (r: u8)
    ensures
        r == if count > INTENSITY_HIGH_MAX {
            3int
        } else if count > INTENSITY_MID_MAX {
            2int
        } else if count > INTENSITY_LOW_MAX {
            1int
        } else {
            0int
        },
{
    intensity_bucket_with(count, INTENSITY_LOW_MAX, INTENSITY_MID_MAX, INTENSITY_HIGH_MAX)
}

} // verus!
