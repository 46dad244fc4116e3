//! Structural mutation analysis between two snapshots: edge-count
//! drift, and the heuristic ranking of heavily mutated subtrees.
//!
//! A node identifier is attributed to a coarse module path, the text
//! before its first `"::"`; identifiers without that separator carry no
//! attribution.  Every identifier of the symmetric difference of the
//! two snapshots' node sets counts one change against its module path,
//! and any module path reaching the threshold is reported, ordered by
//! change count, largest first.  This is a string heuristic, not a
//! traversal of the graph's containment edges.

use vstd::prelude::*;

use crate::diff::{added_ids, graph_ids, lemma_graph_ids, removed_ids};
use crate::seqext::{lemma_filter_push, lemma_filter_sub};
use crate::types::DocpackGraph;

verus! {

/// Default cutoff: a module path must gather at least this many added
/// or removed identifiers to be reported as heavily mutated.
pub const DEFAULT_MUTATION_THRESHOLD: usize = 3;

/// The position of the first `"::"` at or after `i`, if any.
pub open spec fn first_sep_from(s: Seq<char>, i: int) -> Option<int>
    decreases s.len() - i,
{
    if i < 0 {
        Option::None
    } else if i + 2 > s.len() {
        Option::None
    } else if s[i] == ':' && s[i + 1] == ':' {
        Option::Some(i)
    } else {
        first_sep_from(s, i + 1)
    }
}

/// The coarse module attribution of a node identifier: the text before
/// its first `"::"`, or nothing when no separator occurs.
pub open spec fn module_of(s: Seq<char>) -> Option<Seq<char>> {
    match first_sep_from(s, 0) {
        Option::Some(i) => Option::Some(s.subrange(0, i)),
        Option::None => Option::None,
    }
}

/// Extracts the module path of a node identifier: the text before its
/// first `"::"`.  Identifiers without the separator contribute no
/// module attribution.
pub fn extract_module_path(node_id: &str) -> (r: Option<String>)
    ensures
        match r {
            Option::Some(m) => module_of(node_id@) == Option::Some(m@),
            Option::None => module_of(node_id@) is None,
        },
{
    let len = node_id.unicode_len();
    let mut i: usize = 0;
    loop
        invariant
            i <= len,
            len == node_id@.len(),
            first_sep_from(node_id@, 0) == first_sep_from(node_id@, i as int),
        decreases len - i,
    {
        if len < 2 || i >= len - 1 {
            proof {
                assert(first_sep_from(node_id@, i as int) is None);
            }
            return Option::None;
        }
        let c0 = node_id.get_char(i);
        let c1 = node_id.get_char(i + 1);
        if c0 == ':' && c1 == ':' {
            proof {
                assert(first_sep_from(node_id@, i as int) == Option::Some(i as int));
            }
            let prefix = node_id.substring_char(0, i);
            return Option::Some(prefix.to_owned());
        }
        i = i + 1;
    }
}

/// How many identifiers of `ids` are attributed to the module path `m`.
pub open spec fn tally_in(ids: Seq<Seq<char>>, m: Seq<char>) -> nat {
    ids.filter(|id: Seq<char>| module_of(id) == Option::Some(m)).len()
}

/// The identifiers of the symmetric difference of two snapshots' node
/// sets: removed ones first, then added ones.
pub open spec fn sym_diff_ids(old: DocpackGraph, new: DocpackGraph) -> Seq<Seq<char>> {
    removed_ids(old, new) + added_ids(old, new)
}

/// How many identifiers of the symmetric difference of two snapshots'
/// node sets are attributed to the module path `m`.
pub open spec fn module_tally(old: DocpackGraph, new: DocpackGraph, m: Seq<char>) -> nat {
    tally_in(sym_diff_ids(old, new), m)
}

/// One heavily mutated module path and its change count.
#[derive(Debug)]
pub struct SubtreeMutation {
    pub root: String,
    pub change_count: usize,
}

/// The structural comparison of two snapshots.
#[derive(Debug)]
pub struct StructureChanges {
    pub old_edge_count: usize,
    pub new_edge_count: usize,
    pub heavily_mutated_subtrees: Vec<SubtreeMutation>,
}

impl StructureChanges {
    /// Edge drift: the new edge count minus the old one.  Edges are
    /// counted, not deduplicated.
    pub open spec fn spec_edge_delta(&self) -> int {
        self.new_edge_count - self.old_edge_count
    }

    pub fn edge_delta(&self) -> (r: i64)
        requires
            self.old_edge_count <= 0x7fff_ffff_ffff_ffff,
            self.new_edge_count <= 0x7fff_ffff_ffff_ffff,
        ensures
            r == self.spec_edge_delta(),
    {
        if self.new_edge_count >= self.old_edge_count {
            (self.new_edge_count - self.old_edge_count) as i64
        } else {
            -((self.old_edge_count - self.new_edge_count) as i64)
        }
    }

    /// The comparison is significant iff the edge count moved or at
    /// least one heavily mutated subtree was found.
    pub fn has_significant_changes(&self) -> (r: bool)
        ensures
            r == (self.spec_edge_delta() != 0 || self.heavily_mutated_subtrees@.len() > 0),
    {
        self.new_edge_count != self.old_edge_count || self.heavily_mutated_subtrees.len() > 0
    }
}

/// Whether the tally list `es` accounts exactly for the identifiers
/// `ids`: roots are unique, every entry carries the exact tally of its
/// root, and every identifier with a module attribution has an entry
/// for it.
pub open spec fn tally_ok(es: Seq<SubtreeMutation>, ids: Seq<Seq<char>>) -> bool {
    &&& forall|i: int, j: int|
        0 <= i < j < es.len() ==> (#[trigger] es[i]).root@ != (#[trigger] es[j]).root@
    &&& forall|i: int|
        0 <= i < es.len() ==> (#[trigger] es[i]).change_count == tally_in(ids, es[i].root@)
            && tally_in(ids, es[i].root@) >= 1
    &&& forall|k: int|
        0 <= k < ids.len() ==> match module_of(#[trigger] ids[k]) {
            Option::Some(m) => exists|i: int| 0 <= i < es.len() && (#[trigger] es[i]).root@ == m,
            Option::None => true,
        }
}

/// A module path with a positive tally has an entry in any list that
/// accounts for the identifiers.
proof fn lemma_positive_tally_has_entry(es: Seq<SubtreeMutation>, ids: Seq<Seq<char>>, m: Seq<char>)
    requires
        tally_ok(es, ids),
        tally_in(ids, m) >= 1,
    ensures
        exists|i: int| 0 <= i < es.len() && (#[trigger] es[i]).root@ == m,
{
    let f = ids.filter(|id: Seq<char>| module_of(id) == Option::Some(m));
    assert(f.contains(f[0]));
    lemma_filter_sub(ids, |id: Seq<char>| module_of(id) == Option::Some(m));
    assert(ids.contains(f[0]));
    let k = choose|k: int| 0 <= k < ids.len() && ids[k] == f[0];
    assert(module_of(ids[k]) == Option::Some(m));
}

/// An identifier without a module attribution changes no tally.
proof fn lemma_tally_skip(es: Seq<SubtreeMutation>, ids: Seq<Seq<char>>, id0: Seq<char>)
    requires
        tally_ok(es, ids),
        module_of(id0) is None,
    ensures
        tally_ok(es, ids.push(id0)),
{
    let ids2 = ids.push(id0);
    assert forall|m: Seq<char>| #[trigger] tally_in(ids2, m) == tally_in(ids, m) by {
        lemma_filter_push(ids, id0, |id: Seq<char>| module_of(id) == Option::Some(m));
    }
    assert forall|k: int| 0 <= k < ids2.len() implies match module_of(#[trigger] ids2[k]) {
        Option::Some(m) => exists|i: int| 0 <= i < es.len() && (#[trigger] es[i]).root@ == m,
        Option::None => true,
    } by {
        if k < ids.len() {
            assert(ids2[k] == ids[k]);
        } else {
            assert(ids2[k] == id0);
        }
    }
}

/// Counts one more change against the module path `m`, which is the
/// attribution of the identifier `id0` about to be accounted for.
fn bump_tally(
    entries: &mut Vec<SubtreeMutation>,
    m: String,
    Ghost(ids): Ghost<Seq<Seq<char>>>,
    Ghost(id0): Ghost<Seq<char>>,
)
    requires
        tally_ok(old(entries)@, ids),
        module_of(id0) == Option::Some(m@),
        ids.len() < usize::MAX as int,
    ensures
        tally_ok(final(entries)@, ids.push(id0)),
{
    let ghost ids2 = ids.push(id0);
    proof {
        assert forall|m2: Seq<char>| #[trigger] tally_in(ids2, m2) == tally_in(ids, m2) + (
            if m2 == m@ {
                1int
            } else {
                0int
            }
        ) by {
            lemma_filter_push(ids, id0, |id: Seq<char>| module_of(id) == Option::Some(m2));
        }
        assert forall|m2: Seq<char>| tally_in(ids, m2) < usize::MAX as int by {
            ids.lemma_filter_len(|id: Seq<char>| module_of(id) == Option::Some(m2));
        }
    }
    let n = entries.len();
    for idx in 0..n
        invariant
            n == entries@.len(),
            entries@ == old(entries)@,
            tally_ok(entries@, ids),
            module_of(id0) == Option::Some(m@),
            ids2 == ids.push(id0),
            ids.len() < usize::MAX as int,
            forall|m2: Seq<char>|
                #[trigger] tally_in(ids2, m2) == tally_in(ids, m2) + (
                if m2 == m@ {
                    1int
                } else {
                    0int
                }),
            forall|m2: Seq<char>| #[trigger] tally_in(ids, m2) < usize::MAX as int,
            forall|k: int| 0 <= k < idx ==> (#[trigger] entries@[k]).root@ != m@,
    {
        if entries[idx].root == m {
            let count = entries[idx].change_count;
            proof {
                assert(entries@[idx as int].change_count == tally_in(ids, m@));
            }
            entries[idx] = SubtreeMutation { root: m, change_count: count + 1 };
            proof {
                assert forall|i: int|
                    0 <= i < entries@.len() implies (#[trigger] entries@[i]).change_count
                    == tally_in(ids2, entries@[i].root@) && tally_in(ids2, entries@[i].root@)
                    >= 1 by {
                    if i != idx {
                        assert(entries@[i] == old(entries)@[i]);
                        if i < idx {
                            assert(entries@[i].root@ != entries@[idx as int].root@);
                        } else {
                            assert(entries@[idx as int].root@ != entries@[i].root@);
                        }
                    }
                }
                assert forall|k: int| 0 <= k < ids2.len() implies match module_of(
                    #[trigger] ids2[k],
                ) {
                    Option::Some(m2) => exists|i: int|
                        0 <= i < entries@.len() && (#[trigger] entries@[i]).root@ == m2,
                    Option::None => true,
                } by {
                    if k < ids.len() {
                        assert(ids2[k] == ids[k]);
                        match module_of(ids[k]) {
                            Option::Some(m2) => {
                                let w = choose|i: int|
                                    0 <= i < old(entries)@.len() && old(entries)@[i].root@ == m2;
                                assert(entries@[w].root@ == m2);
                            },
                            Option::None => {},
                        }
                    } else {
                        assert(ids2[k] == id0);
                        assert(entries@[idx as int].root@ == m@);
                    }
                }
            }
            return ;
        }
    }
    // no entry yet: the module's previous tally must be zero
    proof {
        if tally_in(ids, m@) >= 1 {
            lemma_positive_tally_has_entry(entries@, ids, m@);
            let w = choose|i: int| 0 <= i < entries@.len() && entries@[i].root@ == m@;
            assert(false);
        }
    }
    let ghost prev = entries@;
    entries.push(SubtreeMutation { root: m, change_count: 1 });
    proof {
        assert forall|k: int| 0 <= k < ids2.len() implies match module_of(#[trigger] ids2[k]) {
            Option::Some(m2) => exists|i: int|
                0 <= i < entries@.len() && (#[trigger] entries@[i]).root@ == m2,
            Option::None => true,
        } by {
            if k < ids.len() {
                assert(ids2[k] == ids[k]);
                match module_of(ids[k]) {
                    Option::Some(m2) => {
                        let w = choose|i: int| 0 <= i < prev.len() && prev[i].root@ == m2;
                        assert(entries@[w].root@ == m2);
                    },
                    Option::None => {},
                }
            } else {
                assert(ids2[k] == id0);
                assert(entries@[prev.len() as int].root@ == m@);
            }
        }
    }
}

/// Sorts mutation records by change count, largest first, keeping the
/// same collection of records.
fn sort_mutations_desc(v: Vec<SubtreeMutation>) -> (r: Vec<SubtreeMutation>)
    ensures
        r@.to_multiset() == v@.to_multiset(),
        r@.len() == v@.len(),
        forall|i: int, j: int|
            0 <= i < j < r@.len() ==> (#[trigger] r@[i]).change_count >= (
            #[trigger] r@[j]).change_count,
{
    broadcast use vstd::seq_lib::group_to_multiset_ensures;

    let mut src = v;
    let mut out: Vec<SubtreeMutation> = Vec::new();
    proof {
        assert(out@.to_multiset().add(src@.to_multiset()) =~= v@.to_multiset());
    }
    loop
        invariant
            out@.to_multiset().add(src@.to_multiset()) == v@.to_multiset(),
            out@.len() + src@.len() == v@.len(),
            forall|i: int, j: int|
                0 <= i < j < out@.len() ==> (#[trigger] out@[i]).change_count >= (
                #[trigger] out@[j]).change_count,
            forall|i: int, j: int|
                0 <= i < out@.len() && 0 <= j < src@.len() ==> (#[trigger] out@[i]).change_count
                    >= (#[trigger] src@[j]).change_count,
        decreases src@.len(),
    {
        broadcast use vstd::seq_lib::group_to_multiset_ensures;

        if src.len() == 0 {
            proof {
                assert(src@.to_multiset() =~= vstd::multiset::Multiset::<SubtreeMutation>::empty());
                assert(out@.to_multiset() =~= v@.to_multiset());
            }
            return out;
        }
        let mut best: usize = 0;
        let n = src.len();
        for j in 1..n
            invariant
                n == src@.len(),
                best < n,
                forall|k: int|
                    0 <= k < j ==> (#[trigger] src@[k]).change_count
                        <= src@[best as int].change_count,
        {
            if src[j].change_count > src[best].change_count {
                best = j;
            }
        }
        let ghost prev_src = src@;
        let ghost prev_out = out@;
        let x = src.remove(best);
        out.push(x);
        proof {
            prev_src.to_multiset_ensures();
            assert(src@.to_multiset() == prev_src.to_multiset().remove(x));
            assert(out@.to_multiset() == prev_out.to_multiset().insert(x));
            assert(prev_src.to_multiset().count(x) >= 1) by {
                assert(prev_src[best as int] == x);
                assert(prev_src.contains(x));
            }
            assert(out@.to_multiset().add(src@.to_multiset()) =~= v@.to_multiset());
            assert forall|i: int, j: int|
                0 <= i < out@.len() && 0 <= j < src@.len() implies (
            #[trigger] out@[i]).change_count >= (#[trigger] src@[j]).change_count by {
                assert(src@[j] == if j < best {
                    prev_src[j]
                } else {
                    prev_src[j + 1]
                });
                if i < prev_out.len() {
                    assert(out@[i] == prev_out[i]);
                } else {
                    assert(out@[i] == x);
                }
            }
        }
    }
}

/// Computes the structural comparison of two snapshots: both edge
/// counts, and every module path of the symmetric difference of the
/// node sets whose change tally reaches `threshold`, with its exact
/// tally, ordered by tally, largest first.
pub fn analyze_graph_structure(old: &DocpackGraph, new: &DocpackGraph, threshold: usize) -> (r:
    StructureChanges)
    requires
        old.wf(),
        new.wf(),
        old.nodes@.len() + new.nodes@.len() < usize::MAX as int,
    ensures
        r.old_edge_count == old.edges@.len(),
        r.new_edge_count == new.edges@.len(),
        forall|i: int|
            0 <= i < r.heavily_mutated_subtrees@.len() ==> module_tally(
                *old,
                *new,
                (#[trigger] r.heavily_mutated_subtrees@[i]).root@,
            ) == r.heavily_mutated_subtrees@[i].change_count
                && r.heavily_mutated_subtrees@[i].change_count >= threshold,
        forall|m: Seq<char>|
            #[trigger] module_tally(*old, *new, m) >= threshold && module_tally(*old, *new, m) >= 1
                ==> exists|i: int|
                0 <= i < r.heavily_mutated_subtrees@.len() && (
                #[trigger] r.heavily_mutated_subtrees@[i]).root@ == m,
        forall|i: int, j: int|
            0 <= i < j < r.heavily_mutated_subtrees@.len() ==> (
            #[trigger] r.heavily_mutated_subtrees@[i]).change_count >= (
            #[trigger] r.heavily_mutated_subtrees@[j]).change_count,
        forall|i: int, j: int|
            0 <= i < j < r.heavily_mutated_subtrees@.len() ==> (
            #[trigger] r.heavily_mutated_subtrees@[i]).root@ != (
            #[trigger] r.heavily_mutated_subtrees@[j]).root@,
{
    let old_edge_count = old.edges.len();
    let new_edge_count = new.edges.len();
    let mut entries: Vec<SubtreeMutation> = Vec::new();
    let no = old.nodes.len();
    for i in 0..no
        invariant
            old.wf(),
            new.wf(),
            no == old.nodes@.len(),
            old.nodes@.len() + new.nodes@.len() < usize::MAX as int,
            tally_ok(
                entries@,
                graph_ids(*old).take(i as int).filter(|id: Seq<char>| !new.spec_has_node(id)),
            ),
    {
        let id = &old.nodes[i].id;
        let ghost prefix = graph_ids(*old).take(i as int).filter(
            |id: Seq<char>| !new.spec_has_node(id),
        );
        proof {
            lemma_graph_ids(*old);
            assert(graph_ids(*old).take(i + 1) =~= graph_ids(*old).take(i as int).push(id@));
            lemma_filter_push(
                graph_ids(*old).take(i as int),
                id@,
                |id: Seq<char>| !new.spec_has_node(id),
            );
            graph_ids(*old).take(i as int).lemma_filter_len(
                |id: Seq<char>| !new.spec_has_node(id),
            );
        }
        match new.find_node(id) {
            Option::Some(_) => {},
            Option::None => {
                match extract_module_path(id.as_str()) {
                    Option::Some(mstr) => {
                        bump_tally(&mut entries, mstr, Ghost(prefix), Ghost(id@));
                    },
                    Option::None => {
                        proof {
                            lemma_tally_skip(entries@, prefix, id@);
                        }
                    },
                }
            },
        }
    }
    proof {
        assert(graph_ids(*old).take(no as int) =~= graph_ids(*old));
        assert(removed_ids(*old, *new) + graph_ids(*new).take(0).filter(
            |id: Seq<char>| !old.spec_has_node(id),
        ) =~= graph_ids(*old).take(no as int).filter(|id: Seq<char>| !new.spec_has_node(id)));
        lemma_graph_ids(*old);
        graph_ids(*old).lemma_filter_len(|id: Seq<char>| !new.spec_has_node(id));
    }
    let nn = new.nodes.len();
    for i in 0..nn
        invariant
            old.wf(),
            new.wf(),
            nn == new.nodes@.len(),
            old.nodes@.len() + new.nodes@.len() < usize::MAX as int,
            removed_ids(*old, *new).len() <= old.nodes@.len(),
            tally_ok(
                entries@,
                removed_ids(*old, *new) + graph_ids(*new).take(i as int).filter(
                    |id: Seq<char>| !old.spec_has_node(id),
                ),
            ),
    {
        let id = &new.nodes[i].id;
        let ghost prefix = removed_ids(*old, *new) + graph_ids(*new).take(i as int).filter(
            |id: Seq<char>| !old.spec_has_node(id),
        );
        proof {
            lemma_graph_ids(*new);
            assert(graph_ids(*new).take(i + 1) =~= graph_ids(*new).take(i as int).push(id@));
            lemma_filter_push(
                graph_ids(*new).take(i as int),
                id@,
                |id: Seq<char>| !old.spec_has_node(id),
            );
            graph_ids(*new).take(i as int).lemma_filter_len(
                |id: Seq<char>| !old.spec_has_node(id),
            );
            assert(removed_ids(*old, *new) + graph_ids(*new).take(i as int).filter(
                |id: Seq<char>| !old.spec_has_node(id),
            ).push(id@) =~= prefix.push(id@));
        }
        match old.find_node(id) {
            Option::Some(_) => {},
            Option::None => {
                match extract_module_path(id.as_str()) {
                    Option::Some(mstr) => {
                        bump_tally(&mut entries, mstr, Ghost(prefix), Ghost(id@));
                    },
                    Option::None => {
                        proof {
                            lemma_tally_skip(entries@, prefix, id@);
                        }
                    },
                }
            },
        }
    }
    proof {
        assert(graph_ids(*new).take(nn as int) =~= graph_ids(*new));
        assert(removed_ids(*old, *new) + graph_ids(*new).take(nn as int).filter(
            |id: Seq<char>| !old.spec_has_node(id),
        ) =~= sym_diff_ids(*old, *new));
    }
    // keep the entries that reach the threshold
    let mut kept: Vec<SubtreeMutation> = Vec::new();
    let ne = entries.len();
    let mut idx: usize = 0;
    while idx < ne
        invariant
            idx <= ne,
            ne == entries@.len(),
            tally_ok(entries@, sym_diff_ids(*old, *new)),
            forall|a: int|
                0 <= a < kept@.len() ==> module_tally(*old, *new, (#[trigger] kept@[a]).root@)
                    == kept@[a].change_count && kept@[a].change_count >= threshold,
            forall|a: int, b: int|
                0 <= a < b < kept@.len() ==> (#[trigger] kept@[a]).root@ != (
                #[trigger] kept@[b]).root@,
            forall|k: int|
                0 <= k < idx && (#[trigger] entries@[k]).change_count >= threshold
                    ==> exists|a: int| 0 <= a < kept@.len() && (#[trigger] kept@[a]).root@
                    == entries@[k].root@,
            forall|a: int| #![trigger kept@[a]]
                0 <= a < kept@.len() ==> exists|k: int|
                    0 <= k < idx && (#[trigger] entries@[k]).root@ == kept@[a].root@,
        decreases ne - idx,
    {
        let ghost prev_kept = kept@;
        if entries[idx].change_count >= threshold {
            kept.push(
                SubtreeMutation {
                    root: entries[idx].root.clone(),
                    change_count: entries[idx].change_count,
                },
            );
            proof {
                assert(kept@[prev_kept.len() as int].root@ == entries@[idx as int].root@);
                assert forall|a: int, b: int|
                    0 <= a < b < kept@.len() implies (#[trigger] kept@[a]).root@ != (
                #[trigger] kept@[b]).root@ by {
                    if b == prev_kept.len() {
                        assert(prev_kept[a] == kept@[a]);
                        let k = choose|k: int|
                            0 <= k < idx && (#[trigger] entries@[k]).root@ == prev_kept[a].root@;
                        assert(entries@[k].root@ != entries@[idx as int].root@);
                    }
                }
            }
        }
        proof {
            assert forall|k: int|
                0 <= k < idx + 1 && (#[trigger] entries@[k]).change_count
                    >= threshold implies exists|a: int|
                0 <= a < kept@.len() && (#[trigger] kept@[a]).root@ == entries@[k].root@ by {
                if k == idx {
                    assert(kept@[kept@.len() - 1].root@ == entries@[k].root@);
                } else {
                    let a = choose|a: int|
                        0 <= a < prev_kept.len() && (#[trigger] prev_kept[a]).root@
                            == entries@[k].root@;
                    assert(kept@[a].root@ == entries@[k].root@);
                }
            }
            assert forall|a: int| #![trigger kept@[a]]
                0 <= a < kept@.len() implies exists|k: int|
                0 <= k < idx + 1 && (#[trigger] entries@[k]).root@ == kept@[a].root@ by {
                if a < prev_kept.len() {
                    assert(prev_kept[a] == kept@[a]);
                    let k = choose|k: int|
                        0 <= k < idx && (#[trigger] entries@[k]).root@ == prev_kept[a].root@;
                    assert(entries@[k].root@ == kept@[a].root@);
                } else {
                    assert(entries@[idx as int].root@ == kept@[a].root@);
                }
            }
        }
        idx = idx + 1;
    }
    let sorted = sort_mutations_desc(kept);
    let result = StructureChanges {
        old_edge_count,
        new_edge_count,
        heavily_mutated_subtrees: sorted,
    };
    proof {
        broadcast use vstd::seq_lib::group_to_multiset_ensures;

        let ks = result.heavily_mutated_subtrees@;
        // sorting permutes, so membership carries every entry's facts over
        assert forall|a: int| 0 <= a < ks.len() implies kept@.contains(#[trigger] ks[a]) by {
            assert(ks.contains(ks[a]));
            assert(ks.to_multiset().count(ks[a]) > 0);
        }
        assert forall|a: int| 0 <= a < ks.len() implies module_tally(
            *old,
            *new,
            (#[trigger] ks[a]).root@,
        ) == ks[a].change_count && ks[a].change_count >= threshold by {
            assert(kept@.contains(ks[a]));
            let b = choose|b: int| 0 <= b < kept@.len() && kept@[b] == ks[a];
        }
        assert forall|m: Seq<char>|
            #[trigger] module_tally(*old, *new, m) >= threshold && module_tally(*old, *new, m)
                >= 1 implies exists|i: int| 0 <= i < ks.len() && (#[trigger] ks[i]).root@
            == m by {
            lemma_positive_tally_has_entry(entries@, sym_diff_ids(*old, *new), m);
            let w = choose|i: int| 0 <= i < entries@.len() && entries@[i].root@ == m;
            assert(entries@[w].change_count >= threshold);
            let a = choose|a: int| 0 <= a < kept@.len() && kept@[a].root@ == m;
            assert(kept@.contains(kept@[a]));
            assert(kept@.to_multiset().count(kept@[a]) > 0);
            assert(ks.contains(kept@[a]));
            let i = choose|i: int| 0 <= i < ks.len() && ks[i] == kept@[a];
            assert(ks[i].root@ == m);
        }
        // roots unique in kept, hence its records are pairwise distinct
        // values, and a permutation keeps them so
        assert(kept@.no_duplicates()) by {
            assert forall|a: int, b: int|
                0 <= a < kept@.len() && 0 <= b < kept@.len() && a != b implies kept@[a]
                != kept@[b] by {
                if a < b {
                    assert(kept@[a].root@ != kept@[b].root@);
                } else {
                    assert(kept@[b].root@ != kept@[a].root@);
                }
            }
        }
        kept@.lemma_multiset_has_no_duplicates();
        ks.lemma_multiset_has_no_duplicates_conv();
        assert forall|i: int, j: int| 0 <= i < j < ks.len() implies (#[trigger] ks[i]).root@ != (
        #[trigger] ks[j]).root@ by {
            assert(ks[i] != ks[j]);
            assert(kept@.contains(ks[i]));
            assert(kept@.contains(ks[j]));
            let a = choose|a: int| 0 <= a < kept@.len() && kept@[a] == ks[i];
            let b = choose|b: int| 0 <= b < kept@.len() && kept@[b] == ks[j];
            assert(a != b);
            if a < b {
                assert(kept@[a].root@ != kept@[b].root@);
            } else {
                assert(kept@[b].root@ != kept@[a].root@);
            }
        }
    }
    result
}

/// With the same snapshot on both sides the symmetric difference is
/// empty, so no module gathers any change and the edge count cannot
/// drift.
pub proof fn lemma_identical_snapshot_structure(g: DocpackGraph)
    requires
        g.wf(),
    ensures
        sym_diff_ids(g, g).len() == 0,
        forall|m: Seq<char>| #[trigger] module_tally(g, g, m) == 0,
{
    lemma_graph_ids(g);
    crate::seqext::lemma_filter_none(graph_ids(g), |id: Seq<char>| !g.spec_has_node(id));
    assert(removed_ids(g, g).len() == 0);
    assert(added_ids(g, g).len() == 0);
    assert forall|m: Seq<char>| #[trigger] module_tally(g, g, m) == 0 by {
        sym_diff_ids(g, g).lemma_filter_len(|id: Seq<char>| module_of(id) == Option::Some(m));
    }
}

} // verus!
