//! Small facts about `Seq::filter` that the detectors lean on: how a
//! filter grows when one element is appended, that filtering preserves
//! duplicate-freedom, and how the lengths of a filter and its complement
//! add up.

use vstd::prelude::*;

verus! {

/// Filtering a sequence extended by one element appends that element
/// exactly when it satisfies the predicate.
pub proof fn lemma_filter_push<A>(s: Seq<A>, x: A, pred: spec_fn(A) -> bool)
    ensures
        s.push(x).filter(pred) == if pred(x) {
            s.filter(pred).push(x)
        } else {
            s.filter(pred)
        },
{
    reveal(Seq::filter);
    assert(s.push(x).drop_last() =~= s);
}

/// Every element of a filtered sequence comes from the original and
/// satisfies the predicate.
pub proof fn lemma_filter_sub<A>(s: Seq<A>, pred: spec_fn(A) -> bool)
    ensures
        forall|x: A| #[trigger] s.filter(pred).contains(x) ==> s.contains(x) && pred(x),
    decreases s.len(),
{
    reveal(Seq::filter);
    if s.len() > 0 {
        let dl = s.drop_last();
        lemma_filter_sub(dl, pred);
        assert forall|x: A| #[trigger] s.filter(pred).contains(x) implies s.contains(x) && pred(
            x,
        ) by {
            if dl.filter(pred).contains(x) {
                let i = choose|i: int| 0 <= i < dl.len() && dl[i] == x;
                assert(s[i] == x);
            } else {
                assert(x == s.last());
                assert(s[s.len() - 1] == x);
            }
        }
    }
}

/// Filtering keeps a duplicate-free sequence duplicate-free.
pub proof fn lemma_filter_no_duplicates<A>(s: Seq<A>, pred: spec_fn(A) -> bool)
    requires
        s.no_duplicates(),
    ensures
        s.filter(pred).no_duplicates(),
    decreases s.len(),
{
    reveal(Seq::filter);
    if s.len() > 0 {
        let dl = s.drop_last();
        assert(dl.no_duplicates());
        lemma_filter_no_duplicates(dl, pred);
        lemma_filter_sub(dl, pred);
        if pred(s.last()) {
            assert(!dl.contains(s.last())) by {
                if dl.contains(s.last()) {
                    let i = choose|i: int| 0 <= i < dl.len() && dl[i] == s.last();
                    assert(s[i] == s[s.len() - 1]);
                }
            }
            assert(!dl.filter(pred).contains(s.last()));
        }
    }
}

/// A filter and its complement split the length of the sequence.
pub proof fn lemma_filter_complement_len<A>(
    s: Seq<A>,
    pred: spec_fn(A) -> bool,
    co: spec_fn(A) -> bool,
)
    requires
        forall|x: A| #[trigger] co(x) <==> !pred(x),
    ensures
        s.filter(pred).len() + s.filter(co).len() == s.len(),
    decreases s.len(),
{
    reveal(Seq::filter);
    if s.len() > 0 {
        lemma_filter_complement_len(s.drop_last(), pred, co);
    }
}

/// A predicate holding nowhere filters everything away.
pub proof fn lemma_filter_none<A>(s: Seq<A>, pred: spec_fn(A) -> bool)
    requires
        forall|i: int| 0 <= i < s.len() ==> !pred(#[trigger] s[i]),
    ensures
        s.filter(pred).len() == 0,
    decreases s.len(),
{
    reveal(Seq::filter);
    if s.len() > 0 {
        let dl = s.drop_last();
        assert(forall|i: int| 0 <= i < dl.len() ==> !pred(#[trigger] dl[i]));
        lemma_filter_none(dl, pred);
    }
}

/// A predicate holding everywhere filters nothing away.
pub proof fn lemma_filter_all<A>(s: Seq<A>, pred: spec_fn(A) -> bool)
    requires
        forall|i: int| 0 <= i < s.len() ==> pred(#[trigger] s[i]),
    ensures
        s.filter(pred) == s,
    decreases s.len(),
{
    reveal(Seq::filter);
    if s.len() > 0 {
        let dl = s.drop_last();
        assert(forall|i: int| 0 <= i < dl.len() ==> pred(#[trigger] dl[i]));
        lemma_filter_all(dl, pred);
        assert(s.filter(pred) =~= s);
    }
}

/// Membership in a filtered sequence's set, characterized by membership
/// in the original and the predicate.
pub proof fn lemma_filter_to_set<A>(s: Seq<A>, pred: spec_fn(A) -> bool)
    ensures
        forall|x: A|
            #[trigger] s.filter(pred).to_set().contains(x) <==> (s.contains(x) && pred(x)),
{
    lemma_filter_sub(s, pred);
    assert forall|x: A| s.contains(x) && pred(x) implies #[trigger] s.filter(
        pred,
    ).to_set().contains(x) by {
        let i = choose|i: int| 0 <= i < s.len() && s[i] == x;
        s.lemma_filter_contains(pred, i);
    }
}

/// Two duplicate-free sequences over the same set of values have the
/// same length.
pub proof fn lemma_unique_seqs_same_set_same_len<A>(a: Seq<A>, b: Seq<A>)
    requires
        a.no_duplicates(),
        b.no_duplicates(),
        a.to_set() == b.to_set(),
    ensures
        a.len() == b.len(),
{
    a.unique_seq_to_set();
    b.unique_seq_to_set();
}

} // verus!
