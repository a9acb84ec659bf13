//! Small facts about sequences: membership under `push` and `drop_last`,
//! and how `filter` interacts with membership and duplicate-freedom.

use vstd::prelude::*;

verus! {

/// Membership in a pushed sequence.
pub proof fn lemma_push_contains<A>(s: Seq<A>, v: A, x: A)
    ensures
        s.push(v).contains(x) <==> s.contains(x) || x == v,
{
    if s.contains(x) {
        let i = choose|i: int| 0 <= i < s.len() && s[i] == x;
        assert(s.push(v)[i] == x);
    }
    if x == v {
        assert(s.push(v)[s.len() as int] == x);
    }
    if s.push(v).contains(x) {
        let i = choose|i: int| 0 <= i < s.push(v).len() && s.push(v)[i] == x;
        if i < s.len() {
            assert(s[i] == x);
        }
    }
}

/// Membership split at the last element.
pub proof fn lemma_drop_last_contains<A>(s: Seq<A>, x: A)
    requires
        s.len() > 0,
    ensures
        s.contains(x) <==> s.drop_last().contains(x) || x == s.last(),
{
    if s.contains(x) {
        let i = choose|i: int| 0 <= i < s.len() && s[i] == x;
        if i < s.len() - 1 {
            assert(s.drop_last()[i] == x);
        }
    }
    if s.drop_last().contains(x) {
        let i = choose|i: int| 0 <= i < s.drop_last().len() && s.drop_last()[i] == x;
        assert(s[i] == x);
    }
    if x == s.last() {
        assert(s[s.len() - 1] == x);
    }
}

/// A filtered sequence holds exactly the original members that satisfy the
/// predicate.
pub proof fn lemma_filter_contains_iff<A>(s: Seq<A>, p: spec_fn(A) -> bool, x: A)
    ensures
        s.filter(p).contains(x) <==> s.contains(x) && p(x),
    decreases s.len(),
{
    reveal(Seq::filter);
    if s.len() == 0 {
    } else {
        let d = s.drop_last();
        let l = s.last();
        lemma_filter_contains_iff(d, p, x);
        lemma_drop_last_contains(s, x);
        if p(l) {
            lemma_push_contains(d.filter(p), l, x);
        }
    }
}

/// Filtering by a predicate every element satisfies changes nothing.
pub proof fn lemma_filter_all<A>(s: Seq<A>, p: spec_fn(A) -> bool)
    requires
        forall|i: int| 0 <= i < s.len() ==> p(#[trigger] s[i]),
    ensures
        s.filter(p) == s,
    decreases s.len(),
{
    reveal(Seq::filter);
    if s.len() == 0 {
        assert(s.filter(p) =~= s);
    } else {
        let d = s.drop_last();
        assert(forall|i: int| 0 <= i < d.len() ==> p(#[trigger] d[i]));
        lemma_filter_all(d, p);
        assert(p(s.last()));
        assert(d.push(s.last()) =~= s);
    }
}

/// Pushing a fresh element keeps a sequence duplicate-free.
pub proof fn lemma_no_dups_push<A>(s: Seq<A>, v: A)
    requires
        s.no_duplicates(),
        !s.contains(v),
    ensures
        s.push(v).no_duplicates(),
{
    let t = s.push(v);
    assert forall|i: int, j: int|
        0 <= i < t.len() && 0 <= j < t.len() && i != j implies t[i] != t[j] by {
        if i < s.len() && j < s.len() {
        } else if i < s.len() {
            assert(s.contains(s[i]));
        } else if j < s.len() {
            assert(s.contains(s[j]));
        }
    }
}

/// Filtering keeps a sequence duplicate-free.
pub proof fn lemma_filter_no_dups<A>(s: Seq<A>, p: spec_fn(A) -> bool)
    requires
        s.no_duplicates(),
    ensures
        s.filter(p).no_duplicates(),
    decreases s.len(),
{
    reveal(Seq::filter);
    if s.len() == 0 {
    } else {
        let d = s.drop_last();
        let l = s.last();
        assert(d.no_duplicates());
        lemma_filter_no_dups(d, p);
        if p(l) {
            if d.contains(l) {
                let i = choose|i: int| 0 <= i < d.len() && d[i] == l;
                assert(s[i] == s[s.len() - 1]);
                assert(false);
            }
            lemma_filter_contains_iff(d, p, l);
            lemma_no_dups_push(d.filter(p), l);
        }
    }
}

} // verus!
