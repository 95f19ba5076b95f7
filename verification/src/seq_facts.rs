//! Small facts about sequences that the proofs of the repository share.

use vstd::prelude::*;

verus! {

/// After a push a sequence contains what it contained before, and the new
/// element.
pub proof fn lemma_push_contains<A>(s: Seq<A>, x: A, k: A)
    ensures
        s.push(x).contains(k) <==> (s.contains(k) || k == x),
{
    if s.push(x).contains(k) {
        let i = choose|i: int| 0 <= i < s.push(x).len() && s.push(x)[i] == k;
        if i < s.len() {
            assert(s[i] == k);
        }
    }
    if s.contains(k) {
        let i = choose|i: int| 0 <= i < s.len() && s[i] == k;
        assert(s.push(x)[i] == k);
    }
    if k == x {
        assert(s.push(x)[s.len() as int] == k);
    }
}

/// Pushing an element that does not occur keeps a sequence free of
/// duplicates.
pub proof fn lemma_push_no_duplicates<A>(s: Seq<A>, x: A)
    requires
        s.no_duplicates(),
        !s.contains(x),
    ensures
        s.push(x).no_duplicates(),
{
    assert forall|i: int, j: int|
        0 <= i < s.push(x).len() && 0 <= j < s.push(x).len() && i != j implies s.push(x)[i]
        != s.push(x)[j] by {
        if i < s.len() && j < s.len() {
        } else if i < s.len() {
            assert(s.contains(s[i]));
        } else {
            assert(s.contains(s[j]));
        }
    }
}

/// A duplicate-free sequence that lists exactly the members of a set shows
/// that the set is finite, and how many members it has.
pub proof fn lemma_listed_set<A>(order: Seq<A>, members: Set<A>)
    requires
        order.no_duplicates(),
        forall|k: A| order.contains(k) <==> members.contains(k),
    ensures
        members.finite(),
        members.len() == order.len(),
{
    order.unique_seq_to_set();
    vstd::seq_lib::seq_to_set_is_finite(order);
    assert(members =~= order.to_set());
}

/// What a filtered sequence contains: the elements of the sequence that pass
/// the test.
pub proof fn lemma_filter_contains<A>(s: Seq<A>, pass: spec_fn(A) -> bool, x: A)
    ensures
        s.filter(pass).contains(x) <==> (s.contains(x) && pass(x)),
    decreases s.len(),
{
    reveal(Seq::filter);
    if s.len() > 0 {
        let front = s.drop_last();
        lemma_filter_contains(front, pass, x);
        lemma_push_contains(front, s.last(), x);
        assert(front.push(s.last()) =~= s);
        if pass(s.last()) {
            lemma_push_contains(front.filter(pass), s.last(), x);
        }
    }
}

/// Filtering keeps a sequence free of duplicates.
pub proof fn lemma_filter_no_duplicates<A>(s: Seq<A>, pass: spec_fn(A) -> bool)
    requires
        s.no_duplicates(),
    ensures
        s.filter(pass).no_duplicates(),
    decreases s.len(),
{
    reveal(Seq::filter);
    if s.len() > 0 {
        let front = s.drop_last();
        lemma_filter_no_duplicates(front, pass);
        if pass(s.last()) {
            lemma_filter_contains(front, pass, s.last());
            if front.contains(s.last()) {
                let i = choose|i: int| 0 <= i < front.len() && front[i] == s.last();
                assert(s[i] == s[s.len() - 1]);
            }
            lemma_push_no_duplicates(front.filter(pass), s.last());
        }
    }
}

/// Two tests that agree on every element of a sequence filter it alike.
pub proof fn lemma_filter_agree<A>(s: Seq<A>, p: spec_fn(A) -> bool, q: spec_fn(A) -> bool)
    requires
        forall|i: int| 0 <= i < s.len() ==> p(#[trigger] s[i]) == q(s[i]),
    ensures
        s.filter(p) == s.filter(q),
    decreases s.len(),
{
    reveal(Seq::filter);
    if s.len() > 0 {
        let front = s.drop_last();
        assert forall|i: int| 0 <= i < front.len() implies p(#[trigger] front[i]) == q(
            front[i],
        ) by {
            assert(front[i] == s[i]);
        }
        lemma_filter_agree(front, p, q);
        assert(p(s[s.len() - 1]) == q(s[s.len() - 1]));
    }
}

/// Filtering by one test and then by another is filtering by both.
pub proof fn lemma_filter_twice<A>(
    s: Seq<A>,
    p: spec_fn(A) -> bool,
    q: spec_fn(A) -> bool,
    both: spec_fn(A) -> bool,
)
    requires
        forall|x: A| #[trigger] both(x) == (p(x) && q(x)),
    ensures
        s.filter(p).filter(q) == s.filter(both),
    decreases s.len(),
{
    reveal(Seq::filter);
    if s.len() > 0 {
        let front = s.drop_last();
        let last = s.last();
        lemma_filter_twice(front, p, q, both);
        assert(both(last) == (p(last) && q(last)));
        if p(last) {
            front.filter(p).lemma_filter_push(last, q);
        }
    }
}

/// A test that everything passes filters nothing out.
pub proof fn lemma_filter_all<A>(s: Seq<A>, pass: spec_fn(A) -> bool)
    requires
        forall|x: A| #[trigger] pass(x),
    ensures
        s.filter(pass) == s,
    decreases s.len(),
{
    reveal(Seq::filter);
    if s.len() > 0 {
        lemma_filter_all(s.drop_last(), pass);
        assert(s.drop_last().push(s.last()) =~= s);
    }
}

} // verus!
