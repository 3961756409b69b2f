//! Facts about keeping some entries of a sequence.

use vstd::prelude::*;

verus! {

/// Conditions that agree on all entries keep the same ones.
pub proof fn lemma_filter_agree<A>(s: Seq<A>, f: spec_fn(A) -> bool, g: spec_fn(A) -> bool)
    requires
        forall|i: int| 0 <= i < s.len() ==> f(#[trigger] s[i]) == g(s[i]),
    ensures
        s.filter(f) == s.filter(g),
    decreases s.len(),
{
    reveal(Seq::filter);
    if s.len() > 0 {
        assert forall|i: int| 0 <= i < s.drop_last().len() implies f(
            #[trigger] s.drop_last()[i],
        ) == g(s.drop_last()[i]) by {
            assert(s.drop_last()[i] == s[i]);
        }
        lemma_filter_agree(s.drop_last(), f, g);
        assert(f(s[s.len() - 1]) == g(s[s.len() - 1]));
    }
}

/// Keeping by one condition and then by another is keeping by both.
pub proof fn lemma_filter_twice<A>(s: Seq<A>, f: spec_fn(A) -> bool, g: spec_fn(A) -> bool)
    ensures
        s.filter(f).filter(g) == s.filter(|a: A| f(a) && g(a)),
    decreases s.len(),
{
    reveal(Seq::filter);
    if s.len() > 0 {
        let h = |a: A| f(a) && g(a);
        let t = s.drop_last();
        lemma_filter_twice(t, f, g);
        if f(s.last()) {
            assert(t.filter(f).push(s.last()).drop_last() =~= t.filter(f));
        }
        assert(t.filter(f).filter(g) == t.filter(h));
    } else {
        assert(s.filter(f) =~= Seq::<A>::empty());
        assert(s.filter(|a: A| f(a) && g(a)) =~= Seq::<A>::empty());
    }
}

/// What is kept is what was there and meets the condition.
pub proof fn lemma_filter_keeps<A>(s: Seq<A>, f: spec_fn(A) -> bool, x: A)
    ensures
        s.filter(f).contains(x) <==> s.contains(x) && f(x),
    decreases s.len(),
{
    reveal(Seq::filter);
    if s.len() > 0 {
        let t = s.drop_last();
        lemma_filter_keeps(t, f, x);
        assert(s =~= t.push(s.last()));
        assert(s.contains(x) <==> t.contains(x) || x == s.last()) by {
            if t.contains(x) {
                let j = choose|j: int| 0 <= j < t.len() && t[j] == x;
                assert(s[j] == x);
            }
            assert(s[s.len() - 1] == s.last());
        }
        if f(s.last()) {
            let u = t.filter(f);
            assert(s.filter(f) == u.push(s.last()));
            assert(u.push(s.last())[u.len() as int] == s.last());
            if u.contains(x) {
                let j = choose|j: int| 0 <= j < u.len() && u[j] == x;
                assert(u.push(s.last())[j] == x);
            }
        }
    }
}

/// If every entry meets the condition, all are kept.
pub proof fn lemma_filter_all<A>(s: Seq<A>, f: spec_fn(A) -> bool)
    requires
        forall|i: int| 0 <= i < s.len() ==> f(#[trigger] s[i]),
    ensures
        s.filter(f) == s,
    decreases s.len(),
{
    reveal(Seq::filter);
    if s.len() > 0 {
        assert forall|i: int| 0 <= i < s.drop_last().len() implies f(
            #[trigger] s.drop_last()[i],
        ) by {
            assert(s.drop_last()[i] == s[i]);
        }
        lemma_filter_all(s.drop_last(), f);
        assert(f(s[s.len() - 1]));
        assert(s.drop_last().push(s.last()) =~= s);
    } else {
        assert(s.filter(f) =~= s);
    }
}

/// Keeping some entries makes no duplicates.
pub proof fn lemma_filter_no_duplicates<A>(s: Seq<A>, f: spec_fn(A) -> bool)
    requires
        s.no_duplicates(),
    ensures
        s.filter(f).no_duplicates(),
    decreases s.len(),
{
    reveal(Seq::filter);
    if s.len() > 0 {
        let t = s.drop_last();
        lemma_filter_no_duplicates(t, f);
        lemma_filter_keeps(t, f, s.last());
        assert(!t.contains(s.last()));
        let u = t.filter(f);
        assert forall|i: int, j: int|
            0 <= i < u.push(s.last()).len() && 0 <= j < u.push(s.last()).len() && i
                != j implies u.push(s.last())[i] != u.push(s.last())[j] by {
            if i < u.len() {
                assert(u.contains(u[i]));
            }
            if j < u.len() {
                assert(u.contains(u[j]));
            }
        }
    }
}

/// What is kept of a sequence with one more entry in front.
pub proof fn lemma_filter_first<A>(a: A, s: Seq<A>, f: spec_fn(A) -> bool)
    ensures
        (seq![a] + s).filter(f) == (if f(a) {
            seq![a] + s.filter(f)
        } else {
            s.filter(f)
        }),
{
    Seq::filter_distributes_over_add(seq![a], s, f);
    assert(seq![a].filter(f) == (if f(a) {
        seq![a]
    } else {
        Seq::empty()
    })) by {
        reveal_with_fuel(Seq::filter, 2);
        assert(seq![a].drop_last() =~= Seq::<A>::empty());
        assert(Seq::<A>::empty().push(a) =~= seq![a]);
    }
    assert(Seq::<A>::empty() + s.filter(f) =~= s.filter(f));
}

} // verus!
