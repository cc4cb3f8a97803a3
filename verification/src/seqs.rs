//! Facts about selecting from a sequence, as the store's queries do.

use vstd::prelude::*;

verus! {

/// The views of the elements of `s`, in the same order.
pub open spec fn views<T: View>(s: Seq<T>) -> Seq<T::V> {
    s.map_values(|x: T| x@)
}

/// The view of what `o` holds, if it holds anything.
pub open spec fn view_of<T: View>(o: Option<T>) -> Option<T::V> {
    match o {
        Some(x) => Some(x@),
        None => None,
    }
}

/// The first element of `s`, if there is one.
pub open spec fn head<A>(s: Seq<A>) -> Option<A> {
    if s.len() == 0 {
        None
    } else {
        Some(s[0])
    }
}

/// The predicate that holds where `p` does not.
pub open spec fn except<A>(p: spec_fn(A) -> bool) -> spec_fn(A) -> bool {
    |a: A| !p(a)
}

/// Selecting from one more element either appends that element or changes
/// nothing.
pub proof fn lemma_select_step<A>(s: Seq<A>, p: spec_fn(A) -> bool, i: int)
    requires
        0 <= i < s.len(),
    ensures
        s.take(i + 1).filter(p) == if p(s[i]) {
            s.take(i).filter(p).push(s[i])
        } else {
            s.take(i).filter(p)
        },
{
    assert(s.take(i + 1) =~= s.take(i).push(s[i]));
    s.take(i).lemma_filter_push(s[i], p);
}

/// Selecting from the empty prefix gives nothing; the whole sequence is its
/// own longest prefix.
pub proof fn lemma_select_ends<A>(s: Seq<A>, p: spec_fn(A) -> bool)
    ensures
        s.take(0).filter(p) == Seq::<A>::empty(),
        s.take(s.len() as int) == s,
{
    reveal(Seq::filter);
    assert(s.take(0) =~= Seq::<A>::empty());
    assert(s.take(s.len() as int) =~= s);
}

/// The first element that satisfies `p` heads the selection by `p`.
pub proof fn lemma_first_hit<A>(s: Seq<A>, p: spec_fn(A) -> bool, i: int)
    requires
        0 <= i < s.len(),
        p(s[i]),
        s.take(i).filter(p).len() == 0,
    ensures
        head(s.filter(p)) == Some(s[i]),
{
    lemma_select_step(s, p, i);
    let front = s.take(i + 1);
    let back = s.skip(i + 1);
    assert(s =~= front + back);
    Seq::filter_distributes_over_add(front, back, p);
    assert(front.filter(p)[0] == s[i]);
    assert((front.filter(p) + back.filter(p))[0] == s[i]);
}

/// Every selected element satisfies the predicate and comes from the
/// sequence.
pub proof fn lemma_selected<A>(s: Seq<A>, p: spec_fn(A) -> bool, k: int)
    requires
        0 <= k < s.filter(p).len(),
    ensures
        p(s.filter(p)[k]),
        s.contains(s.filter(p)[k]),
    decreases s.len(),
{
    reveal(Seq::filter);
    if s.len() > 0 {
        let rest = s.drop_last();
        if k < rest.filter(p).len() {
            lemma_selected(rest, p, k);
            let j = choose|j: int| 0 <= j < rest.len() && rest[j] == rest.filter(p)[k];
            assert(s[j] == s.filter(p)[k]);
        } else {
            assert(s.filter(p)[k] == s[s.len() - 1]);
        }
    }
}

/// An element that satisfies the predicate is among the selected.
pub proof fn lemma_kept<A>(s: Seq<A>, p: spec_fn(A) -> bool, i: int)
    requires
        0 <= i < s.len(),
        p(s[i]),
    ensures
        s.filter(p).contains(s[i]),
    decreases s.len(),
{
    reveal(Seq::filter);
    let rest = s.drop_last();
    if i == s.len() - 1 {
        assert(s.filter(p)[s.filter(p).len() - 1] == s[i]);
    } else {
        lemma_kept(rest, p, i);
        let j = choose|j: int| 0 <= j < rest.filter(p).len() && rest.filter(p)[j] == rest[i];
        assert(s.filter(p)[j] == s[i]);
    }
}

/// Where nothing satisfies the predicate, nothing is selected.
pub proof fn lemma_none_selected<A>(s: Seq<A>, p: spec_fn(A) -> bool)
    requires
        forall|i: int| 0 <= i < s.len() ==> !p(#[trigger] s[i]),
    ensures
        s.filter(p) == Seq::<A>::empty(),
    decreases s.len(),
{
    reveal(Seq::filter);
    if s.len() > 0 {
        let rest = s.drop_last();
        assert forall|i: int| 0 <= i < rest.len() implies !p(#[trigger] rest[i]) by {
            assert(rest[i] == s[i]);
        }
        lemma_none_selected(rest, p);
    } else {
        assert(s =~= Seq::<A>::empty());
    }
}

/// Where the selection has no head, no element satisfies the predicate.
pub proof fn lemma_no_head<A>(s: Seq<A>, p: spec_fn(A) -> bool)
    requires
        head(s.filter(p)) is None,
    ensures
        forall|i: int| 0 <= i < s.len() ==> !p(#[trigger] s[i]),
{
    assert forall|i: int| 0 <= i < s.len() implies !p(#[trigger] s[i]) by {
        if p(s[i]) {
            lemma_kept(s, p, i);
        }
    }
}

/// The head of a selection satisfies the predicate and comes from the
/// sequence.
pub proof fn lemma_head<A>(s: Seq<A>, p: spec_fn(A) -> bool)
    requires
        head(s.filter(p)) is Some,
    ensures
        p(head(s.filter(p))->0),
        s.contains(head(s.filter(p))->0),
{
    lemma_selected(s, p, 0);
}

/// Where every element satisfies the predicate, all are selected.
pub proof fn lemma_all_selected<A>(s: Seq<A>, p: spec_fn(A) -> bool)
    requires
        forall|i: int| 0 <= i < s.len() ==> p(#[trigger] s[i]),
    ensures
        s.filter(p) == s,
    decreases s.len(),
{
    reveal(Seq::filter);
    if s.len() > 0 {
        let rest = s.drop_last();
        assert forall|i: int| 0 <= i < rest.len() implies p(#[trigger] rest[i]) by {
            assert(rest[i] == s[i]);
        }
        lemma_all_selected(rest, p);
        assert(rest.push(s.last()) =~= s);
    }
}

/// Where exactly one element satisfies the predicate, selecting by it gives
/// that element alone, and selecting the others removes it.
pub proof fn lemma_single_hit<A>(s: Seq<A>, p: spec_fn(A) -> bool, i: int)
    requires
        0 <= i < s.len(),
        p(s[i]),
        forall|j: int| 0 <= j < s.len() && j != i ==> !p(#[trigger] s[j]),
    ensures
        s.filter(p) == seq![s[i]],
        s.filter(except(p)) == s.remove(i),
{
    let front = s.take(i);
    let back = s.skip(i + 1);
    let q = except(p);
    assert(s =~= front.push(s[i]) + back);
    assert forall|j: int| 0 <= j < front.len() implies !p(#[trigger] front[j]) by {
        assert(front[j] == s[j]);
    }
    assert forall|j: int| 0 <= j < back.len() implies !p(#[trigger] back[j]) by {
        assert(back[j] == s[j + i + 1]);
    }
    assert forall|j: int| 0 <= j < front.len() implies q(#[trigger] front[j]) by {
        assert(!p(front[j]));
    }
    assert forall|j: int| 0 <= j < back.len() implies q(#[trigger] back[j]) by {
        assert(!p(back[j]));
    }
    lemma_none_selected(front, p);
    lemma_none_selected(back, p);
    lemma_all_selected(front, q);
    lemma_all_selected(back, q);
    front.lemma_filter_push(s[i], p);
    front.lemma_filter_push(s[i], q);
    Seq::filter_distributes_over_add(front.push(s[i]), back, p);
    Seq::filter_distributes_over_add(front.push(s[i]), back, q);
    assert(s.filter(p) =~= seq![s[i]]);
    assert(s.filter(q) =~= s.remove(i));
}

/// Where no element satisfies the predicate, selecting the others changes
/// nothing.
pub proof fn lemma_no_hit<A>(s: Seq<A>, p: spec_fn(A) -> bool)
    requires
        forall|j: int| 0 <= j < s.len() ==> !p(#[trigger] s[j]),
    ensures
        s.filter(p) == Seq::<A>::empty(),
        s.filter(except(p)) == s,
{
    let q = except(p);
    assert forall|j: int| 0 <= j < s.len() implies q(#[trigger] s[j]) by {
        assert(!p(s[j]));
    }
    lemma_none_selected(s, p);
    lemma_all_selected(s, q);
}

/// Selecting by a predicate from what a wider predicate has selected gives
/// what the narrower one selects from the whole.
pub proof fn lemma_select_twice<A>(s: Seq<A>, wide: spec_fn(A) -> bool, p: spec_fn(A) -> bool)
    requires
        forall|a: A| #[trigger] p(a) ==> wide(a),
    ensures
        s.filter(wide).filter(p) == s.filter(p),
    decreases s.len(),
{
    reveal(Seq::filter);
    if s.len() > 0 {
        let rest = s.drop_last();
        lemma_select_twice(rest, wide, p);
        if wide(s.last()) {
            rest.filter(wide).lemma_filter_push(s.last(), p);
        }
    }
}

/// Changing elements that the predicate rejects, into elements that it
/// rejects, does not change what is selected.
pub proof fn lemma_select_changed<A>(s: Seq<A>, f: spec_fn(A) -> A, p: spec_fn(A) -> bool)
    requires
        forall|i: int| 0 <= i < s.len() && p(#[trigger] s[i]) ==> f(s[i]) == s[i],
        forall|i: int| 0 <= i < s.len() && !p(#[trigger] s[i]) ==> !p(f(s[i])),
    ensures
        s.map_values(f).filter(p) == s.filter(p),
    decreases s.len(),
{
    reveal(Seq::filter);
    if s.len() > 0 {
        let rest = s.drop_last();
        assert forall|i: int| 0 <= i < rest.len() && p(#[trigger] rest[i]) implies f(rest[i])
            == rest[i] by {
            assert(rest[i] == s[i]);
        }
        assert forall|i: int| 0 <= i < rest.len() && !p(#[trigger] rest[i]) implies !p(
            f(rest[i]),
        ) by {
            assert(rest[i] == s[i]);
        }
        lemma_select_changed(rest, f, p);
        assert(s.map_values(f).drop_last() =~= rest.map_values(f));
        assert(s.map_values(f).last() == f(s[s.len() - 1]));
    } else {
        assert(s.map_values(f) =~= s);
    }
}

} // verus!
