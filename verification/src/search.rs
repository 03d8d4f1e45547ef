//! First-match search over sequences: the specification-level counterpart
//! of the linear scans that the persistence model runs over its rows.

use vstd::prelude::*;

verus! {

/// The first element of `s` satisfying `p`, if any.
pub open spec fn first_where<A>(s: Seq<A>, p: spec_fn(A) -> bool) -> Option<A>
    decreases s.len(),
{
    if s.len() == 0 {
        None
    } else if p(s[0]) {
        Some(s[0])
    } else {
        first_where(s.skip(1), p)
    }
}

/// While no element among the first `i` satisfies `p`, the first match in
/// `s` is the first match past `i`.
pub proof fn lemma_first_where_skip<A>(s: Seq<A>, p: spec_fn(A) -> bool, i: int)
    requires
        0 <= i <= s.len(),
        forall|j: int| 0 <= j < i ==> !p(#[trigger] s[j]),
    ensures
        first_where(s, p) == first_where(s.skip(i), p),
    decreases i,
{
    if i == 0 {
        assert(s.skip(0) =~= s);
    } else {
        lemma_first_where_skip(s, p, i - 1);
        let t = s.skip(i - 1);
        assert(t.len() == s.len() - i + 1);
        assert(t[0] == s[i - 1]);
        assert(!p(t[0]));
        assert(t.skip(1) =~= s.skip(i));
        assert(first_where(t, p) == first_where(t.skip(1), p));
    }
}

/// If no element satisfies `p`, there is no first match.
pub proof fn lemma_first_where_none<A>(s: Seq<A>, p: spec_fn(A) -> bool)
    requires
        forall|j: int| 0 <= j < s.len() ==> !p(#[trigger] s[j]),
    ensures
        first_where(s, p) is None,
{
    lemma_first_where_skip(s, p, s.len() as int);
    assert(s.skip(s.len() as int) =~= Seq::<A>::empty());
}

/// If `s[i]` is the leftmost element satisfying `p`, it is the first match.
pub proof fn lemma_first_where_found<A>(s: Seq<A>, p: spec_fn(A) -> bool, i: int)
    requires
        0 <= i < s.len(),
        forall|j: int| 0 <= j < i ==> !p(#[trigger] s[j]),
        p(s[i]),
    ensures
        first_where(s, p) == Some(s[i]),
{
    lemma_first_where_skip(s, p, i);
    assert(s.skip(i)[0] == s[i]);
}

/// A first match is a member of the sequence and satisfies `p`.
pub proof fn lemma_first_where_sound<A>(s: Seq<A>, p: spec_fn(A) -> bool)
    ensures
        first_where(s, p) matches Some(x) ==> p(x) && s.contains(x),
    decreases s.len(),
{
    if s.len() > 0 && !p(s[0]) {
        lemma_first_where_sound(s.skip(1), p);
        assert forall|x: A| s.skip(1).contains(x) implies s.contains(x) by {
            let j = choose|j: int| 0 <= j < s.skip(1).len() && s.skip(1)[j] == x;
            assert(s[j + 1] == x);
        }
    }
}

/// If there is no first match, no element satisfies `p`.
pub proof fn lemma_first_where_none_implies<A>(s: Seq<A>, p: spec_fn(A) -> bool)
    requires
        first_where(s, p) is None,
    ensures
        forall|j: int| 0 <= j < s.len() ==> !p(#[trigger] s[j]),
{
    assert forall|j: int| 0 <= j < s.len() implies !p(#[trigger] s[j]) by {
        if p(s[j]) {
            lemma_first_where_complete(s, p, j);
        }
    }
}

/// The sequence with its first match (if any) removed.
pub open spec fn remove_first_where<A>(s: Seq<A>, p: spec_fn(A) -> bool) -> Seq<A>
    decreases s.len(),
{
    if s.len() == 0 {
        s
    } else if p(s[0]) {
        s.skip(1)
    } else {
        seq![s[0]] + remove_first_where(s.skip(1), p)
    }
}

/// While no element among the first `i` matches, removing the first match
/// keeps the prefix and works on the remainder.
pub proof fn lemma_remove_first_where_skip<A>(s: Seq<A>, p: spec_fn(A) -> bool, i: int)
    requires
        0 <= i <= s.len(),
        forall|j: int| 0 <= j < i ==> !p(#[trigger] s[j]),
    ensures
        remove_first_where(s, p) == s.subrange(0, i) + remove_first_where(s.skip(i), p),
    decreases i,
{
    if i == 0 {
        assert(s.skip(0) =~= s);
        assert(s.subrange(0, 0) + remove_first_where(s, p) =~= remove_first_where(s, p));
    } else {
        lemma_remove_first_where_skip(s, p, i - 1);
        let t = s.skip(i - 1);
        assert(t[0] == s[i - 1]);
        assert(!p(t[0]));
        assert(remove_first_where(t, p) == seq![t[0]] + remove_first_where(t.skip(1), p));
        assert(t.skip(1) =~= s.skip(i));
        assert(s.subrange(0, i - 1) + (seq![t[0]] + remove_first_where(s.skip(i), p)) =~= s.subrange(
            0,
            i,
        ) + remove_first_where(s.skip(i), p));
    }
}

/// If no element matches, removal changes nothing.
pub proof fn lemma_remove_first_where_none<A>(s: Seq<A>, p: spec_fn(A) -> bool)
    requires
        forall|j: int| 0 <= j < s.len() ==> !p(#[trigger] s[j]),
    ensures
        remove_first_where(s, p) == s,
{
    lemma_remove_first_where_skip(s, p, s.len() as int);
    assert(s.skip(s.len() as int) =~= Seq::<A>::empty());
    assert(s.subrange(0, s.len() as int) + remove_first_where(Seq::<A>::empty(), p) =~= s);
}

/// If `s[i]` is the leftmost match, removal deletes exactly index `i`.
pub proof fn lemma_remove_first_where_found<A>(s: Seq<A>, p: spec_fn(A) -> bool, i: int)
    requires
        0 <= i < s.len(),
        forall|j: int| 0 <= j < i ==> !p(#[trigger] s[j]),
        p(s[i]),
    ensures
        remove_first_where(s, p) == s.subrange(0, i) + s.skip(i + 1),
{
    lemma_remove_first_where_skip(s, p, i);
    let t = s.skip(i);
    assert(t[0] == s[i]);
    assert(remove_first_where(t, p) == t.skip(1));
    assert(t.skip(1) =~= s.skip(i + 1));
}

/// When at most one element matches, nothing matches after the removal.
pub proof fn lemma_first_where_after_remove<A>(s: Seq<A>, p: spec_fn(A) -> bool)
    requires
        forall|j: int, k: int|
            0 <= j < k < s.len() ==> !((#[trigger] p(s[j])) && (#[trigger] p(s[k]))),
    ensures
        first_where(remove_first_where(s, p), p) is None,
    decreases s.len(),
{
    if s.len() == 0 {
    } else if p(s[0]) {
        let t = s.skip(1);
        assert forall|j: int| 0 <= j < t.len() implies !p(#[trigger] t[j]) by {
            assert(t[j] == s[j + 1]);
        }
        lemma_first_where_none(t, p);
    } else {
        let t = s.skip(1);
        assert forall|j: int, k: int| 0 <= j < k < t.len() implies !((#[trigger] p(t[j])) && (
        #[trigger] p(t[k]))) by {
            assert(t[j] == s[j + 1]);
            assert(t[k] == s[k + 1]);
        }
        lemma_first_where_after_remove(t, p);
        let r = remove_first_where(t, p);
        let whole = seq![s[0]] + r;
        assert(remove_first_where(s, p) == whole);
        assert(whole[0] == s[0]);
        assert(whole.skip(1) =~= r);
        assert(first_where(whole, p) == first_where(r, p));
    }
}

/// If some element satisfies `p`, there is a first match.
pub proof fn lemma_first_where_complete<A>(s: Seq<A>, p: spec_fn(A) -> bool, i: int)
    requires
        0 <= i < s.len(),
        p(s[i]),
    ensures
        first_where(s, p) is Some,
    decreases s.len(),
{
    if !p(s[0]) {
        assert(s.skip(1)[i - 1] == s[i]);
        lemma_first_where_complete(s.skip(1), p, i - 1);
    }
}

} // verus!
