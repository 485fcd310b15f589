//! Facts about filtered sequences.

use vstd::prelude::*;

verus! {

/// A filter that every entry passes keeps the list.
pub proof fn lemma_filter_all<A>(s: Seq<A>, pred: spec_fn(A) -> bool)
    requires
        forall|i: int| 0 <= i < s.len() ==> pred(#[trigger] s[i]),
    ensures
        s.filter(pred) == s,
    decreases s.len(),
{
    reveal(Seq::filter);
    if s.len() > 0 {
        lemma_filter_all(s.drop_last(), pred);
        assert(s.drop_last().push(s.last()) =~= s);
    }
}

/// A filter that no entry passes leaves nothing.
pub proof fn lemma_filter_none<A>(s: Seq<A>, pred: spec_fn(A) -> bool)
    requires
        forall|i: int| 0 <= i < s.len() ==> !pred(#[trigger] s[i]),
    ensures
        s.filter(pred) == Seq::<A>::empty(),
    decreases s.len(),
{
    reveal(Seq::filter);
    if s.len() > 0 {
        lemma_filter_none(s.drop_last(), pred);
    }
}

/// A list with an entry put behind it holds that entry and what it held.
pub proof fn lemma_push_contains<T>(s: Seq<T>, v: T, x: T)
    ensures
        s.push(v).contains(x) <==> (s.contains(x) || x == v),
{
    let t = s.push(v);
    if s.contains(x) {
        let i = choose|i: int| 0 <= i < s.len() && s[i] == x;
        assert(t[i] == x);
    }
    if x == v {
        assert(t[s.len() as int] == x);
    }
    if t.contains(x) {
        let i = choose|i: int| 0 <= i < t.len() && t[i] == x;
        if i < s.len() {
            assert(s[i] == x);
        }
    }
}

/// A list holds its last entry and what the list without it holds.
pub proof fn lemma_last_contains<T>(s: Seq<T>, x: T)
    requires
        s.len() > 0,
    ensures
        s.contains(x) <==> (s.drop_last().contains(x) || x == s.last()),
{
    assert(s.drop_last().push(s.last()) =~= s);
    lemma_push_contains(s.drop_last(), s.last(), x);
}

} // verus!
