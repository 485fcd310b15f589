//! Ordering and paging of scored rows.
//!
//! Rows are ordered by score, highest first; rows of equal score by the time
//! of their import, latest first; rows that agree in both stay in the order in
//! which they were found.  A page is cut from the whole ordered list, so that
//! the order holds across pages.

use vstd::prelude::*;

verus! {

/// A row that matched, as the ordering sees it.
#[derive(Debug, Clone, Copy, PartialEq, Eq, Structural)]
pub struct Candidate {
    pub score: u128,
    pub import_time: i64,
    /// The position of the row in the list that was searched.
    pub index: usize,
}

/// The model of a candidate.
pub struct Ranking {
    pub score: int,
    pub import_time: int,
    pub index: int,
}

impl View for Candidate {
    type V = Ranking;

    open spec fn view(&self) -> Ranking {
        Ranking {
            score: self.score as int,
            import_time: self.import_time as int,
            index: self.index as int,
        }
    }
}

/// The models of a list of candidates.
pub open spec fn rankings(v: Seq<Candidate>) -> Seq<Ranking> {
    v.map_values(|c: Candidate| c@)
}

/// `a` may stand before `b`: it has the higher score, or the same score and
/// no earlier import time.
pub open spec fn ranks_before(a: Ranking, b: Ranking) -> bool {
    a.score > b.score || (a.score == b.score && a.import_time >= b.import_time)
}

/// Every entry may stand before all that follow it.
pub open spec fn is_ranked(s: Seq<Ranking>) -> bool {
    forall|i: int, j: int| 0 <= i < j < s.len() ==> ranks_before(#[trigger] s[i], #[trigger] s[j])
}

/// Where `c` goes in the ordered list `s`: behind the last entry that may
/// stand before it.
pub open spec fn rank_position(s: Seq<Ranking>, c: Ranking) -> int
    decreases s.len(),
{
    if s.len() == 0 {
        0
    } else if ranks_before(s.last(), c) {
        s.len() as int
    } else {
        rank_position(s.drop_last(), c)
    }
}

/// The entries of `s` in order: each entry in turn goes to its position
/// among those before it.
pub open spec fn ranked(s: Seq<Ranking>) -> Seq<Ranking>
    decreases s.len(),
{
    if s.len() == 0 {
        Seq::empty()
    } else {
        let before = ranked(s.drop_last());
        before.insert(rank_position(before, s.last()), s.last())
    }
}

/// The position of `c` lies behind an entry that may stand before it, and
/// before entries that may not.
pub proof fn lemma_rank_position(s: Seq<Ranking>, c: Ranking)
    ensures
        0 <= rank_position(s, c) <= s.len(),
        rank_position(s, c) > 0 ==> ranks_before(s[rank_position(s, c) - 1], c),
        forall|j: int| rank_position(s, c) <= j < s.len() ==> !ranks_before(#[trigger] s[j], c),
    decreases s.len(),
{
    if s.len() > 0 && !ranks_before(s.last(), c) {
        let t = s.drop_last();
        lemma_rank_position(t, c);
        assert forall|j: int| rank_position(s, c) <= j < s.len() implies !ranks_before(
            #[trigger] s[j],
            c,
        ) by {
            if j < t.len() {
                assert(s[j] == t[j]);
            }
        }
        if rank_position(s, c) > 0 {
            assert(s[rank_position(s, c) - 1] == t[rank_position(t, c) - 1]);
        }
    }
}

/// A position for `c` that lies behind an entry that may stand before it,
/// and before entries that may not, is the position of `c`.
pub proof fn lemma_rank_position_is(s: Seq<Ranking>, c: Ranking, k: int)
    requires
        0 <= k <= s.len(),
        k > 0 ==> ranks_before(s[k - 1], c),
        forall|j: int| k <= j < s.len() ==> !ranks_before(#[trigger] s[j], c),
    ensures
        rank_position(s, c) == k,
    decreases s.len(),
{
    if s.len() > 0 && k < s.len() {
        let t = s.drop_last();
        assert(!ranks_before(s[s.len() - 1], c));
        assert forall|j: int| k <= j < t.len() implies !ranks_before(#[trigger] t[j], c) by {
            assert(t[j] == s[j]);
        }
        if k > 0 {
            assert(t[k - 1] == s[k - 1]);
        }
        lemma_rank_position_is(t, c, k);
    }
}

/// Putting an entry at its position keeps an ordered list ordered and adds
/// that entry and no other.
pub proof fn lemma_insert_keeps_ranked(s: Seq<Ranking>, c: Ranking)
    requires
        is_ranked(s),
    ensures
        is_ranked(s.insert(rank_position(s, c), c)),
        s.insert(rank_position(s, c), c).to_multiset() == s.to_multiset().insert(c),
{
    let k = rank_position(s, c);
    let r = s.insert(k, c);
    lemma_rank_position(s, c);
    assert forall|i: int, j: int| 0 <= i < j < r.len() implies ranks_before(
        #[trigger] r[i],
        #[trigger] r[j],
    ) by {
        if j < k {
            assert(r[i] == s[i] && r[j] == s[j]);
        } else if j == k {
            assert(r[i] == s[i]);
            if i < k - 1 {
                assert(ranks_before(s[i], s[k - 1]));
            }
        } else if i == k {
            assert(r[j] == s[j - 1]);
            assert(!ranks_before(s[j - 1], c));
        } else if i < k {
            assert(r[i] == s[i] && r[j] == s[j - 1]);
        } else {
            assert(r[i] == s[i - 1] && r[j] == s[j - 1]);
        }
    }
    vstd::seq_lib::lemma_seq_union_to_multiset_commutative(s.take(k).push(c), s.skip(k));
    vstd::seq_lib::lemma_multiset_commutative(s.take(k).push(c), s.skip(k));
    vstd::seq_lib::lemma_multiset_commutative(s.take(k), s.skip(k));
    s.take(k).to_multiset_ensures();
    assert(s.take(k) + s.skip(k) =~= s);
    assert(r =~= s.take(k).push(c) + s.skip(k));
    assert(r.to_multiset() =~= s.to_multiset().insert(c));
}

/// The ordered list is ordered, and it holds the entries that were given,
/// each as often as it was given.
pub proof fn lemma_ranked_is_ordered(s: Seq<Ranking>)
    ensures
        is_ranked(ranked(s)),
        ranked(s).to_multiset() == s.to_multiset(),
        ranked(s).len() == s.len(),
    decreases s.len(),
{
    if s.len() == 0 {
        assert(ranked(s) =~= s);
    } else {
        let t = s.drop_last();
        lemma_ranked_is_ordered(t);
        lemma_insert_keeps_ranked(ranked(t), s.last());
        t.to_multiset_ensures();
        assert(t.push(s.last()) =~= s);
        lemma_rank_position(ranked(t), s.last());
    }
}

/// `a` has to stand before `b`: it has the higher score; or the same score
/// and the later import time; or the same score and import time, and comes
/// from an earlier position.
pub open spec fn stands_before(a: Ranking, b: Ranking) -> bool {
    a.score > b.score || (a.score == b.score && (a.import_time > b.import_time || (a.import_time
        == b.import_time && a.index < b.index)))
}

/// Every entry has to stand before all that follow it.
pub open spec fn is_strictly_ranked(s: Seq<Ranking>) -> bool {
    forall|i: int, j: int|
        0 <= i < j < s.len() ==> stands_before(#[trigger] s[i], #[trigger] s[j])
}

/// The entries come from ascending positions.
pub open spec fn positions_ascend(s: Seq<Ranking>) -> bool {
    forall|i: int, j: int| 0 <= i < j < s.len() ==> (#[trigger] s[i]).index < (#[trigger] s[j]).index
}

/// Putting an entry from a later position at its place keeps the order strict.
proof fn lemma_insert_keeps_strict(s: Seq<Ranking>, c: Ranking)
    requires
        is_strictly_ranked(s),
        forall|i: int| 0 <= i < s.len() ==> (#[trigger] s[i]).index < c.index,
    ensures
        is_strictly_ranked(s.insert(rank_position(s, c), c)),
        forall|i: int|
            0 <= i < s.len() + 1 ==> (#[trigger] s.insert(rank_position(s, c), c)[i]).index
                <= c.index,
{
    let k = rank_position(s, c);
    let r = s.insert(k, c);
    lemma_rank_position(s, c);
    assert forall|i: int, j: int| 0 <= i < j < r.len() implies stands_before(
        #[trigger] r[i],
        #[trigger] r[j],
    ) by {
        if j < k {
            assert(r[i] == s[i] && r[j] == s[j]);
        } else if j == k {
            assert(r[i] == s[i]);
            assert(s[i].index < c.index);
            if i < k - 1 {
                assert(stands_before(s[i], s[k - 1]));
            }
        } else if i == k {
            assert(r[j] == s[j - 1]);
            assert(!ranks_before(s[j - 1], c));
        } else if i < k {
            assert(r[i] == s[i] && r[j] == s[j - 1]);
        } else {
            assert(r[i] == s[i - 1] && r[j] == s[j - 1]);
        }
    }
    assert forall|i: int| 0 <= i < s.len() + 1 implies (#[trigger] r[i]).index <= c.index by {
        if i < k {
            assert(r[i] == s[i]);
        } else if i > k {
            assert(r[i] == s[i - 1]);
        }
    }
}

/// Entries that agree in score and import time stay in the order in which
/// they came: where the entries come from ascending positions, each entry of
/// the ordered list has the higher score than any entry behind it, or the
/// same score and the later import time, or the same of both and the earlier
/// position.  So the ordered list is the one list in that order.
pub proof fn law_ties_keep_arrival_order(s: Seq<Ranking>)
    requires
        positions_ascend(s),
    ensures
        is_strictly_ranked(ranked(s)),
        forall|i: int|
            0 <= i < ranked(s).len() ==> s.len() > 0 && (#[trigger] ranked(s)[i]).index
                <= s.last().index,
    decreases s.len(),
{
    if s.len() > 0 {
        let t = s.drop_last();
        assert forall|i: int, j: int| 0 <= i < j < t.len() implies (#[trigger] t[i]).index < (
        #[trigger] t[j]).index by {
            assert(t[i] == s[i] && t[j] == s[j]);
        }
        law_ties_keep_arrival_order(t);
        lemma_ranked_is_ordered(t);
        let before = ranked(t);
        assert forall|i: int| 0 <= i < before.len() implies (#[trigger] before[i]).index
            < s.last().index by {
            assert(before[i].index <= t.last().index);
            assert(t.last() == s[s.len() - 2]);
            assert(s.last() == s[s.len() - 1]);
        }
        lemma_insert_keeps_strict(before, s.last());
        lemma_rank_position(before, s.last());
    }
}

/// Whether `a` may stand before `b`.
pub fn candidate_ranks_before(a: &Candidate, b: &Candidate) -> (r: bool)
    ensures
        r == ranks_before(a@, b@),
{
    a.score > b.score || (a.score == b.score && a.import_time >= b.import_time)
}

/// Orders candidates.
pub fn rank(entries: &Vec<Candidate>) -> (out: Vec<Candidate>)
    ensures
        rankings(out@) == ranked(rankings(entries@)),
        is_ranked(rankings(out@)),
        out@.len() == entries@.len(),
{
    let ghost all = rankings(entries@);
    let mut out: Vec<Candidate> = Vec::new();
    let mut i: usize = 0;
    proof {
        assert(all.take(0) =~= Seq::<Ranking>::empty());
        assert(rankings(out@) =~= ranked(all.take(0)));
    }
    while i < entries.len()
        invariant
            i <= entries.len(),
            all == rankings(entries@),
            rankings(out@) == ranked(all.take(i as int)),
        decreases entries.len() - i,
    {
        let c: Candidate = entries[i];
        let ghost before = rankings(out@);
        let mut k: usize = out.len();
        while k > 0 && !candidate_ranks_before(&out[k - 1], &c)
            invariant
                k <= out.len(),
                before == rankings(out@),
                forall|j: int| k <= j < out.len() ==> !ranks_before(#[trigger] before[j], c@),
            decreases k,
        {
            k = k - 1;
        }
        proof {
            lemma_rank_position_is(before, c@, k as int);
            let part = all.take(i as int + 1);
            assert(part.drop_last() =~= all.take(i as int));
            assert(part.last() == c@);
        }
        out.insert(k, c);
        assert(rankings(out@) =~= before.insert(k as int, c@));
        i = i + 1;
    }
    proof {
        assert(all.take(entries.len() as int) =~= all);
        lemma_ranked_is_ordered(all);
    }
    out
}

/// The page of `list` that starts behind `offset` entries and holds up to
/// `limit` entries.
pub open spec fn page_of<T>(list: Seq<T>, offset: int, limit: int) -> Seq<T>
    recommends
        0 <= offset,
        0 <= limit,
{
    let start = if offset < list.len() {
        offset
    } else {
        list.len() as int
    };
    let end = if start + limit < list.len() {
        start + limit
    } else {
        list.len() as int
    };
    list.subrange(start, end)
}

/// The first `n` pages of `limit` entries each, one behind the other.
pub open spec fn pages_joined<T>(list: Seq<T>, limit: int, n: nat) -> Seq<T>
    decreases n,
{
    if n == 0 {
        Seq::empty()
    } else {
        pages_joined(list, limit, (n - 1) as nat) + page_of(list, (n - 1) * limit, limit)
    }
}

/// The first `n` pages, one behind the other, are the first `n * limit`
/// entries of the list: nothing is left out and nothing comes twice.
pub proof fn lemma_pages_are_prefix<T>(list: Seq<T>, limit: int, n: nat)
    requires
        limit > 0,
    ensures
        pages_joined(list, limit, n) == list.take(
            if n * limit < list.len() {
                n * limit
            } else {
                list.len() as int
            },
        ),
    decreases n,
{
    if n == 0 {
        assert(n * limit == 0);
        assert(list.take(0) =~= Seq::<T>::empty());
    } else {
        let m = (n - 1) as nat;
        lemma_pages_are_prefix(list, limit, m);
        assert(pages_joined(list, limit, n) == pages_joined(list, limit, m) + page_of(
            list,
            m * limit,
            limit,
        ));
        assert(m * limit + limit == n * limit) by (nonlinear_arith)
            requires
                m + 1 == n,
        ;
        assert(0 <= m * limit) by (nonlinear_arith)
            requires
                limit > 0,
                m >= 0,
        ;
        let a = if m * limit < list.len() {
            m * limit
        } else {
            list.len() as int
        };
        let b = if n * limit < list.len() {
            n * limit
        } else {
            list.len() as int
        };
        assert(page_of(list, m * limit, limit) =~= list.subrange(a, b));
        assert(list.take(a) + list.subrange(a, b) =~= list.take(b));
    }
}

/// All pages of a fixed size, one behind the other, give the whole list.
pub proof fn lemma_pages_cover<T>(list: Seq<T>, limit: int, n: nat)
    requires
        limit > 0,
        n * limit >= list.len(),
    ensures
        pages_joined(list, limit, n) == list,
{
    lemma_pages_are_prefix(list, limit, n);
    assert(list.take(list.len() as int) =~= list);
}

/// Cuts a page out of a list of candidates.
pub fn take_page(list: &Vec<Candidate>, offset: u64, limit: u64) -> (page: Vec<Candidate>)
    ensures
        page@ == page_of(list@, offset as int, limit as int),
{
    let n: usize = list.len();
    let start: usize = if offset < n as u64 {
        offset as usize
    } else {
        n
    };
    let room: usize = n - start;
    let end: usize = if limit < room as u64 {
        start + limit as usize
    } else {
        n
    };
    let mut page: Vec<Candidate> = Vec::new();
    let mut i: usize = start;
    while i < end
        invariant
            start <= i <= end <= n,
            n == list.len(),
            page@ == list@.subrange(start as int, i as int),
        decreases end - i,
    {
        page.push(list[i]);
        i = i + 1;
        assert(list@.subrange(start as int, i as int) =~= list@.subrange(
            start as int,
            i as int - 1,
        ).push(list@[i as int - 1]));
    }
    page
}

} // verus!
