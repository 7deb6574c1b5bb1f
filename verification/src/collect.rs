//! Collecting the hits that survive from a sequence of candidates.

use vstd::prelude::*;
use crate::hit::{SearchHit, SearchHitView};

verus! {

/// The present values of `c`, in order.
pub open spec fn somes<T>(c: Seq<Option<T>>) -> Seq<T>
    decreases c.len(),
{
    if c.len() == 0 {
        Seq::empty()
    } else {
        let p = somes(c.drop_last());
        match c.last() {
            Some(x) => p.push(x),
            None => p,
        }
    }
}

/// The first `n` elements of `s` (all of `s` when it is shorter).
pub open spec fn seq_take<T>(s: Seq<T>, n: nat) -> Seq<T> {
    if s.len() <= n {
        s
    } else {
        s.subrange(0, n as int)
    }
}

/// The values present among the first `i` candidates are a prefix of all
/// present values.
pub proof fn lemma_somes_prefix<T>(c: Seq<Option<T>>, i: int)
    requires
        0 <= i <= c.len(),
    ensures
        somes(c.subrange(0, i)).len() <= somes(c).len(),
        somes(c).subrange(0, somes(c.subrange(0, i)).len() as int) == somes(c.subrange(0, i)),
    decreases c.len() - i,
{
    if i == c.len() {
        assert(c.subrange(0, i) =~= c);
        assert(somes(c).subrange(0, somes(c).len() as int) =~= somes(c));
    } else {
        lemma_somes_prefix(c, i + 1);
        let p = c.subrange(0, i + 1);
        assert(p.drop_last() =~= c.subrange(0, i));
        let a = somes(c.subrange(0, i));
        let b = somes(p);
        assert(b.subrange(0, a.len() as int) =~= a);
        let w = somes(c);
        assert(w.subrange(0, a.len() as int) =~= w.subrange(0, b.len() as int).subrange(
            0,
            a.len() as int,
        ));
    }
}

/// One more candidate extends the present values by its value, if any.
pub proof fn lemma_somes_step<T>(c: Seq<Option<T>>, i: int)
    requires
        0 <= i < c.len(),
    ensures
        somes(c.subrange(0, i + 1)) == match c[i] {
            Some(x) => somes(c.subrange(0, i)).push(x),
            None => somes(c.subrange(0, i)),
        },
{
    assert(c.subrange(0, i + 1).drop_last() =~= c.subrange(0, i));
    assert(c.subrange(0, i + 1).last() == c[i]);
}

/// The views of a list of hits.
pub open spec fn views(hs: Seq<SearchHit>) -> Seq<SearchHitView> {
    hs.map_values(|h: SearchHit| h@)
}

/// Appends the candidate hit, if there is one.
pub fn push_candidate(hits: &mut Vec<SearchHit>, h: Option<SearchHit>)
    ensures
        views(final(hits)@) == match h {
            Some(x) => views(old(hits)@).push(x@),
            None => views(old(hits)@),
        },
        final(hits)@.len() <= old(hits)@.len() + 1,
{
    match h {
        Some(x) => {
            let ghost xv = x@;
            hits.push(x);
            assert(views(hits@) =~= views(old(hits)@).push(xv));
        },
        None => {},
    }
}

/// After a loop that collected candidates `c[0..i]` and stopped either at the
/// end or as soon as `limit` hits were kept, the hits are the first `limit`
/// present values of all candidates.
pub proof fn lemma_collected_until_limit<T>(c: Seq<Option<T>>, i: int, limit: nat)
    requires
        0 <= i <= c.len(),
        i == c.len() ==> somes(c.subrange(0, i)).len() <= limit,
        i < c.len() ==> somes(c.subrange(0, i)).len() == limit,
    ensures
        somes(c.subrange(0, i)) == seq_take(somes(c), limit),
{
    lemma_somes_prefix(c, i);
    if i == c.len() {
        assert(c.subrange(0, i) =~= c);
    }
}

/// Candidate `k` is reached while collecting at most `limit` hits: fewer
/// than `limit` were kept from the candidates before it.
pub open spec fn reached<T>(c: Seq<Option<T>>, k: int, limit: nat) -> bool {
    somes(c.subrange(0, k)).len() < limit
}

/// More candidates never keep fewer values.
pub proof fn lemma_somes_grow<T>(c: Seq<Option<T>>, i: int, k: int)
    requires
        0 <= i <= k <= c.len(),
    ensures
        somes(c.subrange(0, i)).len() <= somes(c.subrange(0, k)).len(),
{
    lemma_somes_prefix(c.subrange(0, k), i);
    assert(c.subrange(0, k).subrange(0, i) =~= c.subrange(0, i));
}

} // verus!
