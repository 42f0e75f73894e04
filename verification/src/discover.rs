//! The online template discoverer, as mathematics: bucket events by
//! token count, then greedily fit each event to the first candidate at
//! similarity one half or more, widening differing positions to `<*>`.

use vstd::prelude::*;
use crate::text::wild;

verus! {

/// A candidate template: its token vector and the indices of the events
/// assigned to it, in insertion order.
pub type CandS = (Seq<Seq<char>>, Seq<usize>);

/// Position `i` counts towards similarity when the candidate token
/// matches the event token or is already the placeholder.
pub open spec fn sim_pos(c: Seq<Seq<char>>, t: Seq<Seq<char>>, i: int) -> bool {
    c[i] == t[i] || c[i] == wild()
}

/// Number of matching positions below `n`.
pub open spec fn sim_count(c: Seq<Seq<char>>, t: Seq<Seq<char>>, n: int) -> nat
    decreases n,
{
    if n <= 0 {
        0
    } else {
        sim_count(c, t, n - 1) + if sim_pos(c, t, n - 1) {
            1nat
        } else {
            0nat
        }
    }
}

/// Similarity at least one half (empty token vectors always match);
/// token vectors of different lengths never match.
pub open spec fn sim_ok(c: Seq<Seq<char>>, t: Seq<Seq<char>>) -> bool {
    &&& c.len() == t.len()
    &&& (c.len() == 0 || 2 * sim_count(c, t, c.len() as int) >= c.len())
}

/// Widens the candidate: positions that differ from the event become
/// the placeholder.
pub open spec fn merge_toks(c: Seq<Seq<char>>, t: Seq<Seq<char>>) -> Seq<Seq<char>> {
    Seq::new(c.len(), |i: int| if c[i] == t[i] || c[i] == wild() {
        c[i]
    } else {
        wild()
    })
}

/// First candidate the event fits, if any.
pub open spec fn first_fit(cands: Seq<CandS>, t: Seq<Seq<char>>) -> Option<int>
    decreases cands.len(),
{
    if cands.len() == 0 {
        None
    } else if sim_ok(cands[0].0, t) {
        Some(0)
    } else {
        match first_fit(cands.skip(1), t) {
            Some(j) => Some(j + 1),
            None => None,
        }
    }
}

pub proof fn lemma_first_fit(cands: Seq<CandS>, t: Seq<Seq<char>>)
    ensures
        match first_fit(cands, t) {
            None => forall|k: int| 0 <= k < cands.len() ==> !sim_ok(#[trigger] cands[k].0, t),
            Some(j) => 0 <= j < cands.len() && sim_ok(cands[j].0, t) && (forall|k: int|
                0 <= k < j ==> !sim_ok(#[trigger] cands[k].0, t)),
        },
    decreases cands.len(),
{
    if cands.len() > 0 && !sim_ok(cands[0].0, t) {
        let rest = cands.skip(1);
        lemma_first_fit(rest, t);
        match first_fit(rest, t) {
            None => {
                assert forall|k: int| 0 <= k < cands.len() implies !sim_ok(
                    #[trigger] cands[k].0,
                    t,
                ) by {
                    if k >= 1 {
                        assert(cands[k] == rest[k - 1]);
                    }
                }
            },
            Some(j) => {
                assert(cands[j + 1] == rest[j]);
                assert forall|k: int| 0 <= k < j + 1 implies !sim_ok(
                    #[trigger] cands[k].0,
                    t,
                ) by {
                    if k >= 1 {
                        assert(cands[k] == rest[k - 1]);
                    }
                }
            },
        }
    }
}

/// One event against the candidate list: merge into the first fit, or
/// open a new candidate.
pub open spec fn step_cands(cands: Seq<CandS>, idx: usize, t: Seq<Seq<char>>) -> Seq<CandS> {
    match first_fit(cands, t) {
        Some(j) => cands.update(j, (merge_toks(cands[j].0, t), cands[j].1.push(idx))),
        None => cands.push((t, seq![idx])),
    }
}

/// The candidate list after fitting every event of a bucket, in order.
pub open spec fn build_cands(gs: Seq<(usize, Seq<Seq<char>>)>) -> Seq<CandS>
    decreases gs.len(),
{
    if gs.len() == 0 {
        Seq::empty()
    } else {
        step_cands(build_cands(gs.drop_last()), gs.last().0, gs.last().1)
    }
}

/// The variables an event contributes: its tokens at the positions
/// where the (final) candidate holds the placeholder, in order.  Slots
/// beyond the event's own tokens stay uncaptured.
pub open spec fn vars_of(c: Seq<Seq<char>>, t: Seq<Seq<char>>) -> Seq<Seq<char>>
    decreases c.len(),
{
    if c.len() == 0 {
        Seq::empty()
    } else {
        vars_of(c.drop_last(), t) + if c.last() == wild() && c.len() - 1 < t.len() {
            seq![t[c.len() - 1]]
        } else {
            Seq::empty()
        }
    }
}

/// No more variables than placeholder tokens.
pub proof fn lemma_vars_le_wild_tokens(c: Seq<Seq<char>>, t: Seq<Seq<char>>)
    ensures
        vars_of(c, t).len() <= crate::text::wild_token_count(c),
    decreases c.len(),
{
    if c.len() > 0 {
        lemma_vars_le_wild_tokens(c.drop_last(), t);
    }
}

/// Total number of members across the candidates.
pub open spec fn total_members(cands: Seq<CandS>) -> nat
    decreases cands.len(),
{
    if cands.len() == 0 {
        0
    } else {
        total_members(cands.drop_last()) + cands.last().1.len()
    }
}

proof fn lemma_total_members_update(cands: Seq<CandS>, j: int, c: CandS)
    requires
        0 <= j < cands.len(),
        c.1.len() == cands[j].1.len() + 1,
    ensures
        total_members(cands.update(j, c)) == total_members(cands) + 1,
    decreases cands.len(),
{
    let upd = cands.update(j, c);
    if j == cands.len() - 1 {
        assert(upd.drop_last() =~= cands.drop_last());
    } else {
        assert(upd.drop_last() =~= cands.drop_last().update(j, c));
        lemma_total_members_update(cands.drop_last(), j, c);
    }
}

/// At most one candidate is opened per event.
pub proof fn lemma_build_cands_le(gs: Seq<(usize, Seq<Seq<char>>)>)
    ensures
        build_cands(gs).len() <= gs.len(),
    decreases gs.len(),
{
    if gs.len() > 0 {
        lemma_build_cands_le(gs.drop_last());
        let prev = build_cands(gs.drop_last());
        let t = gs.last().1;
        match first_fit(prev, t) {
            Some(j) => {
                lemma_first_fit(prev, t);
                assert(build_cands(gs).len() == prev.len());
            },
            None => {
                assert(build_cands(gs).len() == prev.len() + 1);
            },
        }
    }
}

/// Prefixes of the candidate list hold no more members than the whole.
pub proof fn lemma_total_members_take(cands: Seq<CandS>, k: int)
    requires
        0 <= k <= cands.len(),
    ensures
        total_members(cands.take(k)) <= total_members(cands),
    decreases cands.len() - k,
{
    if k < cands.len() {
        assert(cands.take(k + 1).drop_last() =~= cands.take(k));
        assert(cands.take(k + 1).last() == cands[k]);
        lemma_total_members_take(cands, k + 1);
    } else {
        assert(cands.take(k) =~= cands);
    }
}

/// Candidate members only hold indices the bucket was given.
pub proof fn lemma_build_cands_member_bound(gs: Seq<(usize, Seq<Seq<char>>)>, n: int)
    requires
        forall|k: int| 0 <= k < gs.len() ==> (#[trigger] gs[k].0 as int) < n,
    ensures
        forall|a: int, b: int|
            0 <= a < build_cands(gs).len() && 0 <= b < build_cands(gs)[a].1.len() ==> (
            #[trigger] build_cands(gs)[a].1[b] as int) < n,
    decreases gs.len(),
{
    if gs.len() > 0 {
        lemma_build_cands_member_bound(gs.drop_last(), n);
        let prev = build_cands(gs.drop_last());
        let idx = gs.last().0;
        let t = gs.last().1;
        let cur = build_cands(gs);
        assert((idx as int) < n);
        assert(gs.drop_last().len() == gs.len() - 1);
        assert(cur == step_cands(prev, idx, t));
        match first_fit(prev, t) {
            Some(j) => {
                lemma_first_fit(prev, t);
                let c = (merge_toks(prev[j].0, t), prev[j].1.push(idx));
                assert(cur == prev.update(j, c));
                assert forall|a: int, b: int|
                    0 <= a < cur.len() && 0 <= b < cur[a].1.len() implies (
                #[trigger] cur[a].1[b] as int) < n by {
                    if a == j {
                        assert(cur[a].1 == prev[j].1.push(idx));
                        if b < prev[j].1.len() {
                            assert(cur[a].1[b] == prev[j].1[b]);
                        } else {
                            assert(cur[a].1[b] == idx);
                        }
                    } else {
                        assert(cur[a] == prev[a]);
                    }
                }
            },
            None => {
                assert(cur == prev.push((t, seq![idx])));
                assert forall|a: int, b: int|
                    0 <= a < cur.len() && 0 <= b < cur[a].1.len() implies (
                #[trigger] cur[a].1[b] as int) < n by {
                    if a < prev.len() {
                        assert(cur[a] == prev[a]);
                    } else {
                        assert(cur[a].1 == seq![idx]);
                        assert(cur[a].1[b] == idx);
                    }
                }
            },
        }
    }
}

/// Every event of the bucket lands in exactly one candidate.
pub proof fn lemma_build_cands_members(gs: Seq<(usize, Seq<Seq<char>>)>)
    ensures
        total_members(build_cands(gs)) == gs.len(),
    decreases gs.len(),
{
    if gs.len() > 0 {
        lemma_build_cands_members(gs.drop_last());
        let prev = build_cands(gs.drop_last());
        let t = gs.last().1;
        match first_fit(prev, t) {
            Some(j) => {
                lemma_first_fit(prev, t);
                lemma_total_members_update(
                    prev,
                    j,
                    (merge_toks(prev[j].0, t), prev[j].1.push(gs.last().0)),
                );
            },
            None => {
                assert(build_cands(gs).drop_last() =~= prev);
            },
        }
    }
}

/// Template merging convergence, in the form that holds: over a bucket
/// where no event merged into an earlier candidate — each candidate
/// kept exactly one member — the final candidates are pairwise
/// dissimilar.  (When a merge widens a candidate with `<*>`, a later
/// candidate can come to fit it, so the unrestricted claim fails: with
/// two-token events `a b`, `x y`, `a y`, the third widens `a b` to
/// `a <*>`, which then fits `x y`.)
pub proof fn lemma_convergence_without_merges(gs: Seq<(usize, Seq<Seq<char>>)>)
    requires
        build_cands(gs).len() == gs.len(),
    ensures
        forall|a: int, b: int|
            0 <= a < b < build_cands(gs).len() ==> !sim_ok(
                #[trigger] build_cands(gs)[a].0,
                #[trigger] build_cands(gs)[b].0,
            ),
    decreases gs.len(),
{
    if gs.len() > 0 {
        let prev = build_cands(gs.drop_last());
        let t = gs.last().1;
        let cur = build_cands(gs);
        lemma_build_cands_le(gs.drop_last());
        match first_fit(prev, t) {
            Some(j) => {
                lemma_first_fit(prev, t);
                assert(cur.len() == prev.len());
                assert(prev.len() <= gs.len() - 1);
                assert(false);
            },
            None => {
                assert(cur == prev.push((t, seq![gs.last().0])));
                assert(prev.len() == gs.len() - 1);
                lemma_convergence_without_merges(gs.drop_last());
                lemma_first_fit(prev, t);
                assert forall|a: int, b: int|
                    0 <= a < b < cur.len() implies !sim_ok(
                    #[trigger] cur[a].0,
                    #[trigger] cur[b].0,
                ) by {
                    if b < prev.len() {
                        assert(cur[a] == prev[a] && cur[b] == prev[b]);
                    } else {
                        assert(cur[a] == prev[a]);
                        assert(cur[b].0 == t);
                        assert(!sim_ok(prev[a].0, t));
                    }
                }
            },
        }
    }
}

} // verus!
