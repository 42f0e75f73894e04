//! Delta encoding of the timestamp column: the first value, then
//! successive differences.  Differences wrap in 64 bits, which the
//! decoder undoes exactly, so the round trip is the identity on every
//! sequence.

use vstd::prelude::*;

verus! {

/// The delta form: `d[0] = ts[0]`, `d[i] = ts[i] - ts[i-1]` wrapping.
pub open spec fn delta_of(ts: Seq<i64>) -> Seq<i64> {
    Seq::new(
        ts.len(),
        |i: int|
            if i == 0 {
                ts[0]
            } else {
                ts[i].wrapping_sub(ts[i - 1])
            },
    )
}

/// The decoded form: a running wrapping sum of the deltas.
pub open spec fn undelta_of(d: Seq<i64>) -> Seq<i64>
    decreases d.len(),
{
    if d.len() == 0 {
        Seq::empty()
    } else if d.len() == 1 {
        d
    } else {
        let pre = undelta_of(d.drop_last());
        pre.push(pre.last().wrapping_add(d.last()))
    }
}

/// Delta-encodes a timestamp column.
pub fn delta_encode(ts: &Vec<i64>) -> (r: Vec<i64>)
    ensures
        r@ == delta_of(ts@),
{
    let mut r: Vec<i64> = Vec::new();
    if ts.len() == 0 {
        proof {
            assert(r@ =~= delta_of(ts@));
        }
        return r;
    }
    r.push(ts[0]);
    let mut i: usize = 1;
    while i < ts.len()
        invariant
            1 <= i <= ts@.len(),
            r@.len() == i,
            forall|j: int| 0 <= j < i ==> r@[j] == delta_of(ts@)[j],
        decreases ts@.len() - i,
    {
        r.push(ts[i].wrapping_sub(ts[i - 1]));
        i = i + 1;
    }
    proof {
        assert(r@ =~= delta_of(ts@));
    }
    r
}

/// Reverses the delta encoding.
pub fn delta_decode(d: &Vec<i64>) -> (r: Vec<i64>)
    ensures
        r@ == undelta_of(d@),
{
    let mut r: Vec<i64> = Vec::new();
    if d.len() == 0 {
        proof {
            assert(r@ =~= undelta_of(d@));
        }
        return r;
    }
    let mut current = d[0];
    r.push(current);
    proof {
        assert(d@.take(1) =~= seq![d@[0]]);
        assert(r@ =~= undelta_of(d@.take(1)));
    }
    let mut i: usize = 1;
    while i < d.len()
        invariant
            1 <= i <= d@.len(),
            r@ == undelta_of(d@.take(i as int)),
            r@.len() == i,
            current == r@.last(),
        decreases d@.len() - i,
    {
        current = current.wrapping_add(d[i]);
        r.push(current);
        proof {
            let pre = d@.take(i as int);
            let cur = d@.take(i + 1);
            assert(cur.drop_last() =~= pre);
            assert(cur.last() == d@[i as int]);
            lemma_undelta_len(pre);
            assert(r@ =~= undelta_of(cur));
        }
        i = i + 1;
    }
    proof {
        assert(d@.take(d@.len() as int) =~= d@);
    }
    r
}

pub proof fn lemma_undelta_len(d: Seq<i64>)
    ensures
        undelta_of(d).len() == d.len(),
    decreases d.len(),
{
    if d.len() > 1 {
        lemma_undelta_len(d.drop_last());
    }
}

/// Decoding the delta form reproduces the original sequence exactly,
/// for every sequence of 64-bit timestamps.
pub proof fn lemma_delta_round_trip(ts: Seq<i64>)
    ensures
        undelta_of(delta_of(ts)) == ts,
    decreases ts.len(),
{
    let d = delta_of(ts);
    lemma_undelta_len(d);
    if ts.len() <= 1 {
        assert(undelta_of(d) =~= ts);
    } else {
        let pre = ts.drop_last();
        lemma_delta_round_trip(pre);
        assert(d.drop_last() =~= delta_of(pre));
        lemma_undelta_len(delta_of(pre));
        assert(undelta_of(delta_of(pre)).last() == ts[ts.len() - 2]);
        assert(d.last() == ts.last().wrapping_sub(ts[ts.len() - 2]));
        assert(ts[ts.len() - 2].wrapping_add(ts.last().wrapping_sub(ts[ts.len() - 2]))
            == ts.last());
        assert(undelta_of(d) =~= ts);
    }
}

} // verus!
