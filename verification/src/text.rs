//! Whitespace tokenisation of message bodies, the `<*>` placeholder,
//! and space-joined patterns.

use vstd::prelude::*;
use vstd::string::*;

verus! {

/// Whether a character counts as whitespace for tokenisation.
pub uninterp spec fn is_ws_char(c: char) -> bool;

/// Relies on char::is_whitespace: whether the character has the Unicode
/// White_Space property.  A space is documented as whitespace.
#[verifier::external_body]
pub(crate) fn ws_char(c: char) -> (r: bool)
    ensures
        r == is_ws_char(c),
        c == ' ' ==> r,
{
    c.is_whitespace()
}

/// Length of the leading run of non-whitespace characters.
pub open spec fn token_run(s: Seq<char>) -> nat
    decreases s.len(),
{
    if s.len() == 0 || is_ws_char(s[0]) {
        0
    } else {
        1 + token_run(s.skip(1))
    }
}

pub proof fn lemma_token_run_le(s: Seq<char>)
    ensures
        token_run(s) <= s.len(),
    decreases s.len(),
{
    if s.len() != 0 && !is_ws_char(s[0]) {
        lemma_token_run_le(s.skip(1));
    }
}

/// The token run is exactly `k` when the first `k` characters are
/// non-whitespace and the run stops there.
pub proof fn lemma_token_run_is(s: Seq<char>, k: int)
    requires
        0 <= k <= s.len(),
        forall|j: int| 0 <= j < k ==> !is_ws_char(s[j]),
        k == s.len() || is_ws_char(s[k]),
    ensures
        token_run(s) == k,
    decreases k,
{
    if k == 0 {
    } else {
        lemma_token_run_is(s.skip(1), k - 1);
    }
}

/// The whitespace-separated tokens of a character sequence: maximal runs
/// of non-whitespace characters, in order.
pub open spec fn tokens_of(s: Seq<char>) -> Seq<Seq<char>>
    decreases s.len(),
    via tokens_of_decreases
{
    if s.len() == 0 {
        Seq::empty()
    } else if is_ws_char(s[0]) {
        tokens_of(s.skip(1))
    } else {
        seq![s.take(token_run(s) as int)] + tokens_of(s.skip(token_run(s) as int))
    }
}

#[via_fn]
proof fn tokens_of_decreases(s: Seq<char>) {
    lemma_token_run_le(s);
}

/// Splits a string into its whitespace-separated tokens.
pub fn tokenize(s: &str) -> (r: Vec<String>)
    ensures
        r.deep_view() == tokens_of(s@),
{
    let n = s.unicode_len();
    let mut r: Vec<String> = Vec::new();
    let mut i: usize = 0;
    proof {
        assert(s@.skip(0) =~= s@);
        assert(r.deep_view() + tokens_of(s@) =~= tokens_of(s@));
    }
    while i < n
        invariant
            i <= n,
            n == s@.len(),
            tokens_of(s@) == r.deep_view() + tokens_of(s@.skip(i as int)),
        decreases n - i,
    {
        let c = s.get_char(i);
        if ws_char(c) {
            proof {
                assert(s@.skip(i as int).skip(1) =~= s@.skip(i + 1));
            }
            i = i + 1;
        } else {
            let start = i;
            i = i + 1;
            while i < n && !ws_char(s.get_char(i))
                invariant
                    start < i <= n,
                    n == s@.len(),
                    forall|j: int| start <= j < i ==> !is_ws_char(s@[j]),
                decreases n - i,
            {
                i = i + 1;
            }
            let tok = s.substring_char(start, i).to_owned();
            proof {
                let rest = s@.skip(start as int);
                lemma_token_run_is(rest, i - start);
                assert(rest.take(i - start) =~= s@.subrange(start as int, i as int));
                assert(rest.skip(i - start) =~= s@.skip(i as int));
                assert(tokens_of(rest) == seq![tok@] + tokens_of(s@.skip(i as int)));
                assert(r.deep_view().push(tok@) + tokens_of(s@.skip(i as int)) =~= r.deep_view()
                    + tokens_of(rest));
                assert((r.deep_view() + seq![tok@]) =~= r.deep_view().push(tok@));
            }
            r.push(tok);
        }
    }
    proof {
        assert(s@.skip(n as int) =~= Seq::<char>::empty());
        assert(r.deep_view() + Seq::<Seq<char>>::empty() =~= r.deep_view());
    }
    r
}

/// The tokens joined by single spaces.
pub open spec fn join_tokens(ts: Seq<Seq<char>>) -> Seq<char>
    decreases ts.len(),
{
    if ts.len() == 0 {
        Seq::empty()
    } else if ts.len() == 1 {
        ts[0]
    } else {
        join_tokens(ts.drop_last()) + seq![' '] + ts.last()
    }
}

/// Joins tokens with single spaces.
pub fn join(ts: &Vec<String>) -> (r: String)
    ensures
        r@ == join_tokens(ts.deep_view()),
{
    let mut r = String::new();
    let mut i: usize = 0;
    while i < ts.len()
        invariant
            i <= ts.len(),
            r@ == join_tokens(ts.deep_view().take(i as int)),
        decreases ts.len() - i,
    {
        if i > 0 {
            r.append(" ");
            proof {
                reveal_strlit(" ");
            }
        }
        r.append(ts[i].as_str());
        proof {
            let dv = ts.deep_view();
            assert(dv.take(i + 1).drop_last() =~= dv.take(i as int));
            assert(dv.take(i + 1).last() == dv[i as int]);
            if i == 0 {
                assert(join_tokens(dv.take(1)) == dv.take(1)[0]);
                assert(r@ =~= dv[0]);
            }
        }
        i = i + 1;
    }
    proof {
        assert(ts.deep_view().take(ts.len() as int) =~= ts.deep_view());
    }
    r
}

/// The `<*>` placeholder token.
pub open spec fn wild() -> Seq<char> {
    seq!['<', '*', '>']
}

/// Returns the `<*>` placeholder as a string.
pub fn wild_str() -> (r: String)
    ensures
        r@ == wild(),
{
    let r: String = "<*>".to_owned();
    proof {
        reveal_strlit("<*>");
        assert(r@ =~= wild());
    }
    r
}

/// Number of `<*>` occurrences in a pattern, scanned left to right
/// without overlap — the number of slots the reconstructor will fill.
pub open spec fn wild_count(p: Seq<char>) -> nat
    decreases p.len(),
{
    if p.len() < 3 {
        0
    } else if p.take(3) == wild() {
        1 + wild_count(p.skip(3))
    } else {
        wild_count(p.skip(1))
    }
}

/// A single space separates the placeholder scans of the two sides:
/// occurrences never straddle the separator.
pub proof fn lemma_wild_count_sep(a: Seq<char>, b: Seq<char>)
    ensures
        wild_count(a + seq![' '] + b) == wild_count(a) + wild_count(b),
    decreases a.len(),
{
    let s = a + seq![' '] + b;
    if a.len() == 0 {
        assert(s =~= seq![' '] + b);
        let t = seq![' '] + b;
        if t.len() >= 3 {
            assert(t.take(3)[0] == ' ');
            assert(t.take(3) != wild());
        }
        assert(t.skip(1) =~= b);
    } else {
        if s.len() < 3 {
            assert(a.len() < 3 && b.len() == 0);
            assert(wild_count(a) == 0 && wild_count(b) == 0);
        } else if s.take(3) == wild() {
            assert(a.len() >= 3) by {
                if a.len() == 1 {
                    assert(s.take(3)[1] == ' ');
                } else if a.len() == 2 {
                    assert(s.take(3)[2] == ' ');
                }
            }
            assert(a.take(3) =~= s.take(3));
            assert(s.skip(3) =~= a.skip(3) + seq![' '] + b);
            lemma_wild_count_sep(a.skip(3), b);
        } else {
            if a.len() >= 3 {
                assert(a.take(3) =~= s.take(3));
            }
            assert(s.skip(1) =~= a.skip(1) + seq![' '] + b);
            lemma_wild_count_sep(a.skip(1), b);
        }
    }
}

/// Number of tokens that are exactly the `<*>` placeholder.
pub open spec fn wild_token_count(ts: Seq<Seq<char>>) -> nat
    decreases ts.len(),
{
    if ts.len() == 0 {
        0
    } else {
        wild_token_count(ts.drop_last()) + if ts.last() == wild() {
            1nat
        } else {
            0nat
        }
    }
}

/// The placeholder on its own counts one slot.
pub proof fn lemma_wild_count_wild()
    ensures
        wild_count(wild()) == 1,
{
    assert(wild().take(3) =~= wild());
    assert(wild().skip(3) =~= Seq::<char>::empty());
    assert(wild_count(Seq::<char>::empty()) == 0);
}

/// Each placeholder token contributes at least one `<*>` occurrence to
/// the joined pattern.
pub proof fn lemma_wild_tokens_le_count(ts: Seq<Seq<char>>)
    ensures
        wild_token_count(ts) <= wild_count(join_tokens(ts)),
    decreases ts.len(),
{
    if ts.len() == 0 {
    } else if ts.len() == 1 {
        assert(wild_token_count(ts.drop_last()) == 0);
        assert(join_tokens(ts) == ts[0]);
        if ts.last() == wild() {
            assert(ts[0] == ts.last());
            lemma_wild_count_wild();
        }
    } else {
        lemma_wild_tokens_le_count(ts.drop_last());
        lemma_wild_count_sep(join_tokens(ts.drop_last()), ts.last());
        if ts.last() == wild() {
            lemma_wild_count_wild();
        }
    }
}

} // verus!
