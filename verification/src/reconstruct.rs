//! The query path: fill a record's template with its captured
//! variables, resolve header ids, and re-emit a syslog-shaped line,
//! with optional template-id and case-insensitive substring filters.

use vstd::prelude::*;
use crate::chunk::LogChunk;
use crate::chunk::LogRecordV;
use crate::text::wild;
use vstd::string::*;

verus! {

/// The pattern with each `<*>` occurrence replaced, left to right and
/// one-shot, by the next variable; slots beyond the variables stay as
/// the literal `<*>`.
pub open spec fn subst(p: Seq<char>, vars: Seq<Seq<char>>) -> Seq<char>
    decreases p.len(),
{
    if p.len() < 3 {
        p
    } else if p.take(3) == wild() && vars.len() > 0 {
        vars[0] + subst(p.skip(3), vars.skip(1))
    } else if p.take(3) == wild() {
        wild() + subst(p.skip(3), vars)
    } else {
        seq![p[0]] + subst(p.skip(1), vars)
    }
}

/// Fills the placeholder slots of a pattern with the variables.
pub fn reconstruct_pattern(pattern: &str, vars: &Vec<String>) -> (r: String)
    ensures
        r@ == subst(pattern@, vars.deep_view()),
{
    let n = pattern.unicode_len();
    let vd = vars.len();
    let mut out = String::new();
    let mut i: usize = 0;
    let mut vi: usize = 0;
    proof {
        assert(pattern@.skip(0) =~= pattern@);
        assert(vars.deep_view().skip(0) =~= vars.deep_view());
    }
    while i < n
        invariant
            i <= n,
            vi <= vd,
            n == pattern@.len(),
            vd == vars.deep_view().len(),
            subst(pattern@, vars.deep_view()) == out@ + subst(
                pattern@.skip(i as int),
                vars.deep_view().skip(vi as int),
            ),
        decreases n - i,
    {
        let ghost rest = pattern@.skip(i as int);
        let ghost vrest = vars.deep_view().skip(vi as int);
        let is_wild = n - i >= 3 && pattern.get_char(i) == '<' && pattern.get_char(i + 1) == '*'
            && pattern.get_char(i + 2) == '>';
        proof {
            if n - i >= 3 {
                assert(rest.take(3) =~= pattern@.subrange(i as int, i + 3));
                if is_wild {
                    assert(rest.take(3) =~= wild());
                } else {
                    assert(rest.take(3) != wild()) by {
                        if rest.take(3) == wild() {
                            assert(pattern@[i as int] == '<' && pattern@[i + 1] == '*'
                                && pattern@[i + 2] == '>');
                        }
                    }
                }
            }
        }
        if is_wild {
            if vi < vd {
                out.append(vars[vi].as_str());
                proof {
                    assert(vrest[0] == vars.deep_view()[vi as int]);
                    assert(rest.skip(3) =~= pattern@.skip(i + 3));
                    assert(vrest.skip(1) =~= vars.deep_view().skip(vi + 1));
                }
                vi = vi + 1;
            } else {
                out.append("<*>");
                proof {
                    reveal_strlit("<*>");
                    assert("<*>"@ =~= wild());
                    assert(vrest.len() == 0);
                    assert(rest.skip(3) =~= pattern@.skip(i + 3));
                }
            }
            i = i + 3;
        } else {
            let piece = pattern.substring_char(i, i + 1);
            out.append(piece);
            proof {
                assert(piece@ =~= seq![pattern@[i as int]]);
                assert(rest[0] == pattern@[i as int]);
                assert(rest.skip(1) =~= pattern@.skip(i + 1));
            }
            i = i + 1;
        }
    }
    proof {
        assert(pattern@.skip(n as int) =~= Seq::<char>::empty());
        assert(subst(Seq::<char>::empty(), vars.deep_view().skip(vi as int)) =~= Seq::<
            char,
        >::empty());
        assert(out@ + Seq::<char>::empty() =~= out@);
    }
    out
}

/// An absent or out-of-range header id prints as `-`.
pub open spec fn resolve_spec(pool: Seq<Seq<char>>, id: Option<u32>) -> Seq<char> {
    match id {
        None => seq!['-'],
        Some(i) => if (i as int) < pool.len() {
            pool[i as int]
        } else {
            seq!['-']
        },
    }
}

/// Resolves a header string id against the pool.
pub fn resolve_id(pool: &Vec<String>, id: Option<u32>) -> (r: String)
    ensures
        r@ == resolve_spec(pool.deep_view(), id),
{
    let dash = dash_str();
    match id {
        None => dash,
        Some(i) => {
            if (i as usize) < pool.len() {
                proof {
                    assert(pool.deep_view()[i as int] == pool@[i as int]@);
                }
                pool[i as usize].clone()
            } else {
                dash
            }
        },
    }
}

fn dash_str() -> (r: String)
    ensures
        r@ == seq!['-'],
{
    let r: String = "-".to_owned();
    proof {
        reveal_strlit("-");
        assert(r@ =~= seq!['-']);
    }
    r
}

/// The canonical decimal digits of a non-negative value.
pub open spec fn dec_str(v: int) -> Seq<char>
    decreases v,
{
    if v < 0 {
        Seq::empty()
    } else if v < 10 {
        seq![((48 + v) as u8) as char]
    } else {
        dec_str(v / 10) + seq![((48 + v % 10) as u8) as char]
    }
}

fn digit_str(d: u8) -> (r: String)
    requires
        d < 10,
    ensures
        r@ == seq![((48 + d) as u8) as char],
{
    let digits = "0123456789";
    proof {
        reveal_strlit("0123456789");
    }
    digits.substring_char(d as usize, d as usize + 1).to_owned()
}

/// Renders a `u8` in decimal.
pub fn u8_dec(v: u8) -> (r: String)
    ensures
        r@ == dec_str(v as int),
{
    if v >= 100 {
        let a = digit_str(v / 100);
        let b = digit_str((v / 10) % 10);
        let c = digit_str(v % 10);
        proof {
            assert(v as int / 10 / 10 == v as int / 100) by (nonlinear_arith);
            assert(v as int / 10 % 10 == (v as int / 10) % 10);
            assert(dec_str(v as int) == dec_str(v as int / 10) + seq![
                ((48 + v as int % 10) as u8) as char,
            ]);
            assert(dec_str(v as int / 10) == dec_str(v as int / 100) + seq![
                ((48 + (v as int / 10) % 10) as u8) as char,
            ]);
        }
        let r = a.concat(b.as_str()).concat(c.as_str());
        proof {
            assert(r@ =~= dec_str(v as int));
        }
        r
    } else if v >= 10 {
        let a = digit_str(v / 10);
        let b = digit_str(v % 10);
        proof {
            assert(0 <= v as int / 10 < 10);
            assert(dec_str(v as int) == dec_str(v as int / 10) + seq![
                ((48 + v as int % 10) as u8) as char,
            ]);
        }
        let r = a.concat(b.as_str());
        proof {
            assert(r@ =~= dec_str(v as int));
        }
        r
    } else {
        digit_str(v)
    }
}

/// What chrono renders the instant as, RFC 3339 shaped; `None` when
/// the millisecond value is outside the representable range.
pub uninterp spec fn rfc3339_of(ms: i64) -> Option<Seq<char>>;

/// Relies on chrono Utc.timestamp_millis_opt(..).earliest() and
/// DateTime::to_rfc3339: the text depends on the value alone.
#[verifier::external_body]
fn ts_rfc3339(ms: i64) -> (r: Option<String>)
    ensures
        r.deep_view() == rfc3339_of(ms),
{
    match chrono::TimeZone::timestamp_millis_opt(&chrono::Utc, ms).earliest() {
        Some(dt) => Some(dt.to_rfc3339()),
        None => None,
    }
}

/// What chrono renders the instant as in the BSD `Mmm dd HH:MM:SS`
/// shape; `None` when the value is out of range.
pub uninterp spec fn bsd_stamp_of(ms: i64) -> Option<Seq<char>>;

/// Relies on chrono Utc.timestamp_millis_opt(..).earliest() and
/// DateTime::format: the text depends on the value alone.
#[verifier::external_body]
fn ts_bsd(ms: i64) -> (r: Option<String>)
    ensures
        r.deep_view() == bsd_stamp_of(ms),
{
    match chrono::TimeZone::timestamp_millis_opt(&chrono::Utc, ms).earliest() {
        Some(dt) => Some(dt.format("%b %d %H:%M:%S").to_string()),
        None => None,
    }
}

/// What lowercasing returns; a function of the characters alone.
pub uninterp spec fn lower_of(s: Seq<char>) -> Seq<char>;

/// Relies on str::to_lowercase.
#[verifier::external_body]
fn lowercase(s: &str) -> (r: String)
    ensures
        r@ == lower_of(s@),
{
    s.to_lowercase()
}

/// Whether the needle occurs in the haystack.
pub open spec fn has_substr(h: Seq<char>, nd: Seq<char>) -> bool {
    exists|i: int| 0 <= i <= h.len() - nd.len() && #[trigger] h.subrange(i, i + nd.len()) == nd
}

/// Substring search.
pub fn contains_substr(h: &str, nd: &str) -> (r: bool)
    ensures
        r == has_substr(h@, nd@),
{
    let hn = h.unicode_len();
    let nn = nd.unicode_len();
    if nn > hn {
        proof {
            assert(!has_substr(h@, nd@));
        }
        return false;
    }
    let mut i: usize = 0;
    while i <= hn - nn
        invariant
            0 <= i <= hn - nn + 1,
            nn <= hn,
            hn == h@.len(),
            nn == nd@.len(),
            forall|q: int| 0 <= q < i ==> #[trigger] h@.subrange(q, q + nd@.len()) != nd@,
        decreases hn - nn + 1 - i,
    {
        let mut k: usize = 0;
        let mut same = true;
        while k < nn
            invariant
                k <= nn,
                i + nn <= hn,
                hn == h@.len(),
                nn == nd@.len(),
                same ==> forall|q: int| 0 <= q < k ==> h@[i + q] == nd@[q],
                !same ==> exists|q: int| 0 <= q < k && h@[i + q] != nd@[q],
            decreases nn - k,
        {
            if !(h.get_char(i + k) == nd.get_char(k)) {
                same = false;
                proof {
                    assert(h@[i + k] != nd@[k as int]);
                }
            }
            k = k + 1;
        }
        if same {
            proof {
                assert(h@.subrange(i as int, i + nd@.len()) =~= nd@);
            }
            return true;
        }
        proof {
            let w = choose|w: int| 0 <= w < nn && h@[i + w] != nd@[w];
            assert(h@.subrange(i as int, i + nd@.len())[w] == h@[i + w]);
            assert(h@.subrange(i as int, i + nd@.len()) != nd@);
        }
        i = i + 1;
    }
    false
}

/// The pattern a record resolves to; an unresolvable id reads as the
/// literal `UNKNOWN`.
pub open spec fn record_pattern(tpls: Seq<Seq<char>>, r: LogRecordV) -> Seq<char> {
    if (r.template_id as int) < tpls.len() {
        tpls[r.template_id as int]
    } else {
        seq!['U', 'N', 'K', 'N', 'O', 'W', 'N']
    }
}

/// The reconstructed line for one record, in the shape of its framing;
/// `None` when the timestamp cannot be rendered, in which case the
/// record is skipped.
pub open spec fn line_of(tpls: Seq<Seq<char>>, pool: Seq<Seq<char>>, r: LogRecordV) -> Option<
    Seq<char>,
> {
    let body = subst(record_pattern(tpls, r), r.variables);
    if r.is_rfc5424 {
        match rfc3339_of(r.timestamp) {
            None => None,
            Some(ts) => Some(
                seq!['<'] + dec_str(r.priority as int) + seq!['>', '1', ' '] + ts + seq![' ']
                    + resolve_spec(pool, r.hostname_id) + seq![' '] + resolve_spec(
                    pool,
                    r.app_name_id,
                ) + seq![' '] + resolve_spec(pool, r.procid_id) + seq![' '] + resolve_spec(
                    pool,
                    r.msgid_id,
                ) + seq![' ', '['] + resolve_spec(pool, r.structured_data_id) + seq![']', ' ']
                    + body,
            ),
        }
    } else {
        match bsd_stamp_of(r.timestamp) {
            None => None,
            Some(st) => Some(
                seq!['<'] + dec_str(r.priority as int) + seq!['>'] + st + seq![' ']
                    + resolve_spec(pool, r.hostname_id) + seq![' '] + body,
            ),
        }
    }
}

/// The text the substring filter searches: the header fields, the
/// reconstructed body and the priority, space-separated.
pub open spec fn haystack(tpls: Seq<Seq<char>>, pool: Seq<Seq<char>>, r: LogRecordV) -> Seq<char> {
    resolve_spec(pool, r.hostname_id) + seq![' '] + resolve_spec(pool, r.app_name_id) + seq![' ']
        + resolve_spec(pool, r.procid_id) + seq![' '] + resolve_spec(pool, r.msgid_id) + seq![' ']
        + resolve_spec(pool, r.structured_data_id) + seq![' '] + subst(
        record_pattern(tpls, r),
        r.variables,
    ) + seq![' '] + dec_str(r.priority as int)
}

/// Whether a record survives the filters: template-id equality, and a
/// case-insensitive substring over the haystack.
pub open spec fn passes(
    tpls: Seq<Seq<char>>,
    pool: Seq<Seq<char>>,
    r: LogRecordV,
    tid: Option<u32>,
    filt: Option<Seq<char>>,
) -> bool {
    &&& (tid is Some ==> r.template_id == tid->0)
    &&& (filt is Some ==> has_substr(lower_of(haystack(tpls, pool, r)), filt->0))
}

/// The lines the query emits: for each record in order, the rendered
/// line if it passes the filters and its timestamp renders.
pub open spec fn query_spec(
    tpls: Seq<Seq<char>>,
    pool: Seq<Seq<char>>,
    recs: Seq<LogRecordV>,
    tid: Option<u32>,
    filt: Option<Seq<char>>,
) -> Seq<Seq<char>>
    decreases recs.len(),
{
    if recs.len() == 0 {
        Seq::empty()
    } else {
        let pre = query_spec(tpls, pool, recs.drop_last(), tid, filt);
        let r = recs.last();
        if passes(tpls, pool, r, tid, filt) {
            match line_of(tpls, pool, r) {
                Some(l) => pre.push(l),
                None => pre,
            }
        } else {
            pre
        }
    }
}

/// The filter, lowercased.
pub open spec fn lower_opt(o: Option<Seq<char>>) -> Option<Seq<char>> {
    match o {
        None => None,
        Some(f) => Some(lower_of(f)),
    }
}

fn space_str() -> (r: String)
    ensures
        r@ == seq![' '],
{
    let r: String = " ".to_owned();
    proof {
        reveal_strlit(" ");
        assert(r@ =~= seq![' ']);
    }
    r
}

/// Reconstructs the lines of a decoded chunk, record by record, under
/// the optional filters.
pub fn query_records(chunk: &LogChunk, template_id: Option<u32>, filter: &Option<String>) -> (r:
    Vec<String>)
    ensures
        r.deep_view() == query_spec(
            chunk.templates.deep_view(),
            chunk.string_pool.deep_view(),
            chunk.records.deep_view(),
            template_id,
            lower_opt(filter.deep_view()),
        ),
{
    let ghost tpls = chunk.templates.deep_view();
    let ghost pool = chunk.string_pool.deep_view();
    let ghost recs = chunk.records.deep_view();
    let flow: Option<String> = match filter {
        Some(f) => Some(lowercase(f.as_str())),
        None => None,
    };
    proof {
        assert(flow.deep_view() == lower_opt(filter.deep_view()));
    }
    let mut out: Vec<String> = Vec::new();
    let mut k: usize = 0;
    proof {
        assert(recs.take(0) =~= Seq::<LogRecordV>::empty());
        assert(out.deep_view() =~= Seq::<Seq<char>>::empty());
    }
    while k < chunk.records.len()
        invariant
            k <= chunk.records@.len(),
            recs.len() == chunk.records@.len(),
            out.deep_view() == query_spec(
                tpls,
                pool,
                recs.take(k as int),
                template_id,
                flow.deep_view(),
            ),
        decreases chunk.records@.len() - k,
    {
        let ghost rv = recs[k as int];
        proof {
            assert(rv == chunk.records@[k as int]@);
            assert(recs.take(k + 1).drop_last() =~= recs.take(k as int));
            assert(recs.take(k + 1).last() == rv);
        }
        let sp = space_str();
        let tid = chunk.records[k].template_id;
        let keep_tid = match template_id {
            Some(t) => tid == t,
            None => true,
        };
        if keep_tid {
            let pattern: String = if (tid as usize) < chunk.templates.len() {
                proof {
                    assert(tpls[tid as int] == chunk.templates@[tid as int]@);
                }
                chunk.templates[tid as usize].clone()
            } else {
                let u: String = "UNKNOWN".to_owned();
                proof {
                    reveal_strlit("UNKNOWN");
                    assert(u@ =~= seq!['U', 'N', 'K', 'N', 'O', 'W', 'N']);
                }
                u
            };
            let body = reconstruct_pattern(pattern.as_str(), &chunk.records[k].variables);
            let host = resolve_id(&chunk.string_pool, chunk.records[k].hostname_id);
            let app = resolve_id(&chunk.string_pool, chunk.records[k].app_name_id);
            let procid = resolve_id(&chunk.string_pool, chunk.records[k].procid_id);
            let msgid = resolve_id(&chunk.string_pool, chunk.records[k].msgid_id);
            let sd = resolve_id(&chunk.string_pool, chunk.records[k].structured_data_id);
            let pri = u8_dec(chunk.records[k].priority);
            let keep_filter = match &flow {
                Some(f) => {
                    let mut hay = String::new();
                    hay.append(host.as_str());
                    hay.append(sp.as_str());
                    hay.append(app.as_str());
                    hay.append(sp.as_str());
                    hay.append(procid.as_str());
                    hay.append(sp.as_str());
                    hay.append(msgid.as_str());
                    hay.append(sp.as_str());
                    hay.append(sd.as_str());
                    hay.append(sp.as_str());
                    hay.append(body.as_str());
                    hay.append(sp.as_str());
                    hay.append(pri.as_str());
                    proof {
                        assert(hay@ == haystack(tpls, pool, rv));
                    }
                    let low = lowercase(hay.as_str());
                    contains_substr(low.as_str(), f.as_str())
                },
                None => true,
            };
            if keep_filter {
                proof {
                    assert(passes(tpls, pool, rv, template_id, flow.deep_view()));
                }
                let line: Option<String> = if chunk.records[k].is_rfc5424 {
                    match ts_rfc3339(chunk.records[k].timestamp) {
                        None => None,
                        Some(ts) => {
                            let mut l = String::new();
                            l.append("<");
                            l.append(pri.as_str());
                            l.append(">1 ");
                            l.append(ts.as_str());
                            l.append(sp.as_str());
                            l.append(host.as_str());
                            l.append(sp.as_str());
                            l.append(app.as_str());
                            l.append(sp.as_str());
                            l.append(procid.as_str());
                            l.append(sp.as_str());
                            l.append(msgid.as_str());
                            l.append(" [");
                            l.append(sd.as_str());
                            l.append("] ");
                            l.append(body.as_str());
                            proof {
                                reveal_strlit("<");
                                reveal_strlit(">1 ");
                                reveal_strlit(" [");
                                reveal_strlit("] ");
                                assert("<"@ =~= seq!['<']);
                                assert(">1 "@ =~= seq!['>', '1', ' ']);
                                assert(" ["@ =~= seq![' ', '[']);
                                assert("] "@ =~= seq![']', ' ']);
                                assert(line_of(tpls, pool, rv) == Some(l@));
                            }
                            Some(l)
                        },
                    }
                } else {
                    match ts_bsd(chunk.records[k].timestamp) {
                        None => None,
                        Some(st) => {
                            let mut l = String::new();
                            l.append("<");
                            l.append(pri.as_str());
                            l.append(">");
                            l.append(st.as_str());
                            l.append(sp.as_str());
                            l.append(host.as_str());
                            l.append(sp.as_str());
                            l.append(body.as_str());
                            proof {
                                reveal_strlit("<");
                                reveal_strlit(">");
                                assert("<"@ =~= seq!['<']);
                                assert(">"@ =~= seq!['>']);
                                assert(line_of(tpls, pool, rv) == Some(l@));
                            }
                            Some(l)
                        },
                    }
                };
                match line {
                    Some(l) => {
                        let ghost pre = out.deep_view();
                        out.push(l);
                        proof {
                            assert(out.deep_view() =~= pre.push(
                                line_of(tpls, pool, rv)->0,
                            ));
                        }
                    },
                    None => {
                        proof {
                            assert(line_of(tpls, pool, rv) is None);
                        }
                    },
                }
            } else {
                proof {
                    assert(!passes(tpls, pool, rv, template_id, flow.deep_view()));
                }
            }
        } else {
            proof {
                assert(!passes(tpls, pool, rv, template_id, flow.deep_view()));
            }
        }
        k = k + 1;
    }
    proof {
        assert(recs.take(recs.len() as int) =~= recs);
    }
    out
}


} // verus!
