//! The RFC 5424 framing: `<PRI>VERSION SP TIMESTAMP SP HOSTNAME SP
//! APP-NAME SP PROCID SP MSGID SP STRUCTURED-DATA SP* MSG`.  A `-`
//! field is nil; structured data is either `-` or one bracketed block.

use vstd::prelude::*;
use crate::event::SyslogMessage;
use crate::protocol::ParseError;
use crate::protocol::digit_p;
use crate::protocol::digits_val;
use crate::protocol::not_ws_p;
use crate::protocol::lemma_run_while_is;
use crate::protocol::parse_pri;
use crate::protocol::parse_pri_spec;
use crate::protocol::run_while;
use crate::protocol::scan_digits;
use crate::protocol::scan_non_ws;
use crate::protocol::scan_space_tab;
use crate::protocol::space_tab_p;
use vstd::string::*;

verus! {

/// What chrono's RFC 3339 parser yields on the given text, as
/// milliseconds since the Unix epoch; `None` when the text does not
/// parse.
pub uninterp spec fn rfc3339_ms_of(s: Seq<char>) -> Option<i64>;

/// Relies on chrono::DateTime::parse_from_rfc3339 and
/// DateTime::timestamp_millis: the parse depends on the text alone,
/// and the instant is unchanged by the conversion to UTC.
#[verifier::external_body]
fn parse_rfc3339_ms(s: &str) -> (r: Option<i64>)
    ensures
        r == rfc3339_ms_of(s@),
{
    match chrono::DateTime::parse_from_rfc3339(s) {
        Ok(dt) => Some(dt.with_timezone(&chrono::Utc).timestamp_millis()),
        Err(_) => None,
    }
}

/// A `-` field is nil; anything else is itself.
pub open spec fn nil_or(f: Seq<char>) -> Option<Seq<char>> {
    if f == seq!['-'] {
        None
    } else {
        Some(f)
    }
}

/// The fields an RFC 5424 line carries.
pub struct Parts5424 {
    pub pri: u8,
    pub timestamp: Option<i64>,
    pub hostname: Option<Seq<char>>,
    pub app_name: Option<Seq<char>>,
    pub procid: Option<Seq<char>>,
    pub msgid: Option<Seq<char>>,
    pub sd: Option<Seq<char>>,
    pub msg: Seq<char>,
}

/// What the RFC 5424 grammar yields.  The version is one or more
/// digits with a value below 256; each header field runs to the next
/// whitespace and is followed by at least one space or tab; a
/// timestamp that is `-` or fails the RFC 3339 parse is absent, not an
/// error.
pub open spec fn parse5424_spec(s: Seq<char>) -> Option<Parts5424> {
    match parse_pri_spec(s) {
        None => None,
        Some(pv) => {
            let p = pv.1;
            let vk = run_while(s, p, digit_p()) as int;
            if vk == 0 || digits_val(s.subrange(p, p + vk)) > 255 {
                None
            } else {
                let w1 = run_while(s, p + vk, space_tab_p()) as int;
                if w1 == 0 {
                    None
                } else {
                    let ts_s = p + vk + w1;
                    let ts_e = ts_s + run_while(s, ts_s, not_ws_p());
                    let w2 = run_while(s, ts_e, space_tab_p()) as int;
                    if w2 == 0 {
                        None
                    } else {
                        let h_s = ts_e + w2;
                        let h_e = h_s + run_while(s, h_s, not_ws_p());
                        let w3 = run_while(s, h_e, space_tab_p()) as int;
                        if w3 == 0 {
                            None
                        } else {
                            let a_s = h_e + w3;
                            let a_e = a_s + run_while(s, a_s, not_ws_p());
                            let w4 = run_while(s, a_e, space_tab_p()) as int;
                            if w4 == 0 {
                                None
                            } else {
                                let pr_s = a_e + w4;
                                let pr_e = pr_s + run_while(s, pr_s, not_ws_p());
                                let w5 = run_while(s, pr_e, space_tab_p()) as int;
                                if w5 == 0 {
                                    None
                                } else {
                                    let mi_s = pr_e + w5;
                                    let mi_e = mi_s + run_while(s, mi_s, not_ws_p());
                                    let w6 = run_while(s, mi_e, space_tab_p()) as int;
                                    if w6 == 0 {
                                        None
                                    } else {
                                        parse5424_tail(s, pv.0, ts_s, ts_e, h_s, h_e, a_s, a_e, pr_s, pr_e, mi_s, mi_e, mi_e + w6)
                                    }
                                }
                            }
                        }
                    }
                }
            }
        },
    }
}

/// The structured-data element and message body: `-` for none, or one
/// `[`..`]` block, then optional spaces and the rest of the line.
pub open spec fn parse5424_tail(
    s: Seq<char>,
    pri: u8,
    ts_s: int,
    ts_e: int,
    h_s: int,
    h_e: int,
    a_s: int,
    a_e: int,
    pr_s: int,
    pr_e: int,
    mi_s: int,
    mi_e: int,
    sd_i: int,
) -> Option<Parts5424> {
    if sd_i >= s.len() {
        None
    } else {
        let tsf = s.subrange(ts_s, ts_e);
        let parts = Parts5424 {
            pri: pri,
            timestamp: if tsf == seq!['-'] {
                None
            } else {
                rfc3339_ms_of(tsf)
            },
            hostname: nil_or(s.subrange(h_s, h_e)),
            app_name: nil_or(s.subrange(a_s, a_e)),
            procid: nil_or(s.subrange(pr_s, pr_e)),
            msgid: nil_or(s.subrange(mi_s, mi_e)),
            sd: None,
            msg: Seq::empty(),
        };
        if s[sd_i] == '-' {
            let w7 = run_while(s, sd_i + 1, space_tab_p()) as int;
            Some(Parts5424 { sd: None, msg: s.skip(sd_i + 1 + w7), ..parts })
        } else if s[sd_i] == '[' {
            let q = run_while(s, sd_i + 1, (|c: char| c != ']')) as int;
            if sd_i + 1 + q >= s.len() {
                None
            } else {
                let w7 = run_while(s, sd_i + 1 + q + 1, space_tab_p()) as int;
                Some(
                    Parts5424 {
                        sd: Some(s.subrange(sd_i + 1, sd_i + 1 + q)),
                        msg: s.skip(sd_i + 1 + q + 1 + w7),
                        ..parts
                    },
                )
            }
        } else {
            None
        }
    }
}

/// The parse result is exactly what the grammar says: rejected lines
/// give the malformed error, accepted lines give every field.
pub open spec fn parse_matches_5424(s: Seq<char>, r: Result<SyslogMessage, ParseError>) -> bool {
    match parse5424_spec(s) {
        None => r == Result::<SyslogMessage, ParseError>::Err(ParseError::Malformed),
        Some(t) => {
            &&& r is Ok
            &&& ({
                let m = r->Ok_0@;
                &&& m.priority == t.pri
                &&& m.facility == t.pri >> 3
                &&& m.severity == t.pri & 7
                &&& m.timestamp == t.timestamp
                &&& m.hostname == t.hostname
                &&& m.app_name == t.app_name
                &&& m.procid == t.procid
                &&& m.msgid == t.msgid
                &&& m.structured_data == t.sd
                &&& m.message == t.msg
                &&& m.is_rfc5424 == true
            })
        },
    }
}

/// Reads a header field: `-` is nil, anything else is kept.
fn field_or_nil(s: &str, a: usize, b: usize) -> (r: Option<String>)
    requires
        a <= b <= s@.len(),
    ensures
        r.deep_view() == nil_or(s@.subrange(a as int, b as int)),
{
    let f = s.substring_char(a, b);
    if f.unicode_len() == 1 && f.get_char(0) == '-' {
        proof {
            assert(f@ =~= seq!['-']);
        }
        None
    } else {
        proof {
            if s@.subrange(a as int, b as int) == seq!['-'] {
                assert(f@.len() == 1 && f@[0] == '-');
            }
        }
        Some(f.to_owned())
    }
}

pub struct RFC5424Parser;

impl RFC5424Parser {
    /// Parses one RFC 5424 line.
    pub fn parse(input: &str) -> (r: Result<SyslogMessage, ParseError>)
        ensures
            parse_matches_5424(input@, r),
    {
        let n = input.unicode_len();
        let (pri, p) = match parse_pri(input) {
            Some(v) => v,
            None => {
                return Err(ParseError::Malformed);
            },
        };
        let ve = scan_digits(input, p);
        if ve == p {
            return Err(ParseError::Malformed);
        }
        // the version value must fit: saturating accumulation
        let mut vval: u32 = 0;
        let mut vi: usize = p;
        while vi < ve
            invariant
                p <= vi <= ve,
                ve <= n,
                n == input@.len(),
                forall|k: int| p <= k < ve ==> digit_p()(#[trigger] input@[k]),
                vval <= 2559,
                (vval <= 255 && vval == digits_val(input@.subrange(p as int, vi as int))) || (vval
                    > 255 && digits_val(input@.subrange(p as int, vi as int)) > 255),
            decreases ve - vi,
        {
            let c = input.get_char(vi) as u32;
            proof {
                assert(digit_p()(input@[vi as int]));
                let pre = input@.subrange(p as int, vi as int);
                let cur = input@.subrange(p as int, vi + 1);
                assert(cur.drop_last() =~= pre);
                assert(cur.last() == input@[vi as int]);
            }
            if vval > 255 {
                vval = 256;
            } else {
                vval = vval * 10 + (c - 48);
            }
            vi = vi + 1;
        }
        if vval > 255 {
            return Err(ParseError::Malformed);
        }
        let w1 = scan_space_tab(input, ve);
        if w1 == ve {
            return Err(ParseError::Malformed);
        }
        let ts_e = scan_non_ws(input, w1);
        let w2 = scan_space_tab(input, ts_e);
        if w2 == ts_e {
            return Err(ParseError::Malformed);
        }
        let h_e = scan_non_ws(input, w2);
        let w3 = scan_space_tab(input, h_e);
        if w3 == h_e {
            return Err(ParseError::Malformed);
        }
        let a_e = scan_non_ws(input, w3);
        let w4 = scan_space_tab(input, a_e);
        if w4 == a_e {
            return Err(ParseError::Malformed);
        }
        let pr_e = scan_non_ws(input, w4);
        let w5 = scan_space_tab(input, pr_e);
        if w5 == pr_e {
            return Err(ParseError::Malformed);
        }
        let mi_e = scan_non_ws(input, w5);
        let w6 = scan_space_tab(input, mi_e);
        if w6 == mi_e {
            return Err(ParseError::Malformed);
        }
        // structured data: `-` or one bracketed block
        let sd_i = w6;
        if sd_i >= n {
            return Err(ParseError::Malformed);
        }
        let sdc = input.get_char(sd_i);
        let (sd, rest) = if sdc == '-' {
            (None, sd_i + 1)
        } else if sdc == '[' {
            let mut q = sd_i + 1;
            while q < n && !(input.get_char(q) == ']')
                invariant
                    sd_i + 1 <= q <= n,
                    n == input@.len(),
                    forall|k: int| sd_i + 1 <= k < q ==> (|c: char| c != ']')(#[trigger] input@[k]),
                decreases n - q,
            {
                q = q + 1;
            }
            proof {
                lemma_run_while_is(input@, sd_i as int + 1, q as int, (|c: char| c != ']'));
            }
            if q >= n {
                return Err(ParseError::Malformed);
            }
            (Some(input.substring_char(sd_i + 1, q).to_owned()), q + 1)
        } else {
            return Err(ParseError::Malformed);
        };
        let w7 = scan_space_tab(input, rest);
        let message = input.substring_char(w7, n).to_owned();
        proof {
            assert(message@ =~= input@.skip(w7 as int));
        }
        let tsfield = input.substring_char(w1, ts_e);
        let timestamp = if tsfield.unicode_len() == 1 && tsfield.get_char(0) == '-' {
            proof {
                assert(tsfield@ =~= seq!['-']);
            }
            None
        } else {
            proof {
                if input@.subrange(w1 as int, ts_e as int) == seq!['-'] {
                    assert(tsfield@.len() == 1 && tsfield@[0] == '-');
                }
            }
            parse_rfc3339_ms(tsfield)
        };
        let hostname = field_or_nil(input, w2, h_e);
        let app_name = field_or_nil(input, w3, a_e);
        let procid = field_or_nil(input, w4, pr_e);
        let msgid = field_or_nil(input, w5, mi_e);
        Ok(
            SyslogMessage {
                priority: pri,
                facility: pri >> 3,
                severity: pri & 7,
                timestamp,
                hostname,
                app_name,
                procid,
                msgid,
                structured_data: sd,
                message,
                is_rfc5424: true,
            },
        )
    }
}

} // verus!
