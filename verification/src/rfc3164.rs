//! The BSD syslog framing: `<PRI>Mmm dd hh:mm:ss host msg`.  The three
//! timestamp fields are recognised but not interpreted; the record's
//! timestamp comes from the wall clock, as RFC 3164 stamps carry no
//! year.

use vstd::prelude::*;
use crate::chunk::now_millis;
use crate::event::SyslogMessage;
use crate::protocol::ParseError;
use crate::protocol::not_space_p;
use crate::protocol::parse_pri;
use crate::protocol::parse_pri_spec;
use crate::protocol::run_while;
use crate::protocol::scan_non_space;
use crate::protocol::scan_space_tab;
use crate::protocol::space_tab_p;
use vstd::string::*;

verus! {

/// What the RFC 3164 grammar yields: the priority, the hostname, and
/// the message body.  Four space-separated fields follow the priority
/// tag — timestamp month, day and time, then the hostname — each
/// ending in at least one space or tab.
pub open spec fn parse3164_spec(s: Seq<char>) -> Option<(u8, Seq<char>, Seq<char>)> {
    match parse_pri_spec(s) {
        None => None,
        Some(pv) => {
            let p = pv.1;
            let m_end = p + run_while(s, p, not_space_p());
            let w1 = run_while(s, m_end, space_tab_p()) as int;
            if w1 == 0 {
                None
            } else {
                let d_end = m_end + w1 + run_while(s, m_end + w1, not_space_p());
                let w2 = run_while(s, d_end, space_tab_p()) as int;
                if w2 == 0 {
                    None
                } else {
                    let t_end = d_end + w2 + run_while(s, d_end + w2, not_space_p());
                    let w3 = run_while(s, t_end, space_tab_p()) as int;
                    if w3 == 0 {
                        None
                    } else {
                        let h_start = t_end + w3;
                        let h_end = h_start + run_while(s, h_start, not_space_p());
                        let w4 = run_while(s, h_end, space_tab_p()) as int;
                        if w4 == 0 {
                            None
                        } else {
                            Some((pv.0, s.subrange(h_start, h_end), s.skip(h_end + w4)))
                        }
                    }
                }
            }
        },
    }
}

/// The parse result is exactly what the grammar says: rejected lines
/// give the malformed error, accepted lines give every field — the
/// timestamp alone comes from the clock and is only known present.
pub open spec fn parse_matches_3164(s: Seq<char>, r: Result<SyslogMessage, ParseError>) -> bool {
    match parse3164_spec(s) {
        None => r == Result::<SyslogMessage, ParseError>::Err(ParseError::Malformed),
        Some(t) => {
            &&& r is Ok
            &&& ({
                let m = r->Ok_0@;
                &&& m.priority == t.0
                &&& m.facility == t.0 >> 3
                &&& m.severity == t.0 & 7
                &&& m.timestamp is Some
                &&& m.hostname == Some(t.1)
                &&& m.app_name is None
                &&& m.procid is None
                &&& m.msgid is None
                &&& m.structured_data is None
                &&& m.message == t.2
                &&& m.is_rfc5424 == false
            })
        },
    }
}

pub struct RFC3164Parser;

impl RFC3164Parser {
    /// Parses one RFC 3164 line.
    pub fn parse(input: &str) -> (r: Result<SyslogMessage, ParseError>)
        ensures
            parse_matches_3164(input@, r),
    {
        let n = input.unicode_len();
        let (pri, p) = match parse_pri(input) {
            Some(v) => v,
            None => {
                return Err(ParseError::Malformed);
            },
        };
        let m_end = scan_non_space(input, p);
        let s1 = scan_space_tab(input, m_end);
        if s1 == m_end {
            return Err(ParseError::Malformed);
        }
        let d_end = scan_non_space(input, s1);
        let s2 = scan_space_tab(input, d_end);
        if s2 == d_end {
            return Err(ParseError::Malformed);
        }
        let t_end = scan_non_space(input, s2);
        let s3 = scan_space_tab(input, t_end);
        if s3 == t_end {
            return Err(ParseError::Malformed);
        }
        let h_end = scan_non_space(input, s3);
        let s4 = scan_space_tab(input, h_end);
        if s4 == h_end {
            return Err(ParseError::Malformed);
        }
        let hostname = input.substring_char(s3, h_end).to_owned();
        let message = input.substring_char(s4, n).to_owned();
        proof {
            assert(message@ =~= input@.skip(s4 as int));
        }
        let ts = now_millis();
        Ok(
            SyslogMessage {
                priority: pri,
                facility: pri >> 3,
                severity: pri & 7,
                timestamp: Some(ts),
                hostname: Some(hostname),
                app_name: None,
                procid: None,
                msgid: None,
                structured_data: None,
                message,
                is_rfc5424: false,
            },
        )
    }
}

} // verus!
