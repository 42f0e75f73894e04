//! The syslog line grammar shared by both framings: priority tag,
//! whitespace runs, digit runs, and the format heuristic that picks
//! RFC 5424 or RFC 3164.

use vstd::prelude::*;
use crate::event::SyslogMessage;
use crate::text::is_ws_char;
use crate::text::ws_char;
use vstd::string::*;

verus! {

/// Why a line was rejected.
#[derive(Debug, PartialEq, Eq)]
pub enum ParseError {
    /// The input was empty after trimming.
    Empty,
    /// The line does not match the framing's grammar.
    Malformed,
}

/// An ASCII decimal digit.
pub open spec fn is_digit_char(c: char) -> bool {
    48 <= c as int <= 57
}

/// Length of the run of characters satisfying `p` starting at `i`.
pub open spec fn run_while(s: Seq<char>, i: int, p: spec_fn(char) -> bool) -> nat
    decreases s.len() - i,
{
    if i < 0 || i >= s.len() || !p(s[i]) {
        0
    } else {
        1 + run_while(s, i + 1, p)
    }
}

/// The run is exactly `j - from` when `p` holds up to `j` and stops
/// there.
pub proof fn lemma_run_while_is(s: Seq<char>, from: int, j: int, p: spec_fn(char) -> bool)
    requires
        0 <= from <= j <= s.len(),
        forall|k: int| from <= k < j ==> p(#[trigger] s[k]),
        j == s.len() || !p(s[j]),
    ensures
        run_while(s, from, p) == j - from,
    decreases j - from,
{
    if from < j {
        lemma_run_while_is(s, from + 1, j, p);
    }
}

/// Not a plain space: how fields are cut in both framings.
pub open spec fn not_space_p() -> spec_fn(char) -> bool {
    |c: char| c != ' '
}

/// Space or horizontal tab: what separates header fields.
pub open spec fn space_tab_p() -> spec_fn(char) -> bool {
    |c: char| c == ' ' || c == '\t'
}

/// A decimal digit.
pub open spec fn digit_p() -> spec_fn(char) -> bool {
    |c: char| is_digit_char(c)
}

/// Not whitespace.
pub open spec fn not_ws_p() -> spec_fn(char) -> bool {
    |c: char| !is_ws_char(c)
}

/// Scans past the run of non-space characters starting at `from`.
pub fn scan_non_space(s: &str, from: usize) -> (j: usize)
    requires
        from <= s@.len(),
    ensures
        from <= j <= s@.len(),
        j - from == run_while(s@, from as int, not_space_p()),
        forall|k: int| from <= k < j ==> not_space_p()(#[trigger] s@[k]),
        j as int == s@.len() || !not_space_p()(s@[j as int]),
{
    let n = s.unicode_len();
    let mut j = from;
    while j < n && !(s.get_char(j) == ' ')
        invariant
            from <= j <= n,
            n == s@.len(),
            forall|k: int| from <= k < j ==> not_space_p()(#[trigger] s@[k]),
        decreases n - j,
    {
        j = j + 1;
    }
    proof {
        lemma_run_while_is(s@, from as int, j as int, not_space_p());
    }
    j
}

/// Scans past the run of spaces and tabs starting at `from`.
pub fn scan_space_tab(s: &str, from: usize) -> (j: usize)
    requires
        from <= s@.len(),
    ensures
        from <= j <= s@.len(),
        j - from == run_while(s@, from as int, space_tab_p()),
        forall|k: int| from <= k < j ==> space_tab_p()(#[trigger] s@[k]),
        j as int == s@.len() || !space_tab_p()(s@[j as int]),
{
    let n = s.unicode_len();
    let mut j = from;
    while j < n && (s.get_char(j) == ' ' || s.get_char(j) == '\t')
        invariant
            from <= j <= n,
            n == s@.len(),
            forall|k: int| from <= k < j ==> space_tab_p()(#[trigger] s@[k]),
        decreases n - j,
    {
        j = j + 1;
    }
    proof {
        lemma_run_while_is(s@, from as int, j as int, space_tab_p());
    }
    j
}

/// Scans past the run of decimal digits starting at `from`.
pub fn scan_digits(s: &str, from: usize) -> (j: usize)
    requires
        from <= s@.len(),
    ensures
        from <= j <= s@.len(),
        j - from == run_while(s@, from as int, digit_p()),
        forall|k: int| from <= k < j ==> digit_p()(#[trigger] s@[k]),
        j as int == s@.len() || !digit_p()(s@[j as int]),
{
    let n = s.unicode_len();
    let mut j = from;
    while j < n && s.get_char(j) as u32 >= 48 && s.get_char(j) as u32 <= 57
        invariant
            from <= j <= n,
            n == s@.len(),
            forall|k: int| from <= k < j ==> digit_p()(#[trigger] s@[k]),
        decreases n - j,
    {
        j = j + 1;
    }
    proof {
        lemma_run_while_is(s@, from as int, j as int, digit_p());
    }
    j
}

/// Scans past the run of non-whitespace characters starting at `from`.
pub fn scan_non_ws(s: &str, from: usize) -> (j: usize)
    requires
        from <= s@.len(),
    ensures
        from <= j <= s@.len(),
        j - from == run_while(s@, from as int, not_ws_p()),
        forall|k: int| from <= k < j ==> not_ws_p()(#[trigger] s@[k]),
        j as int == s@.len() || !not_ws_p()(s@[j as int]),
{
    let n = s.unicode_len();
    let mut j = from;
    while j < n && !ws_char(s.get_char(j))
        invariant
            from <= j <= n,
            n == s@.len(),
            forall|k: int| from <= k < j ==> not_ws_p()(#[trigger] s@[k]),
        decreases n - j,
    {
        j = j + 1;
    }
    proof {
        lemma_run_while_is(s@, from as int, j as int, not_ws_p());
    }
    j
}

/// The value of a digit string.
pub open spec fn digits_val(s: Seq<char>) -> int
    decreases s.len(),
{
    if s.len() == 0 {
        0
    } else {
        digits_val(s.drop_last()) * 10 + (s.last() as int - 48)
    }
}

/// The priority tag `<NNN>`: its value and how many characters it
/// spans.  Absent or out of range for `u8`, the line is rejected.
pub open spec fn parse_pri_spec(s: Seq<char>) -> Option<(u8, int)> {
    if s.len() >= 1 && s[0] == '<' {
        let k = run_while(s, 1, digit_p()) as int;
        if k >= 1 && 1 + k < s.len() && s[1 + k] == '>' && digits_val(s.subrange(1, 1 + k)) <= 255 {
            Some((digits_val(s.subrange(1, 1 + k)) as u8, k + 2))
        } else {
            None
        }
    } else {
        None
    }
}

/// Parses the priority tag, returning the value and the index just
/// past the closing `>`.
pub fn parse_pri(s: &str) -> (r: Option<(u8, usize)>)
    ensures
        r is Some <==> parse_pri_spec(s@) is Some,
        r is Some ==> ({
            let v = r->0;
            parse_pri_spec(s@) == Some((v.0, v.1 as int))
        }),
{
    let n = s.unicode_len();
    if n == 0 || !(s.get_char(0) == '<') {
        return None;
    }
    let j = scan_digits(s, 1);
    if j == 1 {
        return None;
    }
    if j >= n || !(s.get_char(j) == '>') {
        return None;
    }
    // accumulate the value, saturating above the u8 range
    let ghost ds = s@.subrange(1, j as int);
    let mut val: u32 = 0;
    let mut i: usize = 1;
    while i < j
        invariant
            1 <= i <= j,
            j <= n,
            n == s@.len(),
            ds == s@.subrange(1, j as int),
            forall|k: int| 1 <= k < j ==> digit_p()(#[trigger] s@[k]),
            val <= 2559,
            (val <= 255 && val == digits_val(s@.subrange(1, i as int))) || (val > 255
                && digits_val(s@.subrange(1, i as int)) > 255),
        decreases j - i,
    {
        let c = s.get_char(i) as u32;
        proof {
            assert(digit_p()(s@[i as int]));
            assert(48 <= c <= 57);
            let pre = s@.subrange(1, i as int);
            let cur = s@.subrange(1, i + 1);
            assert(cur.drop_last() =~= pre);
            assert(cur.last() == s@[i as int]);
        }
        if val > 255 {
            val = 256;
        } else {
            val = val * 10 + (c - 48);
        }
        i = i + 1;
    }
    if val > 255 {
        return None;
    }
    Some((val as u8, j + 1))
}

/// A line is read as RFC 5424 when the character after the first `>`
/// is a decimal digit.
pub open spec fn looks_5424(s: Seq<char>) -> bool {
    let g = run_while(s, 0, (|c: char| c != '>')) as int;
    g + 1 < s.len() && is_digit_char(s[g + 1])
}

/// Applies the RFC 5424 heuristic.
pub fn is_5424_shaped(s: &str) -> (r: bool)
    ensures
        r == looks_5424(s@),
{
    let n = s.unicode_len();
    let mut g: usize = 0;
    while g < n && !(s.get_char(g) == '>')
        invariant
            g <= n,
            n == s@.len(),
            forall|k: int| 0 <= k < g ==> (|c: char| c != '>')(#[trigger] s@[k]),
        decreases n - g,
    {
        g = g + 1;
    }
    proof {
        lemma_run_while_is(s@, 0, g as int, (|c: char| c != '>'));
    }
    if n - g >= 2 {
        let v = s.get_char(g + 1) as u32;
        48 <= v && v <= 57
    } else {
        false
    }
}

/// Length of the trailing whitespace run.
pub open spec fn back_ws(s: Seq<char>) -> nat
    decreases s.len(),
{
    if s.len() == 0 || !is_ws_char(s.last()) {
        0
    } else {
        1 + back_ws(s.drop_last())
    }
}

proof fn lemma_back_ws_is(s: Seq<char>, j: int)
    requires
        0 <= j <= s.len(),
        forall|k: int| j <= k < s.len() ==> is_ws_char(#[trigger] s[k]),
        j == 0 || !is_ws_char(s[j - 1]),
    ensures
        back_ws(s) == s.len() - j,
    decreases s.len() - j,
{
    if j < s.len() {
        lemma_back_ws_is(s.drop_last(), j);
    }
}

/// The input with leading and trailing whitespace removed.
pub open spec fn trim_spec(s: Seq<char>) -> Seq<char> {
    let a = run_while(s, 0, (|c: char| is_ws_char(c))) as int;
    if a == s.len() {
        Seq::empty()
    } else {
        s.subrange(a, s.len() - back_ws(s))
    }
}

/// Trims whitespace from both ends.
pub fn trim_str(s: &str) -> (r: String)
    ensures
        r@ == trim_spec(s@),
{
    let n = s.unicode_len();
    let mut i: usize = 0;
    while i < n && ws_char(s.get_char(i))
        invariant
            i <= n,
            n == s@.len(),
            forall|k: int| 0 <= k < i ==> (|c: char| is_ws_char(c))(#[trigger] s@[k]),
        decreases n - i,
    {
        i = i + 1;
    }
    proof {
        lemma_run_while_is(s@, 0, i as int, (|c: char| is_ws_char(c)));
    }
    if i == n {
        let r = String::new();
        proof {
            assert(r@ =~= trim_spec(s@));
        }
        return r;
    }
    let mut j = n;
    while j > i && ws_char(s.get_char(j - 1))
        invariant
            i <= j <= n,
            n == s@.len(),
            forall|k: int| j <= k < n ==> is_ws_char(#[trigger] s@[k]),
        decreases j,
    {
        j = j - 1;
    }
    proof {
        assert(!is_ws_char(s@[i as int]));
        assert(j > i);
        assert(j == 0 || !is_ws_char(s@[j - 1]));
        lemma_back_ws_is(s@, j as int);
    }
    s.substring_char(i, j).to_owned()
}

/// Picks the framing by the heuristic and dispatches; empty input is
/// rejected.  The result is exactly what the chosen framing's grammar
/// yields on the trimmed line.
pub struct UnifiedParser;

impl UnifiedParser {
    pub fn parse(input: &str) -> (r: Result<SyslogMessage, ParseError>)
        ensures
            ({
                let t = trim_spec(input@);
                &&& (t.len() == 0 ==> r == Result::<SyslogMessage, ParseError>::Err(
                    ParseError::Empty,
                ))
                &&& (t.len() > 0 && looks_5424(t) ==> crate::rfc5424::parse_matches_5424(t, r))
                &&& (t.len() > 0 && !looks_5424(t) ==> crate::rfc3164::parse_matches_3164(t, r))
            }),
    {
        let trimmed = trim_str(input);
        if trimmed.as_str().is_empty() {
            return Err(ParseError::Empty);
        }
        if is_5424_shaped(trimmed.as_str()) {
            crate::rfc5424::RFC5424Parser::parse(trimmed.as_str())
        } else {
            crate::rfc3164::RFC3164Parser::parse(trimmed.as_str())
        }
    }
}

} // verus!
