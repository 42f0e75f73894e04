//! TCP stream framing: octet counting (a decimal length, a space, then
//! that many bytes) or non-transparent framing (a `<`-led line up to a
//! newline), with empty lines skipped and junk discarded to the next
//! newline.  The transport loop feeds buffered bytes in and performs
//! what the step decides.

use vstd::prelude::*;

verus! {

/// What to do with the front of the buffer.
pub enum FrameStep {
    /// Nothing can be decided yet; read more bytes.
    NeedMore,
    /// A complete message payload, and how many buffer bytes it spans.
    Frame { payload: Vec<u8>, consumed: usize },
    /// Bytes to discard.
    Skip { consumed: usize },
}

/// The mathematical form of a framing decision.
pub enum FrameStepV {
    NeedMore,
    Frame { payload: Seq<u8>, consumed: int },
    Skip { consumed: int },
}

impl View for FrameStep {
    type V = FrameStepV;

    open spec fn view(&self) -> FrameStepV {
        match self {
            FrameStep::NeedMore => FrameStepV::NeedMore,
            FrameStep::Frame { payload, consumed } => FrameStepV::Frame {
                payload: payload@,
                consumed: *consumed as int,
            },
            FrameStep::Skip { consumed } => FrameStepV::Skip { consumed: *consumed as int },
        }
    }
}

/// An ASCII digit byte.
pub open spec fn is_digit_byte(b: u8) -> bool {
    48 <= b <= 57
}

/// Length of the byte run satisfying `p` starting at `i`.
pub open spec fn brun_while(s: Seq<u8>, i: int, p: spec_fn(u8) -> bool) -> nat
    decreases s.len() - i,
{
    if i < 0 || i >= s.len() || !p(s[i]) {
        0
    } else {
        1 + brun_while(s, i + 1, p)
    }
}

pub proof fn lemma_brun_while_is(s: Seq<u8>, from: int, j: int, p: spec_fn(u8) -> bool)
    requires
        0 <= from <= j <= s.len(),
        forall|k: int| from <= k < j ==> p(#[trigger] s[k]),
        j == s.len() || !p(s[j]),
    ensures
        brun_while(s, from, p) == j - from,
    decreases j - from,
{
    if from < j {
        lemma_brun_while_is(s, from + 1, j, p);
    }
}

/// Not a space byte.
pub open spec fn not_space_b() -> spec_fn(u8) -> bool {
    |b: u8| b != 32
}

/// Not a newline byte.
pub open spec fn not_nl_b() -> spec_fn(u8) -> bool {
    |b: u8| b != 10
}

/// The value of a digit byte string.
pub open spec fn bdigits_val(s: Seq<u8>) -> int
    decreases s.len(),
{
    if s.len() == 0 {
        0
    } else {
        bdigits_val(s.drop_last()) * 10 + (s.last() - 48)
    }
}

/// Whether every byte is a digit.
pub open spec fn all_digits(s: Seq<u8>) -> bool {
    forall|k: int| 0 <= k < s.len() ==> is_digit_byte(#[trigger] s[k])
}

/// The framing decision on the buffered bytes.  A leading digit starts
/// an octet count: the length field runs to the first space; a field
/// that is not a number the machine can hold is discarded.  A leading
/// `<` starts a line frame up to and including the newline.  A bare
/// newline or carriage return is skipped; anything else is junk up to
/// and including the next newline.
pub open spec fn frame_spec(s: Seq<u8>) -> FrameStepV {
    if s.len() == 0 {
        FrameStepV::NeedMore
    } else if is_digit_byte(s[0]) {
        let f = brun_while(s, 0, not_space_b()) as int;
        if f == s.len() {
            FrameStepV::NeedMore
        } else {
            let field = s.subrange(0, f);
            if all_digits(field) && bdigits_val(field) <= usize::MAX {
                if f + 1 + bdigits_val(field) <= s.len() {
                    FrameStepV::Frame {
                        payload: s.subrange(f + 1, f + 1 + bdigits_val(field)),
                        consumed: f + 1 + bdigits_val(field),
                    }
                } else {
                    FrameStepV::NeedMore
                }
            } else {
                FrameStepV::Skip { consumed: f + 1 }
            }
        }
    } else if s[0] == 60 {
        let nl = brun_while(s, 0, not_nl_b()) as int;
        if nl == s.len() {
            FrameStepV::NeedMore
        } else {
            FrameStepV::Frame { payload: s.subrange(0, nl + 1), consumed: nl + 1 }
        }
    } else if s[0] == 10 || s[0] == 13 {
        FrameStepV::Skip { consumed: 1 }
    } else {
        let nl = brun_while(s, 0, not_nl_b()) as int;
        if nl == s.len() {
            FrameStepV::NeedMore
        } else {
            FrameStepV::Skip { consumed: nl + 1 }
        }
    }
}

/// Copies a byte range out of the buffer.
fn copy_range(buf: &Vec<u8>, a: usize, b: usize) -> (r: Vec<u8>)
    requires
        a <= b <= buf@.len(),
    ensures
        r@ == buf@.subrange(a as int, b as int),
{
    let mut r: Vec<u8> = Vec::new();
    let mut i = a;
    while i < b
        invariant
            a <= i <= b <= buf@.len(),
            r@ == buf@.subrange(a as int, i as int),
        decreases b - i,
    {
        r.push(buf[i]);
        proof {
            assert(buf@.subrange(a as int, i + 1) =~= buf@.subrange(a as int, i as int).push(
                buf@[i as int],
            ));
        }
        i = i + 1;
    }
    r
}

/// Decides what to do with the front of the buffer.
pub fn next_frame(buf: &Vec<u8>) -> (r: FrameStep)
    ensures
        r@ == frame_spec(buf@),
{
    let n = buf.len();
    if n == 0 {
        return FrameStep::NeedMore;
    }
    let b0 = buf[0];
    if 48 <= b0 && b0 <= 57 {
        // octet counting: length field up to the first space
        let mut f: usize = 0;
        while f < n && buf[f] != 32
            invariant
                f <= n,
                n == buf@.len(),
                forall|k: int| 0 <= k < f ==> not_space_b()(#[trigger] buf@[k]),
            decreases n - f,
        {
            f = f + 1;
        }
        proof {
            lemma_brun_while_is(buf@, 0, f as int, not_space_b());
        }
        if f == n {
            return FrameStep::NeedMore;
        }
        let ghost field = buf@.subrange(0, f as int);
        // parse the length, tracking digit-ness and overflow
        let mut val: usize = 0;
        let mut digits_ok = true;
        let mut fits = true;
        let mut i: usize = 0;
        while i < f
            invariant
                i <= f <= n,
                n == buf@.len(),
                field == buf@.subrange(0, f as int),
                digits_ok <==> all_digits(field.take(i as int)),
                digits_ok && fits ==> val == bdigits_val(field.take(i as int)),
                digits_ok && !fits ==> bdigits_val(field.take(i as int)) > usize::MAX,
            decreases f - i,
        {
            let b = buf[i];
            proof {
                assert(field[i as int] == buf@[i as int]);
                let pre = field.take(i as int);
                let cur = field.take(i + 1);
                assert(cur.drop_last() =~= pre);
                assert(cur.last() == field[i as int]);
            }
            if !(48 <= b && b <= 57) {
                digits_ok = false;
            } else if digits_ok && fits {
                let d = (b - 48) as usize;
                match val.checked_mul(10) {
                    Some(v10) => {
                        match v10.checked_add(d) {
                            Some(v) => {
                                val = v;
                            },
                            None => {
                                fits = false;
                                proof {
                                    vstd::arithmetic::mul::lemma_mul_inequality(
                                        bdigits_val(field.take(i as int)),
                                        bdigits_val(field.take(i as int)),
                                        10,
                                    );
                                }
                            },
                        }
                    },
                    None => {
                        fits = false;
                        proof {
                            assert(val * 10 > usize::MAX);
                            assert(bdigits_val(field.take(i + 1)) >= val * 10);
                        }
                    },
                }
            } else if fits {
                // a non-digit was already seen; the value no longer matters
            } else {
                proof {
                    let pre = field.take(i as int);
                    let cur = field.take(i + 1);
                    if digits_ok {
                        assert(bdigits_val(cur) == bdigits_val(pre) * 10 + (field[i as int] - 48));
                        assert(bdigits_val(pre) * 10 >= bdigits_val(pre)) by (nonlinear_arith)
                            requires
                                bdigits_val(pre) > usize::MAX,
                        ;
                    }
                }
            }
            i = i + 1;
        }
        proof {
            assert(field.take(f as int) =~= field);
        }
        if !(digits_ok && fits) {
            return FrameStep::Skip { consumed: f + 1 };
        }
        // a complete frame needs the field, the space, and `val` bytes
        if n - f - 1 < val {
            return FrameStep::NeedMore;
        }
        let payload = copy_range(buf, f + 1, f + 1 + val);
        FrameStep::Frame { payload, consumed: f + 1 + val }
    } else if b0 == 60 {
        let mut nl: usize = 0;
        while nl < n && buf[nl] != 10
            invariant
                nl <= n,
                n == buf@.len(),
                forall|k: int| 0 <= k < nl ==> not_nl_b()(#[trigger] buf@[k]),
            decreases n - nl,
        {
            nl = nl + 1;
        }
        proof {
            lemma_brun_while_is(buf@, 0, nl as int, not_nl_b());
        }
        if nl == n {
            return FrameStep::NeedMore;
        }
        let payload = copy_range(buf, 0, nl + 1);
        FrameStep::Frame { payload, consumed: nl + 1 }
    } else if b0 == 10 || b0 == 13 {
        FrameStep::Skip { consumed: 1 }
    } else {
        let mut nl: usize = 0;
        while nl < n && buf[nl] != 10
            invariant
                nl <= n,
                n == buf@.len(),
                forall|k: int| 0 <= k < nl ==> not_nl_b()(#[trigger] buf@[k]),
            decreases n - nl,
        {
            nl = nl + 1;
        }
        proof {
            lemma_brun_while_is(buf@, 0, nl as int, not_nl_b());
        }
        if nl == n {
            return FrameStep::NeedMore;
        }
        FrameStep::Skip { consumed: nl + 1 }
    }
}

} // verus!
