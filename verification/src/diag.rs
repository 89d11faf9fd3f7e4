use vstd::prelude::*;
use vstd::string::StringSliceAdditionalSpecFns;
use vstd::string::StrSliceExecFns;
use vstd::utf8::*;

use crate::strutil::{dec_nat, u64_string, utf8_string};

verus! {

/// One diagnostic from the typesetter: a message, and the byte range of the
/// offending source where the diagnostic carries one.
pub struct Diag {
    pub message: String,
    pub range: Option<(usize, usize)>,
}

/// The number of newline bytes in `s`.
pub open spec fn nl_count(s: Seq<u8>) -> int
    decreases s,
{
    if s.len() == 0 {
        0
    } else {
        nl_count(s.drop_last()) + if s.last() == 0x0a {
            1int
        } else {
            0int
        }
    }
}

/// The range start clamped into the body.
pub open spec fn pos_clamped(body: Seq<u8>, start: int) -> int {
    if start <= body.len() {
        start
    } else {
        body.len() as int
    }
}

/// The position right after the newline before `p` (or the body's start).
pub open spec fn line_start(body: Seq<u8>, p: int) -> int
    decreases p,
{
    if p <= 0 {
        0
    } else if body[p - 1] == 0x0a {
        p
    } else {
        line_start(body, p - 1)
    }
}

/// The position of the newline at or after `p` (or the body's end).
pub open spec fn line_end(body: Seq<u8>, p: int) -> int
    decreases body.len() - p,
{
    if p >= body.len() {
        body.len() as int
    } else if body[p] == 0x0a {
        p
    } else {
        line_end(body, p + 1)
    }
}

/// The rendering of one diagnostic: the bare message when it carries no
/// source range; otherwise the message prefixed with a 1-based line number —
/// one more than the newline bytes before the range start — and followed by
/// the text of the line holding the range start, when that text decodes.
pub open spec fn block_spec(body: Seq<u8>, d: Diag) -> Seq<char> {
    match d.range {
        Option::None => d.message@,
        Option::Some((start, end)) => {
            let p = pos_clamped(body, start as int);
            let lno = 1 + nl_count(body.take(p));
            let lineb = body.subrange(line_start(body, p), line_end(body, p));
            "Typst error on line "@ + dec_nat(lno) + ": "@ + d.message@ + (if valid_utf8(lineb) {
                "\n"@ + decode_utf8(lineb)
            } else {
                Seq::empty()
            })
        },
    }
}

pub open spec fn render_fold(body: Seq<u8>, diags: Seq<Diag>, acc: Seq<char>, first: bool) -> Seq<
    char,
>
    decreases diags,
{
    if diags.len() == 0 {
        acc
    } else {
        render_fold(
            body,
            diags.drop_first(),
            acc + (if first {
                Seq::empty()
            } else {
                "\n"@
            }) + block_spec(body, diags[0]),
            false,
        )
    }
}

/// The rendering of a diagnostic list: the diagnostics' blocks joined with
/// newlines.
pub open spec fn render_spec(body: Seq<u8>, diags: Seq<Diag>) -> Seq<char> {
    render_fold(body, diags, Seq::empty(), true)
}

/// The 1-based line number of byte position `start` in `body`: one more than
/// the count of newline bytes before it.
#[verifier::loop_isolation(false)]
pub fn line_number_at(body: &Vec<u8>, start: usize) -> (n: usize)
    requires
        body@.len() < usize::MAX,
    ensures
        n as int == 1 + nl_count(body@.take(pos_clamped(body@, start as int))),
{
    let p = if start <= body.len() {
        start
    } else {
        body.len()
    };
    let mut cnt: usize = 0;
    let mut i: usize = 0;
    proof {
        assert(body@.take(0) =~= Seq::empty());
    }
    while i < p
        invariant
            0 <= i <= p <= body@.len(),
            cnt <= i,
            cnt as int == nl_count(body@.take(i as int)),
        decreases p - i,
    {
        proof {
            assert(body@.take(i + 1).drop_last() =~= body@.take(i as int));
            assert(body@.take(i + 1).last() == body@[i as int]);
        }
        if body[i] == 0x0a {
            cnt = cnt + 1;
        }
        i = i + 1;
    }
    cnt + 1
}

/// The bytes of the line holding position `start`: from just after the
/// previous newline up to the next one.
#[verifier::loop_isolation(false)]
fn line_bytes(body: &Vec<u8>, start: usize) -> (r: Vec<u8>)
    ensures
        r@ == body@.subrange(
            line_start(body@, pos_clamped(body@, start as int)),
            line_end(body@, pos_clamped(body@, start as int)),
        ),
{
    let p = if start <= body.len() {
        start
    } else {
        body.len()
    };
    let mut lo: usize = p;
    while lo > 0 && body[lo - 1] != 0x0a
        invariant
            0 <= lo <= p,
            line_start(body@, p as int) == line_start(body@, lo as int),
        decreases lo,
    {
        lo = lo - 1;
    }
    let mut hi: usize = p;
    while hi < body.len() && body[hi] != 0x0a
        invariant
            p <= hi <= body@.len(),
            line_end(body@, p as int) == line_end(body@, hi as int),
        decreases body@.len() - hi,
    {
        hi = hi + 1;
    }
    assert(lo as int == line_start(body@, p as int));
    assert(hi as int == line_end(body@, p as int));
    let mut out: Vec<u8> = Vec::new();
    let mut i: usize = lo;
    proof {
        assert(out@ =~= body@.subrange(lo as int, lo as int));
    }
    while i < hi
        invariant
            lo <= i <= hi <= body@.len(),
            out@ == body@.subrange(lo as int, i as int),
        decreases hi - i,
    {
        out.push(body[i]);
        proof {
            assert(out@ =~= body@.subrange(lo as int, i + 1));
        }
        i = i + 1;
    }
    out
}

/// Renders a diagnostic list against the document body, as `render_spec`
/// says: blocks joined by newlines, each block the diagnostic's message, with
/// the line number and the source line added when the diagnostic carries a
/// range.
#[verifier::loop_isolation(false)]
pub fn get_error_message(body: &str, errors: &Vec<Diag>) -> (r: String)
    requires
        body.spec_bytes().len() < usize::MAX,
    ensures
        r@ == render_spec(encode_utf8(body@), errors@),
{
    let bytes = body.as_bytes_vec();
    let ghost bm = encode_utf8(body@);
    let mut out = String::new();
    let mut first = true;
    let n = errors.len();
    let mut i: usize = 0;
    proof {
        assert(errors@.skip(0) =~= errors@);
    }
    while i < n
        invariant
            0 <= i <= n,
            bytes@ == bm,
            render_fold(bm, errors@.skip(i as int), out@, first) == render_spec(bm, errors@),
        decreases n - i,
    {
        proof {
            assert(errors@.skip(i as int)[0] == errors@[i as int]);
            assert(errors@.skip(i as int).drop_first() =~= errors@.skip(i as int + 1));
        }
        let ghost pre = out@;
        let ghost was_first = first;
        if first {
            first = false;
        } else {
            out.append("\n");
        }
        let d = &errors[i];
        match d.range {
            None => {
                out.append(d.message.as_str());
            },
            Some((start, _end)) => {
                let lno = line_number_at(&bytes, start);
                let num = u64_string(lno as u64);
                out.append("Typst error on line ");
                out.append(num.as_str());
                out.append(": ");
                out.append(d.message.as_str());
                let lineb = line_bytes(&bytes, start);
                match utf8_string(&lineb) {
                    Some(t) => {
                        out.append("\n");
                        out.append(t.as_str());
                    },
                    None => {
                    },
                }
            },
        }
        proof {
            assert(out@ =~= pre + (if was_first {
                Seq::<char>::empty()
            } else {
                "\n"@
            }) + block_spec(bm, errors@[i as int]));
        }
        i = i + 1;
    }
    proof {
        assert(errors@.skip(n as int) =~= Seq::empty());
    }
    out
}

} // verus!
