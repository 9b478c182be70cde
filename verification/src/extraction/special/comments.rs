//! PDF comments: from `%` to the end of the line.
use vstd::prelude::*;

use crate::extraction::bytes::{lemma_bytes_deep_view, lemma_span, lemma_span_bounds, skip_spaces, space_pred, space_run, span};
use crate::extraction::{Extract, ParseError, PResult, SpecResult, matches_spec};

verus! {

broadcast use lemma_bytes_deep_view;

/// PDF comment. The content starts after the leading `%` and its following
/// spaces and tabs, and stops before the end of the line.
#[derive(Debug, PartialEq, Eq, Clone)]
pub struct Comment(pub Vec<u8>);

impl DeepView for Comment {
    type V = Seq<u8>;

    open spec fn deep_view(&self) -> Seq<u8> {
        self.0@
    }
}

pub open spec fn blank_pred() -> spec_fn(u8) -> bool {
    |b: u8| b == 0x20 || b == 0x09
}

pub open spec fn not_eol_pred() -> spec_fn(u8) -> bool {
    |b: u8| b != 0x0d && b != 0x0a
}

/// Where a comment whose body starts at `t` ends, and where its content
/// (before the line ending) ends: `Some((content_end, end))`, or `None` when
/// there is no proper line ending (`\n` or `\r\n`).
pub open spec fn comment_line_end(s: Seq<u8>, t: int) -> Option<(int, int)> {
    let e = t + span(s.skip(t), not_eol_pred());
    if e >= s.len() {
        None
    } else if s[e] == 0x0a {
        Some((e, e + 1))
    } else if e + 1 < s.len() && s[e + 1] == 0x0a {
        Some((e, e + 2))
    } else {
        None
    }
}

pub open spec fn spec_comment(s: Seq<u8>) -> SpecResult<Seq<u8>> {
    if s.len() == 0 || s[0] != 0x25 {
        Err(ParseError::Backtrack)
    } else {
        let t: int = (1 + span(s.drop_first(), blank_pred())) as int;
        match comment_line_end(s, t) {
            Some((ce, e)) => Ok((s.subrange(t, ce), e as nat)),
            None => Err(ParseError::Backtrack),
        }
    }
}

/// A comment is the text of its line after `%` and the spaces and tabs
/// that follow it, up to the line ending, `\n` or `\r\n`; it spans the
/// line ending too, whatever comes after.
pub proof fn lemma_comment_line(blanks: Seq<u8>, c: Seq<u8>, crlf: bool, tail: Seq<u8>)
    requires
        forall|k: int| 0 <= k < blanks.len() ==> #[trigger] blanks[k] == 0x20 || blanks[k] == 0x09,
        forall|k: int| 0 <= k < c.len() ==> #[trigger] c[k] != 0x0d && c[k] != 0x0a,
        c.len() == 0 || (c[0] != 0x20 && c[0] != 0x09),
    ensures
        spec_comment(
            seq![0x25u8] + blanks + c + (if crlf { seq![0x0du8, 0x0au8] } else { seq![0x0au8] }) + tail,
        ) == Ok::<(Seq<u8>, nat), ParseError>(
            (c, 1 + blanks.len() + c.len() + if crlf { 2nat } else { 1nat }),
        ),
{
    let eol: Seq<u8> = if crlf { seq![0x0du8, 0x0au8] } else { seq![0x0au8] };
    let s = seq![0x25u8] + blanks + c + eol + tail;
    let b = blanks.len() as int;
    let n = c.len() as int;
    let d = s.drop_first();
    assert forall|k: int| 0 <= k < b implies blank_pred()(#[trigger] d[k]) by {
        assert(d[k] == blanks[k]);
    }
    assert(d[b] == if n > 0 { c[0] } else { eol[0] });
    lemma_span(d, blank_pred(), b as nat);
    let t = 1 + b;
    let r = s.skip(t);
    assert forall|k: int| 0 <= k < n implies not_eol_pred()(#[trigger] r[k]) by {
        assert(r[k] == c[k]);
    }
    assert(r[n] == eol[0]);
    lemma_span(r, not_eol_pred(), n as nat);
    assert(s[t + n] == eol[0]);
    if crlf {
        assert(s[t + n + 1] == 0x0au8);
    }
    assert(s.subrange(t, t + n) =~= c);
}

/// A comment recognised whole, `%` and line ending included.
pub open spec fn spec_recognize_comment(s: Seq<u8>) -> SpecResult<Seq<u8>> {
    if s.len() == 0 || s[0] != 0x25 {
        Err(ParseError::Backtrack)
    } else {
        match comment_line_end(s, 1) {
            Some((_, e)) => Ok((s.take(e), e as nat)),
            None => Err(ParseError::Backtrack),
        }
    }
}

fn run_byte(b: u8, blank: bool) -> (r: bool)
    ensures
        r == (if blank { blank_pred() } else { not_eol_pred() })(b),
{
    if blank {
        b == 0x20 || b == 0x09
    } else {
        b != 0x0d && b != 0x0a
    }
}

/// End of the run of bytes of `input` from `pos` satisfying `blank` (spaces
/// and tabs) or not being an end-of-line byte.
fn run_end(input: &[u8], pos: usize, blank: bool) -> (r: usize)
    requires
        pos <= input@.len(),
    ensures
        r == pos + span(input@.skip(pos as int), if blank { blank_pred() } else { not_eol_pred() }),
        r <= input@.len(),
{
    let ghost p = if blank { blank_pred() } else { not_eol_pred() };
    let mut i = pos;
    while i < input.len() && run_byte(input[i], blank)
        invariant
            pos <= i <= input@.len(),
            p == (if blank { blank_pred() } else { not_eol_pred() }),
            forall|k: int| pos <= k < i ==> p(#[trigger] input@[k]),
        decreases input@.len() - i,
    {
        i = i + 1;
    }
    proof {
        let s = input@.skip(pos as int);
        assert forall|k: int| 0 <= k < i - pos implies p(#[trigger] s[k]) by {
            assert(s[k] == input@[pos + k]);
        }
        if i < input@.len() {
            assert(s[i - pos] == input@[i as int]);
        }
        lemma_span(s, p, (i - pos) as nat);
    }
    i
}

/// Exec counterpart of [`comment_line_end`].
fn line_end(input: &[u8], t: usize) -> (r: Option<(usize, usize)>)
    requires
        t <= input@.len(),
    ensures
        match r {
            Some((ce, e)) => comment_line_end(input@, t as int) == Some((ce as int, e as int)) && e
                <= input@.len(),
            None => comment_line_end(input@, t as int) is None,
        },
{
    let e = run_end(input, t, false);
    if e >= input.len() {
        None
    } else if input[e] == 0x0a {
        Some((e, e + 1))
    } else if e + 1 < input.len() && input[e + 1] == 0x0a {
        Some((e, e + 2))
    } else {
        None
    }
}

impl Extract for Comment {
    open spec fn spec_extract(s: Seq<u8>) -> SpecResult<Seq<u8>> {
        spec_comment(s)
    }

    fn extract(input: &[u8]) -> (r: PResult<Self>) {
        if input.len() == 0 || input[0] != 0x25 {
            return Err(ParseError::Backtrack);
        }
        let t = run_end(input, 1, true);
        assert(input@.skip(1) =~= input@.drop_first());
        match line_end(input, t) {
            Some((ce, e)) => {
                proof {
                    lemma_span_bounds(input@.skip(t as int), not_eol_pred());
                }
                let content = &input[t..ce];
                Ok((Comment(vstd::slice::slice_to_vec(content)), e))
            },
            None => Err(ParseError::Backtrack),
        }
    }
}

/// A comment is extracted exactly where it is recognised: both succeed on
/// the same inputs and consume the same bytes.
pub proof fn lemma_comment_recognize_extract(s: Seq<u8>)
    ensures
        (spec_comment(s) is Ok) == (spec_recognize_comment(s) is Ok),
        spec_comment(s) matches Ok((_, n)) ==> (spec_recognize_comment(s) matches Ok((_, m)) && m == n),
{
    if s.len() > 0 && s[0] == 0x25 {
        let d = s.drop_first();
        let b = span(d, blank_pred());
        let t: int = 1 + b as int;
        lemma_span_bounds(d, blank_pred());
        assert(s.skip(1) =~= d);
        assert(t <= s.len());
        let m = span(s.skip(t), not_eol_pred());
        lemma_span_bounds(s.skip(t), not_eol_pred());
        assert forall|k: int| 0 <= k < b + m implies not_eol_pred()(#[trigger] d[k]) by {
            if k < b {
                assert(blank_pred()(d[k]));
            } else {
                assert(d[k] == s.skip(t)[k - b]);
            }
        }
        if b + m < d.len() {
            assert(d[(b + m) as int] == s.skip(t)[m as int]);
        }
        lemma_span(d, not_eol_pred(), (b + m) as nat);
        assert(comment_line_end(s, 1).is_some() == comment_line_end(s, t).is_some());
    }
}

impl Comment {
    /// Recognise a comment, returning the bytes it spans.
    pub fn recognize(input: &[u8]) -> (r: PResult<Vec<u8>>)
        ensures
            matches_spec(r, input@, spec_recognize_comment(input@)),
    {
        if input.len() == 0 || input[0] != 0x25 {
            return Err(ParseError::Backtrack);
        }
        match line_end(input, 1) {
            Some((_, e)) => {
                let taken = &input[0..e];
                assert(taken@ =~= input@.take(e as int));
                Ok((vstd::slice::slice_to_vec(taken), e))
            },
            None => Err(ParseError::Backtrack),
        }
    }
}

/// Number of bytes of comments and whitespace at the front of `s`.
pub open spec fn comment_space_run(s: Seq<u8>) -> nat
    decreases s.len(),
{
    match spec_recognize_comment(s) {
        Ok((_, n)) => if 0 < n <= s.len() {
            n + comment_space_run(s.skip(n as int))
        } else {
            0
        },
        Err(_) => {
            let w = space_run(s);
            proof {
                lemma_span_bounds(s, space_pred());
            }
            if w > 0 {
                w + comment_space_run(s.skip(w as int))
            } else {
                0
            }
        },
    }
}

/// Zero or more comments or whitespace runs; returns the bytes consumed.
pub open spec fn spec_multicomment0(s: Seq<u8>) -> SpecResult<Seq<u8>> {
    Ok((s.take(comment_space_run(s) as int), comment_space_run(s)))
}

/// At least one comment or whitespace run.
pub open spec fn spec_multicomment1(s: Seq<u8>) -> SpecResult<Seq<u8>> {
    if comment_space_run(s) == 0 {
        Err(ParseError::Backtrack)
    } else {
        spec_multicomment0(s)
    }
}

/// Length of the comments and whitespace at the front of `input`.
fn comment_space_end(input: &[u8]) -> (r: usize)
    ensures
        r == comment_space_run(input@),
        r <= input@.len(),
{
    let mut cur: usize = 0;
    proof {
        assert(input@.skip(0) =~= input@);
    }
    while cur < input.len()
        invariant
            cur <= input@.len(),
            comment_space_run(input@) == cur + comment_space_run(input@.skip(cur as int)),
        decreases input@.len() - cur,
    {
        let ghost s = input@.skip(cur as int);
        let here = crate::extraction::bytes::rest_of(input, cur);
        match Comment::recognize(here) {
            Ok((_, n)) => {
                proof {
                    assert(s.skip(n as int) =~= input@.skip(cur + n));
                }
                cur = cur + n;
            },
            Err(_) => {
                let w = skip_spaces(input, cur);
                if w == cur {
                    return cur;
                }
                proof {
                    assert(s.skip((w - cur) as int) =~= input@.skip(w as int));
                }
                cur = w;
            },
        }
    }
    proof {
        assert(input@.skip(cur as int).len() == 0);
    }
    cur
}

/// Parses 0 or more comment/multispace.
pub fn multicomment0(input: &[u8]) -> (r: PResult<Vec<u8>>)
    ensures
        matches_spec(r, input@, spec_multicomment0(input@)),
{
    let n = comment_space_end(input);
    let taken = &input[0..n];
    assert(taken@ =~= input@.take(n as int));
    Ok((vstd::slice::slice_to_vec(taken), n))
}

/// Parses at least one comment/multispace.
pub fn multicomment1(input: &[u8]) -> (r: PResult<Vec<u8>>)
    ensures
        matches_spec(r, input@, spec_multicomment1(input@)),
{
    let n = comment_space_end(input);
    if n == 0 {
        return Err(ParseError::Backtrack);
    }
    let taken = &input[0..n];
    assert(taken@ =~= input@.take(n as int));
    Ok((vstd::slice::slice_to_vec(taken), n))
}

} // verus!
