//! Byte-level building blocks shared by the parsers: whitespace runs, spans
//! of bytes satisfying a predicate and fixed tags.
use vstd::prelude::*;

verus! {

/// The deep view of a byte vector is its plain view.
pub broadcast proof fn lemma_bytes_deep_view(v: Vec<u8>)
    ensures
        #[trigger] v.deep_view() == v@,
{
    assert(v.deep_view() =~= v@);
}

/// PDF whitespace as recognised by the extraction layer: space, tab, CR, LF.
pub open spec fn is_space(b: u8) -> bool {
    b == 0x20 || b == 0x09 || b == 0x0d || b == 0x0a
}

pub open spec fn is_digit(b: u8) -> bool {
    0x30 <= b <= 0x39
}

/// Length of the longest prefix of `s` whose bytes all satisfy `p`.
pub open spec fn span(s: Seq<u8>, p: spec_fn(u8) -> bool) -> nat
    decreases s.len(),
{
    if s.len() == 0 || !p(s[0]) {
        0
    } else {
        1 + span(s.drop_first(), p)
    }
}

/// Characterisation of [`span`]: `n` is the span iff the first `n` bytes
/// satisfy `p` and the next one (if any) does not.
pub proof fn lemma_span(s: Seq<u8>, p: spec_fn(u8) -> bool, n: nat)
    requires
        n <= s.len(),
        forall|k: int| 0 <= k < n ==> p(#[trigger] s[k]),
        n == s.len() || !p(s[n as int]),
    ensures
        span(s, p) == n,
    decreases n,
{
    if n > 0 {
        let t = s.drop_first();
        assert forall|k: int| 0 <= k < n - 1 implies p(#[trigger] t[k]) by {
            assert(t[k] == s[k + 1]);
        }
        if n - 1 < t.len() {
            assert(t[n - 1] == s[n as int]);
        }
        lemma_span(t, p, (n - 1) as nat);
    }
}

/// The span never exceeds the input, and every byte in it satisfies `p`.
pub proof fn lemma_span_bounds(s: Seq<u8>, p: spec_fn(u8) -> bool)
    ensures
        span(s, p) <= s.len(),
        forall|k: int| 0 <= k < span(s, p) ==> p(#[trigger] s[k]),
        span(s, p) == s.len() || !p(s[span(s, p) as int]),
    decreases s.len(),
{
    if s.len() > 0 && p(s[0]) {
        let t = s.drop_first();
        lemma_span_bounds(t, p);
        assert forall|k: int| 0 <= k < span(s, p) implies p(#[trigger] s[k]) by {
            if k > 0 {
                assert(s[k] == t[k - 1]);
            }
        }
        if span(s, p) < s.len() {
            assert(s[span(s, p) as int] == t[span(t, p) as int]);
        }
    }
}

pub open spec fn space_pred() -> spec_fn(u8) -> bool {
    |b: u8| is_space(b)
}

pub open spec fn digit_pred() -> spec_fn(u8) -> bool {
    |b: u8| is_digit(b)
}

/// Number of leading whitespace bytes (what `multispace0` consumes).
pub open spec fn space_run(s: Seq<u8>) -> nat {
    span(s, space_pred())
}

/// Number of leading decimal digits.
pub open spec fn digit_run(s: Seq<u8>) -> nat {
    span(s, digit_pred())
}

/// Whether `s` starts with `t`.
pub open spec fn starts_with(s: Seq<u8>, t: Seq<u8>) -> bool {
    t.len() <= s.len() && s.take(t.len() as int) == t
}

/// Exec counterpart of [`span`] for whitespace, from position `pos`.
pub fn skip_spaces(input: &[u8], pos: usize) -> (r: usize)
    requires
        pos <= input@.len(),
    ensures
        r == pos + space_run(input@.skip(pos as int)),
        r <= input@.len(),
{
    let mut i = pos;
    while i < input.len() && (input[i] == 0x20 || input[i] == 0x09 || input[i] == 0x0d || input[i] == 0x0a)
        invariant
            pos <= i <= input@.len(),
            forall|k: int| pos <= k < i ==> is_space(#[trigger] input@[k]),
        decreases input@.len() - i,
    {
        i = i + 1;
    }
    proof {
        let s = input@.skip(pos as int);
        assert forall|k: int| 0 <= k < i - pos implies space_pred()(#[trigger] s[k]) by {
            assert(s[k] == input@[pos + k]);
        }
        if i < input@.len() {
            assert(s[i - pos] == input@[i as int]);
        }
        lemma_span(s, space_pred(), (i - pos) as nat);
    }
    i
}

/// Whether `input[pos..]` starts with the bytes of `tag`.
pub fn has_tag(input: &[u8], pos: usize, tag: &[u8]) -> (r: bool)
    requires
        pos <= input@.len(),
    ensures
        r == starts_with(input@.skip(pos as int), tag@),
{
    if tag.len() > input.len() - pos {
        return false;
    }
    let mut i: usize = 0;
    while i < tag.len()
        invariant
            pos + tag@.len() <= input@.len(),
            input@.len() == input.len(),
            i <= tag@.len(),
            forall|k: int| 0 <= k < i ==> input@[pos + k] == tag@[k],
        decreases tag@.len() - i,
    {
        if input[pos + i] != tag[i] {
            proof {
                assert(input@.skip(pos as int).take(tag@.len() as int)[i as int] != tag@[i as int]);
            }
            return false;
        }
        i = i + 1;
    }
    proof {
        assert(input@.skip(pos as int).take(tag@.len() as int) =~= tag@);
    }
    true
}

/// The input with its first `n` bytes dropped.
pub fn rest_of<'a>(input: &'a [u8], n: usize) -> (r: &'a [u8])
    requires
        n <= input@.len(),
    ensures
        r@ == input@.skip(n as int),
{
    let r = &input[n..input.len()];
    assert(r@ =~= input@.skip(n as int));
    r
}

} // verus!
