//! Splitting a stretch of text into its words: the maximal runs of bytes
//! that are not white space.

use vstd::prelude::*;

verus! {

/// The bytes `start..end` of a text.
#[derive(Clone, Copy, Debug, PartialEq, Eq, Structural)]
pub struct Span {
    pub start: usize,
    pub end: usize,
}

/// Space, tab, line feed, vertical tab, form feed and carriage return.
pub open spec fn is_space(b: u8) -> bool {
    b == 32 || (9 <= b && b <= 13)
}

/// The first position in `from..to` that holds white space, or `to` where
/// none does.
pub open spec fn word_end(s: Seq<u8>, from: int, to: int) -> int
    decreases to - from,
{
    if from >= to || is_space(s[from]) {
        from
    } else {
        word_end(s, from + 1, to)
    }
}

/// The words of `s` between `from` and `to`, in the order in which they
/// stand.
pub open spec fn token_spans(s: Seq<u8>, from: int, to: int) -> Seq<Span>
    decreases to - from,
    via token_spans_decreases
{
    if from >= to {
        Seq::empty()
    } else if is_space(s[from]) {
        token_spans(s, from + 1, to)
    } else {
        let end = word_end(s, from, to);
        seq![Span { start: from as usize, end: end as usize }] + token_spans(s, end, to)
    }
}

#[via_fn]
proof fn token_spans_decreases(s: Seq<u8>, from: int, to: int) {
    if from < to && !is_space(s[from]) {
        lemma_word_end(s, from + 1, to);
    }
}

/// `word_end` stops inside `from..=to`, on white space unless it reached
/// `to`, and passes over none.
pub proof fn lemma_word_end(s: Seq<u8>, from: int, to: int)
    requires
        from <= to,
    ensures
        from <= word_end(s, from, to) <= to,
        word_end(s, from, to) < to ==> is_space(s[word_end(s, from, to)]),
        forall|i: int| from <= i < word_end(s, from, to) ==> !is_space(#[trigger] s[i]),
    decreases to - from,
{
    if from < to && !is_space(s[from]) {
        lemma_word_end(s, from + 1, to);
    }
}

/// The bytes that a span covers.
pub open spec fn span_bytes(s: Seq<u8>, span: Span) -> Seq<u8> {
    s.subrange(span.start as int, span.end as int)
}

/// Every span lies inside a text of `len` bytes.
pub open spec fn spans_within(spans: Seq<Span>, len: nat) -> bool {
    forall|k: int| 0 <= k < spans.len() ==> (#[trigger] spans[k]).start <= spans[k].end <= len
}

/// Tells white space from the rest.
pub fn is_space_byte(b: u8) -> (r: bool)
    ensures
        r == is_space(b),
{
    b == 32 || (9 <= b && b <= 13)
}

/// Splits the bytes `start..end` of `text` into words.
pub fn tokenize(text: &[u8], start: usize, end: usize) -> (spans: Vec<Span>)
    requires
        start <= end <= text@.len(),
    ensures
        spans@ == token_spans(text@, start as int, end as int),
        spans_within(spans@, text@.len()),
{
    let mut spans: Vec<Span> = Vec::new();
    let mut pos: usize = start;
    while pos < end
        invariant
            start <= pos <= end <= text@.len(),
            spans@ + token_spans(text@, pos as int, end as int) == token_spans(
                text@,
                start as int,
                end as int,
            ),
        decreases end - pos,
    {
        if is_space_byte(text[pos]) {
            pos = pos + 1;
        } else {
            let word_start: usize = pos;
            while pos < end && !is_space_byte(text[pos])
                invariant
                    word_start <= pos <= end <= text@.len(),
                    word_end(text@, pos as int, end as int) == word_end(
                        text@,
                        word_start as int,
                        end as int,
                    ),
                decreases end - pos,
            {
                pos = pos + 1;
            }
            let ghost before = spans@;
            spans.push(Span { start: word_start, end: pos });
            proof {
                let rest = token_spans(text@, pos as int, end as int);
                assert(token_spans(text@, word_start as int, end as int) == seq![
                    Span { start: word_start, end: pos },
                ] + rest);
                assert(spans@ + rest =~= before + (seq![Span { start: word_start, end: pos }]
                    + rest));
            }
        }
    }
    assert(spans@ + Seq::<Span>::empty() =~= spans@);
    proof {
        lemma_token_spans(text@, start as int, end as int);
        assert forall|k: int| 0 <= k < spans@.len() implies (#[trigger] spans@[k]).start
            <= spans@[k].end <= text@.len() by {
            assert(is_word(text@, start as int, end as int, spans@[k]));
        }
    }
    spans
}

/// `span` is a word of `s` inside `from..to`: it is not empty, holds no
/// white space, and white space or an end of the stretch stands on either
/// side of it.
pub open spec fn is_word(s: Seq<u8>, from: int, to: int, span: Span) -> bool {
    &&& from <= span.start < span.end <= to
    &&& forall|i: int| span.start <= i < span.end ==> !is_space(#[trigger] s[i])
    &&& (span.start == from || is_space(s[span.start - 1]))
    &&& (span.end == to || is_space(s[span.end as int]))
}

/// Every span that `token_spans` gives is a word, each starts after the one
/// before it has ended, and every byte that is not white space lies in one
/// of them.
pub proof fn lemma_token_spans(s: Seq<u8>, from: int, to: int)
    requires
        0 <= from <= to <= s.len(),
        to <= usize::MAX,
    ensures
        forall|k: int|
            0 <= k < token_spans(s, from, to).len() ==> is_word(
                s,
                from,
                to,
                #[trigger] token_spans(s, from, to)[k],
            ),
        forall|j: int, k: int|
            0 <= j < k < token_spans(s, from, to).len() ==> (#[trigger] token_spans(
                s,
                from,
                to,
            )[j]).end < (#[trigger] token_spans(s, from, to)[k]).start,
        forall|p: int|
            from <= p < to && !is_space(#[trigger] s[p]) ==> exists|k: int|
                0 <= k < token_spans(s, from, to).len() && (#[trigger] token_spans(
                    s,
                    from,
                    to,
                )[k]).start <= p < token_spans(s, from, to)[k].end,
    decreases to - from,
{
    let spans = token_spans(s, from, to);
    if from >= to {
    } else if is_space(s[from]) {
        lemma_token_spans(s, from + 1, to);
        let rest = token_spans(s, from + 1, to);
        assert(spans == rest);
        assert forall|k: int| 0 <= k < spans.len() implies is_word(
            s,
            from,
            to,
            #[trigger] spans[k],
        ) by {
            assert(is_word(s, from + 1, to, rest[k]));
        }
        assert forall|p: int| from <= p < to && !is_space(#[trigger] s[p]) implies exists|k: int|
            0 <= k < spans.len() && (#[trigger] spans[k]).start <= p < spans[k].end by {
            assert(from + 1 <= p);
        }
    } else {
        let end = word_end(s, from, to);
        lemma_word_end(s, from + 1, to);
        lemma_token_spans(s, end, to);
        let rest = token_spans(s, end, to);
        let first = Span { start: from as usize, end: end as usize };
        assert(spans == seq![first] + rest);
        assert(is_word(s, from, to, first));
        assert forall|k: int| 0 <= k < spans.len() implies is_word(
            s,
            from,
            to,
            #[trigger] spans[k],
        ) by {
            if k > 0 {
                assert(spans[k] == rest[k - 1]);
                assert(is_word(s, end, to, rest[k - 1]));
                if rest[k - 1].start == end {
                    assert(is_space(s[end]));
                    assert(!is_space(s[rest[k - 1].start as int]));
                }
            }
        }
        assert forall|j: int, k: int| 0 <= j < k < spans.len() implies (#[trigger] spans[j]).end < (
        #[trigger] spans[k]).start by {
            assert(spans[k] == rest[k - 1]);
            assert(is_word(s, end, to, rest[k - 1]));
            if rest[k - 1].start == end {
                assert(is_space(s[end]));
                assert(!is_space(s[rest[k - 1].start as int]));
            }
            if j > 0 {
                assert(spans[j] == rest[j - 1]);
            }
        }
        assert forall|p: int| from <= p < to && !is_space(#[trigger] s[p]) implies exists|k: int|
            0 <= k < spans.len() && (#[trigger] spans[k]).start <= p < spans[k].end by {
            if p < end {
                assert(spans[0].start <= p < spans[0].end);
            } else {
                let k = choose|k: int|
                    0 <= k < rest.len() && (#[trigger] rest[k]).start <= p < rest[k].end;
                assert(spans[k + 1] == rest[k]);
            }
        }
    }
}

} // verus!
