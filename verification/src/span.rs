//! Source ranges and the span-tagged wrapper that every tree node carries.

use vstd::prelude::*;

verus! {

/// A half-open range over the source text, measured in bytes.
///
/// Spans only serve diagnostics: the desugarer never reads source text
/// through them, it only merges them so that every node it produces can
/// point back at the characters it came from.
#[derive(Clone, Copy, PartialEq, Eq, Structural, Debug)]
pub struct Span {
    pub start: usize,
    pub end: usize,
}

/// The smallest span covering both `a` and `b`.
pub open spec fn spec_combine(a: Span, b: Span) -> Span {
    Span {
        start: if a.start <= b.start {
            a.start
        } else {
            b.start
        },
        end: if a.end >= b.end {
            a.end
        } else {
            b.end
        },
    }
}

/// The smallest span covering every span of a sequence; the empty join
/// is the zero span.
pub open spec fn spec_join(spans: Seq<Span>) -> Span
    decreases spans.len(),
{
    if spans.len() == 0 {
        Span { start: 0, end: 0 }
    } else if spans.len() == 1 {
        spans[0]
    } else {
        spec_combine(spans[0], spec_join(spans.drop_first()))
    }
}

impl Span {
    /// A span running from byte `start` to byte `end`.
    pub fn new(start: usize, end: usize) -> (s: Span)
        ensures
            s == (Span { start, end }),
    {
        Span { start, end }
    }

    /// The smallest span covering both `a` and `b`.
    pub fn combine(a: &Span, b: &Span) -> (s: Span)
        ensures
            s == spec_combine(*a, *b),
    {
        Span {
            start: if a.start <= b.start {
                a.start
            } else {
                b.start
            },
            end: if a.end >= b.end {
                a.end
            } else {
                b.end
            },
        }
    }

    /// The smallest span covering every span of a list; the empty join is
    /// the zero span.
    pub fn join(spans: &Vec<Span>) -> (s: Span)
        ensures
            s == spec_join(spans@),
    {
        if spans.len() == 0 {
            return Span { start: 0, end: 0 };
        }
        let mut acc: Span = spans[spans.len() - 1];
        let mut i: usize = spans.len() - 1;
        while i > 0
            invariant
                i < spans@.len(),
                acc == spec_join(spans@.subrange(i as int, spans@.len() as int)),
            decreases i,
        {
            i = i - 1;
            acc = Span::combine(&spans[i], &acc);
            proof {
                assert(spans@.subrange(i as int, spans@.len() as int).drop_first() =~= spans@
                    .subrange(i + 1, spans@.len() as int));
            }
        }
        proof {
            assert(spans@.subrange(0, spans@.len() as int) =~= spans@);
        }
        acc
    }
}

/// A value together with the source range it came from.
#[derive(Debug)]
pub struct Spanned<T> {
    pub item: T,
    pub span: Span,
}

impl<T> Spanned<T> {
    /// Tag `item` with `span`.
    pub fn new(item: T, span: Span) -> (s: Spanned<T>)
        ensures
            s.item == item,
            s.span == span,
    {
        Spanned { item, span }
    }
}

} // verus!
