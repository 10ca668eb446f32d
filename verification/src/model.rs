//! What a format string means: the segments that it is read as, given the
//! values that its arguments may refer to.

use vstd::prelude::*;
use vstd::utf8::decode_utf8;

use crate::ascii::CLOSE;
use crate::grammar::{
    argument_at, escape_at, is_brace, lemma_argument_extent, lemma_text_extent, text_extent,
    Reference,
};
use crate::specifier::Specifier;
use crate::value::FormattableValue;

verus! {

/// An argument of a format string: what it referred to, the specifier it is
/// rendered under, and the value that the reference was resolved to.
pub struct ArgumentView<V> {
    pub reference: Reference,
    pub specifier: Specifier,
    pub value: V,
}

/// One segment of a format string: literal text, or an argument.
pub enum SegmentView<V> {
    Text(Seq<char>),
    Argument(ArgumentView<V>),
}

/// The value that `reference` stands for, if there is one: the positional
/// value at the counter `next` for the empty reference, the positional value
/// at an explicit index, or the named value under a key.
pub open spec fn resolve<V>(
    reference: Reference,
    next: nat,
    positional: Seq<V>,
    named: Map<Seq<char>, V>,
) -> Option<V> {
    match reference {
        Reference::Next => if next < positional.len() {
            Some(positional[next as int])
        } else {
            None
        },
        Reference::Positional(index) => if index < positional.len() {
            Some(positional[index as int])
        } else {
            None
        },
        Reference::Named(key) => if named.contains_key(key) {
            Some(named[key])
        } else {
            None
        },
    }
}

/// The counter of empty references behind an argument with `reference`: one
/// more than `next` if the reference is empty, else `next`.
pub open spec fn advance(reference: Reference, next: nat) -> nat {
    if reference is Next {
        next + 1
    } else {
        next
    }
}

/// The segments `first` and then `rest`, or the failure of `rest`.
pub open spec fn followed_by<V>(
    first: SegmentView<V>,
    rest: Result<Seq<SegmentView<V>>, int>,
) -> Result<Seq<SegmentView<V>>, int> {
    match rest {
        Ok(segments) => Ok(seq![first] + segments),
        Err(offset) => Err(offset),
    }
}

/// The result `rest` with the segments `done` in front of it.
pub open spec fn preceded_by<V>(
    done: Seq<SegmentView<V>>,
    rest: Result<Seq<SegmentView<V>>, int>,
) -> Result<Seq<SegmentView<V>>, int> {
    match rest {
        Ok(segments) => Ok(done + segments),
        Err(offset) => Err(offset),
    }
}

/// One step of reading: the segment that was read, the index where reading
/// goes on, and the counter of empty references behind the segment.
pub struct Step<V> {
    pub segment: SegmentView<V>,
    pub resume: int,
    pub next: nat,
}

/// The segment that starts at index `from` of `s`, `next` empty references
/// having been met before `from`; or the offset of the failure.
///
/// A text segment starts at a literal byte or at an escape. A `}` that is no
/// escape fails at its own offset. A `{` that is no escape opens an argument,
/// and fails at its own offset if no argument stands there or if its
/// reference resolves to no value.
pub open spec fn segment_at<V>(
    s: Seq<u8>,
    from: int,
    next: nat,
    positional: Seq<V>,
    named: Map<Seq<char>, V>,
) -> Result<Step<V>, int>
    recommends
        0 <= from < s.len(),
{
    if !is_brace(s[from]) || escape_at(s, from) {
        let (end, resume) = text_extent(s, from);
        Ok(Step { segment: SegmentView::Text(decode_utf8(s.subrange(from, end))), resume, next })
    } else if s[from] == CLOSE {
        Err(from)
    } else {
        match argument_at(s, from) {
            None => Err(from),
            Some(syntax) => match resolve(syntax.reference, next, positional, named) {
                None => Err(from),
                Some(value) => Ok(
                    Step {
                        segment: SegmentView::Argument(
                            ArgumentView {
                                reference: syntax.reference,
                                specifier: syntax.specifier,
                                value,
                            },
                        ),
                        resume: syntax.end,
                        next: advance(syntax.reference, next),
                    },
                ),
            },
        }
    }
}

/// A segment is not empty and ends within the bytes; the counter of empty
/// references grows by one at most.
pub proof fn lemma_segment_extent<V>(
    s: Seq<u8>,
    from: int,
    next: nat,
    positional: Seq<V>,
    named: Map<Seq<char>, V>,
)
    requires
        0 <= from < s.len(),
        segment_at(s, from, next, positional, named) is Ok,
    ensures
        from < segment_at(s, from, next, positional, named)->Ok_0.resume <= s.len(),
        next <= segment_at(s, from, next, positional, named)->Ok_0.next <= next + 1,
{
    if !is_brace(s[from]) || escape_at(s, from) {
        lemma_text_extent(s, from);
    } else {
        lemma_argument_extent(s, from);
    }
}

/// What the bytes of `s` from index `from` on are read as, `next` empty
/// references having been met before `from`: their segments in order, or the
/// offset of the first failure.
pub open spec fn segments_from<V>(
    s: Seq<u8>,
    from: int,
    next: nat,
    positional: Seq<V>,
    named: Map<Seq<char>, V>,
) -> Result<Seq<SegmentView<V>>, int>
    decreases s.len() - from,
{
    if from < 0 || from >= s.len() {
        Ok(Seq::empty())
    } else {
        match segment_at(s, from, next, positional, named) {
            Err(offset) => Err(offset),
            Ok(step) => {
                proof {
                    lemma_segment_extent(s, from, next, positional, named);
                }
                followed_by(
                    step.segment,
                    segments_from(s, step.resume, step.next, positional, named),
                )
            },
        }
    }
}

/// What the format string with the bytes `s` is read as, given the
/// positional values and the named values: its segments in order, or the
/// offset of the first failure.
pub open spec fn segments_of<V>(
    s: Seq<u8>,
    positional: Seq<V>,
    named: Map<Seq<char>, V>,
) -> Result<Seq<SegmentView<V>>, int> {
    segments_from(s, 0, 0, positional, named)
}

/// The text of one segment: the literal text itself, or the argument's value
/// rendered under the argument's specifier.
pub open spec fn segment_text<V: FormattableValue>(segment: SegmentView<V>) -> Seq<char> {
    match segment {
        SegmentView::Text(text) => text,
        SegmentView::Argument(argument) => argument.value.formatted(argument.specifier),
    }
}

/// The text of a sequence of segments: the texts of the segments, one after
/// the other.
pub open spec fn rendered<V: FormattableValue>(segments: Seq<SegmentView<V>>) -> Seq<char>
    decreases segments.len(),
{
    if segments.len() == 0 {
        Seq::empty()
    } else {
        rendered(segments.drop_last()) + segment_text(segments.last())
    }
}

} // verus!
