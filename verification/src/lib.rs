//! Format strings that are read at run time.
//!
//! A format string holds literal text and arguments in braces, in the syntax
//! of `format!`: `{}`, `{0}`, `{name}`, each optionally with `:` and a
//! specifier, and `{{` and `}}` for a literal brace. [`Arguments::parse`]
//! reads such a string, resolves every argument against the positional and
//! the named values that it is given, and returns the segments, or the byte
//! offset at which reading failed.

pub mod argument;
pub mod ascii;
pub mod digits;
pub mod grammar;
pub mod laws;
pub mod letters;
pub mod map;
pub mod model;
pub mod parser;
pub mod specifier;
pub mod text;
pub mod value;

pub use crate::argument::{Argument, ArgumentRef};
pub use crate::specifier::{Align, Format, Pad, Precision, Repr, Sign, Specifier, Width};
pub use crate::value::FormattableValue;

use vstd::prelude::*;
use vstd::string::{StringExecFns, StringSliceAdditionalSpecFns};

use crate::map::Lookup;
use crate::model::{
    followed_by, preceded_by, rendered, segment_text, segments_of, SegmentView,
};
use crate::parser::Parser;

verus! {

/// One segment of a format string.
#[derive(Debug, PartialEq)]
pub enum Segment<'s, V: FormattableValue> {
    /// Literal text: a part of the format string.
    Text(&'s str),
    /// An argument, resolved to its value.
    Argument(Argument<'s, V>),
}

impl<'s, V: FormattableValue> Clone for Segment<'s, V> {
    fn clone(&self) -> (r: Self)
        ensures
            r == *self,
    {
        *self
    }
}

impl<'s, V: FormattableValue> Copy for Segment<'s, V> {

}

impl<'s, V: FormattableValue> View for Segment<'s, V> {
    type V = SegmentView<V>;

    open spec fn view(&self) -> SegmentView<V> {
        match *self {
            Segment::Text(text) => SegmentView::Text(text@),
            Segment::Argument(argument) => SegmentView::Argument(argument@),
        }
    }
}

impl<'s, V: FormattableValue> Segment<'s, V> {
    /// The text of this segment: the literal text, or the argument's value
    /// rendered under the argument's specifier.
    pub fn to_string(&self) -> (text: String)
        ensures
            text@ == segment_text(self@),
    {
        match self {
            Segment::Text(text) => String::from_str(text),
            Segment::Argument(argument) => argument.to_string(),
        }
    }
}

/// A format string that has been read: its segments, in order.
#[derive(Debug, PartialEq)]
pub struct Arguments<'a, V: FormattableValue> {
    pub segments: Vec<Segment<'a, V>>,
}

impl<'a, V: FormattableValue> Clone for Arguments<'a, V> {
    fn clone(&self) -> (r: Self)
        ensures
            r@ == self@,
    {
        let mut segments: Vec<Segment<'a, V>> = Vec::new();
        let mut k: usize = 0;
        while k < self.segments.len()
            invariant
                k <= self.segments@.len(),
                segments@ == self.segments@.take(k as int),
            decreases self.segments@.len() - k,
        {
            segments.push(self.segments[k]);
            assert(self.segments@.take(k + 1) =~= self.segments@.take(k as int).push(
                self.segments@[k as int],
            ));
            k += 1;
        }
        assert(self.segments@.take(k as int) =~= self.segments@);
        Arguments { segments }
    }
}

impl<'a, V: FormattableValue> View for Arguments<'a, V> {
    type V = Seq<SegmentView<V>>;

    open spec fn view(&self) -> Seq<SegmentView<V>> {
        self.segments@.map_values(|segment: Segment<'a, V>| segment@)
    }
}

impl<'a, V: FormattableValue> Arguments<'a, V> {
    /// Reads `format` and resolves its arguments against `positional` and
    /// `named`.
    ///
    /// Returns the segments that the grammar reads the bytes of `format` as,
    /// or the byte offset of the first failure: of a brace that matches no
    /// other, or of the opening brace of an argument that is malformed or
    /// resolves to no value.
    pub fn parse<M>(format: &'a str, positional: &'a [V], named: &'a M) -> (r: Result<
        Self,
        usize,
    >) where M: Lookup<str, V>
        ensures
            match r {
                Ok(arguments) => segments_of(format.spec_bytes(), positional@, named.entries())
                    == Ok::<Seq<SegmentView<V>>, int>(arguments@),
                Err(offset) => segments_of(format.spec_bytes(), positional@, named.entries())
                    == Err::<Seq<SegmentView<V>>, int>(offset as int),
            },
    {
        let mut parser = Parser::new(format, positional, named);
        let mut segments: Vec<Segment<'a, V>> = Vec::new();
        proof {
            assert(segments@.map_values(|segment: Segment<'a, V>| segment@) =~= Seq::empty());
            assert(Seq::<SegmentView<V>>::empty() + parser.rest()->Ok_0 =~= parser.rest()->Ok_0);
        }
        loop
            invariant
                parser.bytes() == format.spec_bytes(),
                parser.positional() == positional@,
                parser.named() == named.entries(),
                parser.position() <= parser.bytes().len(),
                segments_of(format.spec_bytes(), positional@, named.entries()) == preceded_by(
                    segments@.map_values(|segment: Segment<'a, V>| segment@),
                    parser.rest(),
                ),
            decreases parser.bytes().len() - parser.position(),
        {
            let ghost done = segments@.map_values(|segment: Segment<'a, V>| segment@);
            let ghost before = parser.rest();
            match parser.next() {
                None => {
                    proof {
                        assert(done + Seq::<SegmentView<V>>::empty() =~= done);
                    }
                    return Ok(Arguments { segments });
                },
                Some(Err(offset)) => {
                    return Err(offset);
                },
                Some(Ok(segment)) => {
                    segments.push(segment);
                    proof {
                        assert(before == followed_by(segment@, parser.rest()));
                        assert(segments@.map_values(|segment: Segment<'a, V>| segment@)
                            =~= done.push(segment@));
                        if parser.rest() is Ok {
                            assert(done + (seq![segment@] + parser.rest()->Ok_0) =~= done.push(
                                segment@,
                            ) + parser.rest()->Ok_0);
                        }
                    }
                },
            }
        }
    }

    /// Renders the segments, one after the other.
    pub fn to_string(&self) -> (text: String)
        ensures
            text@ == rendered(self@),
    {
        let mut text = String::new();
        let mut k: usize = 0;
        while k < self.segments.len()
            invariant
                k <= self.segments@.len(),
                text@ == rendered(self@.take(k as int)),
            decreases self.segments@.len() - k,
        {
            let piece = self.segments[k].to_string();
            proof {
                assert(self@.take(k + 1).drop_last() =~= self@.take(k as int));
                assert(self@.take(k + 1).last() == self.segments@[k as int]@);
            }
            text.append(piece.as_str());
            k += 1;
        }
        proof {
            assert(self@.take(k as int) =~= self@);
        }
        text
    }
}

} // verus!
