//! The scanner: it reads a format string from left to right, as the grammar
//! says.

use vstd::prelude::*;
use vstd::slice::slice_subrange;
use vstd::string::StringSliceAdditionalSpecFns;
use vstd::utf8::is_char_boundary;

use crate::argument::{Argument, ArgumentRef};
use crate::ascii::{CLOSE, COLON, DOT, NINE, OPEN, ZERO};
use crate::digits::parse_decimal;
use crate::grammar::{
    align_at, argument_at, format_at, identifier_end, lemma_run_end, pad_at, precision_at,
    reference_at, repr_at, run_end, sign_at, specifier_at, text_extent, width_at, Class,
};
use crate::letters::{identifier_part, identifier_start};
use crate::map::Lookup;
use crate::model::{segment_at, segments_from, SegmentView, Step};
use crate::specifier::{Align, Format, Pad, Precision, Repr, Sign, Specifier, Width};
use crate::text::{
    lemma_ascii_boundaries, lemma_char_step, lemma_str_bytes, part, read_char, width_of,
};
use crate::value::FormattableValue;
use crate::Segment;

verus! {

impl Class {
    /// Tells whether `byte` belongs to this class.
    pub fn contains(self, byte: u8) -> (r: bool)
        ensures
            r == self.holds(byte),
    {
        match self {
            Class::Digit => ZERO <= byte && byte <= NINE,
            Class::Literal => byte != OPEN && byte != CLOSE,
        }
    }
}

/// Finds the end of the longest run of bytes of `class` that starts at
/// `from`.
pub fn scan_run(bytes: &[u8], from: usize, class: Class) -> (end: usize)
    requires
        from <= bytes@.len(),
    ensures
        end == run_end(bytes@, from as int, class),
        from <= end <= bytes@.len(),
{
    let mut end = from;
    while end < bytes.len() && class.contains(bytes[end])
        invariant
            from <= end <= bytes@.len(),
            run_end(bytes@, from as int, class) == run_end(bytes@, end as int, class),
        decreases bytes@.len() - end,
    {
        end += 1;
    }
    end
}

/// Finds the end of the longest run of characters that may stand in an
/// identifier, from the character boundary `from` on.
pub fn scan_identifier(format: &str, from: usize) -> (end: usize)
    requires
        from <= format.spec_bytes().len(),
        is_char_boundary(format.spec_bytes(), from as int),
    ensures
        end == identifier_end(format.spec_bytes(), from as int),
        from <= end <= format.spec_bytes().len(),
        is_char_boundary(format.spec_bytes(), end as int),
{
    let bytes = format.as_bytes();
    let mut end = from;
    while end < bytes.len()
        invariant
            bytes@ == format.spec_bytes(),
            from <= end <= bytes@.len(),
            is_char_boundary(bytes@, end as int),
            identifier_end(bytes@, from as int) == identifier_end(bytes@, end as int),
        decreases bytes@.len() - end,
    {
        if !identifier_part(read_char(format, end)) {
            return end;
        }
        proof {
            lemma_str_bytes(format);
            lemma_char_step(bytes@, end as int);
        }
        end = end + width_of(bytes[end]);
    }
    end
}

/// Reads the alignment at `at`.
pub fn read_align(bytes: &[u8], at: usize) -> (r: (Align, usize))
    requires
        at <= bytes@.len(),
    ensures
        (r.0, r.1 as int) == align_at(bytes@, at as int),
        at <= r.1 <= bytes@.len(),
{
    if at < bytes.len() {
        match Align::from_token(bytes[at]) {
            Some(align) => (align, at + 1),
            None => (Align::Unset, at),
        }
    } else {
        (Align::Unset, at)
    }
}

/// Reads the sign at `at`.
pub fn read_sign(bytes: &[u8], at: usize) -> (r: (Sign, usize))
    requires
        at <= bytes@.len(),
    ensures
        (r.0, r.1 as int) == sign_at(bytes@, at as int),
        at <= r.1 <= bytes@.len(),
{
    if at < bytes.len() {
        match Sign::from_token(bytes[at]) {
            Some(sign) => (sign, at + 1),
            None => (Sign::Default, at),
        }
    } else {
        (Sign::Default, at)
    }
}

/// Reads the alternate-form flag at `at`.
pub fn read_repr(bytes: &[u8], at: usize) -> (r: (Repr, usize))
    requires
        at <= bytes@.len(),
    ensures
        (r.0, r.1 as int) == repr_at(bytes@, at as int),
        at <= r.1 <= bytes@.len(),
{
    if at < bytes.len() {
        match Repr::from_token(bytes[at]) {
            Some(repr) => (repr, at + 1),
            None => (Repr::Default, at),
        }
    } else {
        (Repr::Default, at)
    }
}

/// Reads the pad character at `at`.
pub fn read_pad(bytes: &[u8], at: usize) -> (r: (Pad, usize))
    requires
        at <= bytes@.len(),
    ensures
        (r.0, r.1 as int) == pad_at(bytes@, at as int),
        at <= r.1 <= bytes@.len(),
{
    if at < bytes.len() {
        match Pad::from_token(bytes[at]) {
            Some(pad) => (pad, at + 1),
            None => (Pad::Space, at),
        }
    } else {
        (Pad::Space, at)
    }
}

/// Reads the width at `at`.
pub fn read_width(bytes: &[u8], at: usize) -> (r: Option<(Width, usize)>)
    requires
        at <= bytes@.len(),
    ensures
        match r {
            Some((width, end)) => width_at(bytes@, at as int) == Some((width, end as int)) && at
                <= end <= bytes@.len(),
            None => width_at(bytes@, at as int) is None,
        },
{
    let end = scan_run(bytes, at, Class::Digit);
    match Width::from_capture(slice_subrange(bytes, at, end)) {
        Ok(width) => Some((width, end)),
        Err(_) => None,
    }
}

/// Reads the precision at `at`.
pub fn read_precision(bytes: &[u8], at: usize) -> (r: Option<(Precision, usize)>)
    requires
        at <= bytes@.len(),
    ensures
        match r {
            Some((precision, end)) => precision_at(bytes@, at as int) == Some(
                (precision, end as int),
            ) && at <= end <= bytes@.len(),
            None => precision_at(bytes@, at as int) is None,
        },
{
    if at < bytes.len() && bytes[at] == DOT {
        let end = scan_run(bytes, at + 1, Class::Digit);
        match Precision::from_capture(slice_subrange(bytes, at + 1, end)) {
            Ok(Precision::Exactly { precision }) => Some((Precision::Exactly { precision }, end)),
            _ => None,
        }
    } else {
        Some((Precision::Auto, at))
    }
}

/// Reads the output kind at `at`.
pub fn read_format(bytes: &[u8], at: usize) -> (r: (Format, usize))
    requires
        at <= bytes@.len(),
    ensures
        (r.0, r.1 as int) == format_at(bytes@, at as int),
        at <= r.1 <= bytes@.len(),
{
    if at < bytes.len() {
        match Format::from_token(bytes[at]) {
            Some(format) => (format, at + 1),
            None => (Format::Display, at),
        }
    } else {
        (Format::Display, at)
    }
}

/// Reads the specifier that starts at `at`, just behind the `:`.
pub fn read_specifier(bytes: &[u8], at: usize) -> (r: Option<(Specifier, usize)>)
    requires
        at <= bytes@.len(),
    ensures
        match r {
            Some((specifier, end)) => specifier_at(bytes@, at as int) == Some(
                (specifier, end as int),
            ) && at <= end <= bytes@.len(),
            None => specifier_at(bytes@, at as int) is None,
        },
{
    let (align, at_sign) = read_align(bytes, at);
    let (sign, at_repr) = read_sign(bytes, at_sign);
    let (repr, at_pad) = read_repr(bytes, at_repr);
    let (pad, at_width) = read_pad(bytes, at_pad);
    match read_width(bytes, at_width) {
        None => None,
        Some((width, at_precision)) => match read_precision(bytes, at_precision) {
            None => None,
            Some((precision, at_format)) => {
                let (format, end) = read_format(bytes, at_format);
                Some((Specifier { align, sign, repr, pad, width, precision, format }, end))
            },
        },
    }
}

/// Reads the reference that starts at the character boundary `at`, just
/// behind the opening brace.
pub fn read_reference<'s>(format: &'s str, at: usize) -> (r: Option<(ArgumentRef<'s>, usize)>)
    requires
        at <= format.spec_bytes().len(),
        is_char_boundary(format.spec_bytes(), at as int),
    ensures
        match r {
            Some((reference, end)) => reference_at(format.spec_bytes(), at as int) == Some(
                (reference@, end as int),
            ) && at <= end <= format.spec_bytes().len(),
            None => reference_at(format.spec_bytes(), at as int) is None,
        },
{
    let bytes = format.as_bytes();
    if at >= bytes.len() || bytes[at] == CLOSE || bytes[at] == COLON {
        Some((ArgumentRef::Next, at))
    } else if Class::Digit.contains(bytes[at]) {
        let end = scan_run(bytes, at, Class::Digit);
        match parse_decimal(slice_subrange(bytes, at, end)) {
            Some(index) => Some((ArgumentRef::Positional(index), end)),
            None => None,
        }
    } else {
        proof {
            lemma_str_bytes(format);
            lemma_char_step(bytes@, at as int);
        }
        if identifier_start(read_char(format, at)) {
            let end = scan_identifier(format, at + width_of(bytes[at]));
            let key = part(format, at, end);
            Some((ArgumentRef::Named(key), end))
        } else {
            None
        }
    }
}

/// Reads the argument whose opening brace is at `open`: its reference, its
/// specifier, and the index just behind its closing brace.
pub fn read_argument<'s>(format: &'s str, open: usize) -> (r: Option<
    (ArgumentRef<'s>, Specifier, usize),
>)
    requires
        open < format.spec_bytes().len(),
        format.spec_bytes()[open as int] == OPEN,
    ensures
        match r {
            Some((reference, specifier, end)) => {
                &&& argument_at(format.spec_bytes(), open as int) is Some
                &&& argument_at(format.spec_bytes(), open as int)->Some_0.reference == reference@
                &&& argument_at(format.spec_bytes(), open as int)->Some_0.specifier == specifier
                &&& argument_at(format.spec_bytes(), open as int)->Some_0.end == end
                &&& open + 2 <= end <= format.spec_bytes().len()
            },
            None => argument_at(format.spec_bytes(), open as int) is None,
        },
{
    let bytes = format.as_bytes();
    proof {
        lemma_str_bytes(format);
        lemma_ascii_boundaries(bytes@, open as int);
    }
    assert(open < bytes.len());
    match read_reference(format, open + 1) {
        None => None,
        Some((reference, at)) => {
            if at < bytes.len() && bytes[at] == CLOSE {
                Some((reference, Specifier::default(), at + 1))
            } else if at < bytes.len() && bytes[at] == COLON {
                match read_specifier(bytes, at + 1) {
                    Some((specifier, close)) => {
                        if close < bytes.len() && bytes[close] == CLOSE {
                            Some((reference, specifier, close + 1))
                        } else {
                            None
                        }
                    },
                    None => None,
                }
            } else {
                None
            }
        },
    }
}

/// Finds the extent of the text segment that starts at `from`: the index
/// where it ends, and the index where reading goes on.
pub fn scan_text(bytes: &[u8], from: usize) -> (r: (usize, usize))
    requires
        from <= bytes@.len(),
    ensures
        (r.0 as int, r.1 as int) == text_extent(bytes@, from as int),
        from <= r.0 <= r.1 <= bytes@.len(),
{
    let stop = scan_run(bytes, from, Class::Literal);
    if stop < bytes.len() && bytes.len() - stop > 1 && bytes[stop + 1] == bytes[stop] {
        proof {
            lemma_run_end(bytes@, from as int, Class::Literal);
        }
        (stop + 1, stop + 2)
    } else {
        proof {
            lemma_run_end(bytes@, from as int, Class::Literal);
        }
        (stop, stop)
    }
}

/// A reader of one format string: it hands out the segments one by one, from
/// left to right, and counts the empty references that it has met.
pub struct Parser<'p, V: FormattableValue, M: Lookup<str, V>> {
    format: &'p str,
    positional: &'p [V],
    named: &'p M,
    position: usize,
    next: usize,
}

impl<'p, V: FormattableValue, M: Lookup<str, V>> Parser<'p, V, M> {
    #[verifier::type_invariant]
    spec fn well_formed(&self) -> bool {
        &&& self.position <= self.format.spec_bytes().len()
        &&& self.next <= self.position
        &&& is_char_boundary(self.format.spec_bytes(), self.position as int)
    }

    /// The bytes of the format string.
    pub closed spec fn bytes(&self) -> Seq<u8> {
        self.format.spec_bytes()
    }

    /// The positional values.
    pub closed spec fn positional(&self) -> Seq<V> {
        self.positional@
    }

    /// The named values.
    pub closed spec fn named(&self) -> Map<Seq<char>, V> {
        self.named.entries()
    }

    /// The offset of the first byte that has not been read.
    pub closed spec fn position(&self) -> nat {
        self.position as nat
    }

    /// The number of empty references that have been read.
    pub closed spec fn counter(&self) -> nat {
        self.next as nat
    }

    /// What is left to read: the segments that have not been handed out, or
    /// the offset of the first failure among them.
    pub open spec fn rest(&self) -> Result<Seq<SegmentView<V>>, int> {
        segments_from(
            self.bytes(),
            self.position() as int,
            self.counter(),
            self.positional(),
            self.named(),
        )
    }

    /// A reader at the start of `format`.
    pub fn new(format: &'p str, positional: &'p [V], named: &'p M) -> (parser: Self)
        ensures
            parser.bytes() == format.spec_bytes(),
            parser.positional() == positional@,
            parser.named() == named.entries(),
            parser.position() == 0,
            parser.counter() == 0,
    {
        proof {
            lemma_str_bytes(format);
        }
        Parser { format, positional, named, position: 0, next: 0 }
    }

    /// Reads the next segment.
    ///
    /// Returns `None` when the format string has been read to its end. A
    /// failure ends the reading: after it, `None` is all that comes.
    pub fn next(&mut self) -> (r: Option<Result<Segment<'p, V>, usize>>)
        ensures
            final(self).bytes() == old(self).bytes(),
            final(self).positional() == old(self).positional(),
            final(self).named() == old(self).named(),
            old(self).position() <= final(self).position() <= old(self).bytes().len(),
            match r {
                None => {
                    &&& old(self).position() == old(self).bytes().len()
                    &&& final(self).position() == old(self).position()
                    &&& final(self).counter() == old(self).counter()
                },
                Some(Ok(segment)) => {
                    &&& old(self).position() < old(self).bytes().len()
                    &&& segment_at(
                        old(self).bytes(),
                        old(self).position() as int,
                        old(self).counter(),
                        old(self).positional(),
                        old(self).named(),
                    ) == Ok::<Step<V>, int>(
                        Step {
                            segment: segment@,
                            resume: final(self).position() as int,
                            next: final(self).counter(),
                        },
                    )
                    &&& old(self).position() < final(self).position()
                },
                Some(Err(offset)) => {
                    &&& old(self).position() < old(self).bytes().len()
                    &&& segment_at(
                        old(self).bytes(),
                        old(self).position() as int,
                        old(self).counter(),
                        old(self).positional(),
                        old(self).named(),
                    ) == Err::<Step<V>, int>(offset as int)
                    &&& offset == old(self).position()
                    &&& final(self).position() == old(self).bytes().len()
                    &&& final(self).counter() == old(self).counter()
                },
            },
    {
        proof {
            use_type_invariant(&*self);
        }
        let format = self.format;
        let bytes = format.as_bytes();
        let at = self.position;
        if at >= bytes.len() {
            return None;
        }
        proof {
            lemma_str_bytes(format);
        }
        let byte = bytes[at];
        let escape = bytes.len() - at > 1 && bytes[at + 1] == byte;
        if (byte != OPEN && byte != CLOSE) || escape {
            let (end, resume) = scan_text(bytes, at);
            proof {
                lemma_run_end(bytes@, at as int, Class::Literal);
                if end < resume {
                    lemma_ascii_boundaries(bytes@, end as int);
                } else if resume < bytes@.len() {
                    lemma_ascii_boundaries(bytes@, resume as int);
                }
            }
            let text = part(format, at, end);
            self.position = resume;
            Some(Ok(Segment::Text(text)))
        } else if byte == CLOSE {
            self.position = bytes.len();
            Some(Err(at))
        } else {
            match read_argument(format, at) {
                None => {
                    self.position = bytes.len();
                    Some(Err(at))
                },
                Some((reference, specifier, end)) => {
                    match reference.resolve(self.next, self.positional, self.named) {
                        None => {
                            self.position = bytes.len();
                            Some(Err(at))
                        },
                        Some(value) => {
                            proof {
                                lemma_ascii_boundaries(bytes@, end - 1);
                            }
                            self.position = end;
                            if let ArgumentRef::Next = reference {
                                self.next = self.next + 1;
                            }
                            Some(Ok(Segment::Argument(Argument { reference, specifier, value })))
                        },
                    }
                },
            }
        }
    }
}

} // verus!
