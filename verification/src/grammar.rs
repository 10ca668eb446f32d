//! The grammar of format strings, as functions on bytes.
//!
//! ```text
//! format_string := (text | "{{" | "}}" | argument)*
//! argument      := "{" [ arg_ref ] [ ":" spec ] "}"
//! arg_ref       := /* empty */ | digits | identifier
//! spec          := [align] [sign] ["#"] ["0"] [width] ["." precision] [kind]
//! ```
//!
//! A format string is read from left to right, one segment after the other,
//! and never re-read. An identifier starts with a letter or `_` and goes on
//! with letters, numeric characters and `_`; digits are the ASCII digits.

use vstd::prelude::*;
use vstd::utf8::decode_utf8;

use crate::ascii::{CLOSE, COLON, DOT, OPEN};
use crate::digits::{is_digit, number_of};
use crate::letters::{continues_identifier, starts_identifier};
use crate::specifier::{Align, Format, Pad, Precision, Repr, Sign, Specifier, Width};
use crate::text::{char_at, char_width};

verus! {

/// `byte` is `{` or `}`.
pub open spec fn is_brace(byte: u8) -> bool {
    byte == OPEN || byte == CLOSE
}

/// The kinds of byte that the grammar reads in runs.
#[derive(Clone, Copy, Debug, PartialEq, Eq, Structural)]
pub enum Class {
    /// The ASCII digits.
    Digit,
    /// Literal text: every byte but the two braces.
    Literal,
}

impl Class {
    /// `byte` belongs to this class.
    pub open spec fn holds(self, byte: u8) -> bool {
        match self {
            Class::Digit => is_digit(byte),
            Class::Literal => !is_brace(byte),
        }
    }
}

/// The end of the longest run of bytes of `class` that starts at `from`: the
/// first index at or after `from` that holds no byte of the class.
pub open spec fn run_end(s: Seq<u8>, from: int, class: Class) -> int
    decreases s.len() - from,
{
    if 0 <= from < s.len() && class.holds(s[from]) {
        run_end(s, from + 1, class)
    } else {
        from
    }
}

/// A character that may stand in an identifier is encoded at index `at` of
/// `s`, within the bytes.
pub open spec fn identifier_char_at(s: Seq<u8>, at: int) -> bool {
    0 <= at < at + char_width(s, at) <= s.len() && continues_identifier(char_at(s, at))
}

/// The end of the longest run of characters that may stand in an identifier,
/// from index `from` on: the first index at or after `from` where no such
/// character starts.
pub open spec fn identifier_end(s: Seq<u8>, from: int) -> int
    decreases s.len() - from,
{
    if identifier_char_at(s, from) {
        identifier_end(s, from + char_width(s, from))
    } else {
        from
    }
}

/// `s` holds `byte` at index `at`.
pub open spec fn holds(s: Seq<u8>, at: int, byte: u8) -> bool {
    0 <= at < s.len() && s[at] == byte
}

/// `s` holds a doubled brace at `at` and `at + 1`: the escape for one literal
/// brace.
pub open spec fn escape_at(s: Seq<u8>, at: int) -> bool {
    0 <= at && at + 1 < s.len() && is_brace(s[at]) && s[at + 1] == s[at]
}

/// What an argument refers to.
pub enum Reference {
    /// The next positional value that no earlier `Next` has taken.
    Next,
    /// The positional value at this index.
    Positional(nat),
    /// The named value under this key.
    Named(Seq<char>),
}

/// The syntax of one argument: what it refers to, how it is to be rendered,
/// and the index just behind its closing brace.
pub struct ArgumentSyntax {
    pub reference: Reference,
    pub specifier: Specifier,
    pub end: int,
}

/// The reference that starts at `at`, and where it ends. Nothing before
/// the `:` or the `}`, or before the end of the bytes, is the empty
/// reference. A run of digits is a positional index, and must fit in a
/// `usize`. An identifier is a key. Anything else is no reference.
pub open spec fn reference_at(s: Seq<u8>, at: int) -> Option<(Reference, int)> {
    if !(0 <= at < s.len()) || s[at] == CLOSE || s[at] == COLON {
        Some((Reference::Next, at))
    } else if is_digit(s[at]) {
        let end = run_end(s, at, Class::Digit);
        match number_of(s.subrange(at, end)) {
            Some(index) => Some((Reference::Positional(index as nat), end)),
            None => None,
        }
    } else if starts_identifier(char_at(s, at)) {
        let end = identifier_end(s, at + char_width(s, at));
        Some((Reference::Named(decode_utf8(s.subrange(at, end))), end))
    } else {
        None
    }
}

/// The alignment read at `at`, and where reading goes on.
pub open spec fn align_at(s: Seq<u8>, at: int) -> (Align, int) {
    if 0 <= at < s.len() && Align::of_token(s[at]) is Some {
        (Align::of_token(s[at])->Some_0, at + 1)
    } else {
        (Align::Unset, at)
    }
}

/// The sign read at `at`, and where reading goes on.
pub open spec fn sign_at(s: Seq<u8>, at: int) -> (Sign, int) {
    if 0 <= at < s.len() && Sign::of_token(s[at]) is Some {
        (Sign::of_token(s[at])->Some_0, at + 1)
    } else {
        (Sign::Default, at)
    }
}

/// The alternate-form flag read at `at`, and where reading goes on.
pub open spec fn repr_at(s: Seq<u8>, at: int) -> (Repr, int) {
    if 0 <= at < s.len() && Repr::of_token(s[at]) is Some {
        (Repr::of_token(s[at])->Some_0, at + 1)
    } else {
        (Repr::Default, at)
    }
}

/// The pad character read at `at`, and where reading goes on.
pub open spec fn pad_at(s: Seq<u8>, at: int) -> (Pad, int) {
    if 0 <= at < s.len() && Pad::of_token(s[at]) is Some {
        (Pad::of_token(s[at])->Some_0, at + 1)
    } else {
        (Pad::Space, at)
    }
}

/// The width read at `at`, and where reading goes on: the longest run of
/// digits there, which may be empty. `None` if the run denotes no `usize`.
pub open spec fn width_at(s: Seq<u8>, at: int) -> Option<(Width, int)> {
    let end = run_end(s, at, Class::Digit);
    match Width::of_capture(s.subrange(at, end)) {
        Ok(width) => Some((width, end)),
        Err(_) => None,
    }
}

/// The precision read at `at`, and where reading goes on: nothing, or a `.`
/// and the longest run of digits behind it. `None` if that run is empty or
/// denotes no `usize`.
pub open spec fn precision_at(s: Seq<u8>, at: int) -> Option<(Precision, int)> {
    if holds(s, at, DOT) {
        let end = run_end(s, at + 1, Class::Digit);
        match Precision::of_capture(s.subrange(at + 1, end)) {
            Ok(Precision::Exactly { precision }) => Some((Precision::Exactly { precision }, end)),
            _ => None,
        }
    } else {
        Some((Precision::Auto, at))
    }
}

/// The output kind read at `at`, and where reading goes on.
pub open spec fn format_at(s: Seq<u8>, at: int) -> (Format, int) {
    if 0 <= at < s.len() && Format::of_token(s[at]) is Some {
        (Format::of_token(s[at])->Some_0, at + 1)
    } else {
        (Format::Display, at)
    }
}

/// The specifier that starts at `at`, just behind the `:`, and where it ends.
/// The seven axes are read in their fixed order, each at the index where the
/// one before it stopped.
pub open spec fn specifier_at(s: Seq<u8>, at: int) -> Option<(Specifier, int)> {
    let (align, at_sign) = align_at(s, at);
    let (sign, at_repr) = sign_at(s, at_sign);
    let (repr, at_pad) = repr_at(s, at_repr);
    let (pad, at_width) = pad_at(s, at_pad);
    match width_at(s, at_width) {
        None => None,
        Some((width, at_precision)) => match precision_at(s, at_precision) {
            None => None,
            Some((precision, at_format)) => {
                let (format, end) = format_at(s, at_format);
                Some((Specifier { align, sign, repr, pad, width, precision, format }, end))
            },
        },
    }
}

/// The argument whose opening brace is at `open`: a reference, then
/// optionally `:` and a specifier, then the closing brace. `None` if the bytes
/// there are no such argument.
pub open spec fn argument_at(s: Seq<u8>, open: int) -> Option<ArgumentSyntax> {
    match reference_at(s, open + 1) {
        None => None,
        Some((reference, at)) => {
            if holds(s, at, CLOSE) {
                Some(ArgumentSyntax { reference, specifier: Specifier::neutral(), end: at + 1 })
            } else if holds(s, at, COLON) {
                match specifier_at(s, at + 1) {
                    Some((specifier, close)) if holds(s, close, CLOSE) => Some(
                        ArgumentSyntax { reference, specifier, end: close + 1 },
                    ),
                    _ => None,
                }
            } else {
                None
            }
        },
    }
}

/// The extent of the text segment that starts at `from`: the index where the
/// segment ends, and the index where reading goes on. The segment is the
/// longest run of literal bytes there; if an escape follows the run, the
/// segment takes the first brace of the pair as well, and reading goes on
/// behind the second.
pub open spec fn text_extent(s: Seq<u8>, from: int) -> (int, int) {
    let stop = run_end(s, from, Class::Literal);
    if escape_at(s, stop) {
        (stop + 1, stop + 2)
    } else {
        (stop, stop)
    }
}

/// A run never ends before it starts, nor behind the end of the bytes; all
/// of its bytes are of the class, and the byte behind it is not.
pub proof fn lemma_run_end(s: Seq<u8>, from: int, class: Class)
    requires
        0 <= from <= s.len(),
    ensures
        from <= run_end(s, from, class) <= s.len(),
        forall|k: int| from <= k < run_end(s, from, class) ==> class.holds(#[trigger] s[k]),
        run_end(s, from, class) < s.len() ==> !class.holds(s[run_end(s, from, class)]),
    decreases s.len() - from,
{
    if from < s.len() && class.holds(s[from]) {
        lemma_run_end(s, from + 1, class);
    }
}

/// An identifier never ends before it starts.
pub proof fn lemma_identifier_end(s: Seq<u8>, from: int)
    ensures
        from <= identifier_end(s, from),
    decreases s.len() - from,
{
    if identifier_char_at(s, from) {
        lemma_identifier_end(s, from + char_width(s, from));
    }
}

/// A specifier ends at or behind the index where it starts, within the bytes.
pub proof fn lemma_specifier_extent(s: Seq<u8>, at: int)
    requires
        0 <= at <= s.len(),
    ensures
        specifier_at(s, at) is Some ==> at <= specifier_at(s, at)->Some_0.1 <= s.len(),
{
    let (_, at_sign) = align_at(s, at);
    let (_, at_repr) = sign_at(s, at_sign);
    let (_, at_pad) = repr_at(s, at_repr);
    let (_, at_width) = pad_at(s, at_pad);
    lemma_run_end(s, at_width, Class::Digit);
    let at_precision = run_end(s, at_width, Class::Digit);
    if holds(s, at_precision, DOT) {
        lemma_run_end(s, at_precision + 1, Class::Digit);
    }
}

/// An argument takes at least its two braces, and ends within the bytes.
pub proof fn lemma_argument_extent(s: Seq<u8>, open: int)
    requires
        0 <= open < s.len(),
    ensures
        argument_at(s, open) is Some ==> open + 2 <= argument_at(s, open)->Some_0.end <= s.len(),
{
    lemma_run_end(s, open + 1, Class::Digit);
    lemma_identifier_end(s, open + 1 + char_width(s, open + 1));
    if reference_at(s, open + 1) is Some {
        let at = reference_at(s, open + 1)->Some_0.1;
        if holds(s, at, COLON) {
            lemma_specifier_extent(s, at + 1);
        }
    }
}

/// A text segment that starts at a literal byte or at an escape is not
/// empty and ends within the bytes, and reading goes on at or behind its end.
pub proof fn lemma_text_extent(s: Seq<u8>, from: int)
    requires
        0 <= from < s.len(),
        !is_brace(s[from]) || escape_at(s, from),
    ensures
        from < text_extent(s, from).0 <= text_extent(s, from).1 <= s.len(),
{
    lemma_run_end(s, from, Class::Literal);
}

} // verus!
