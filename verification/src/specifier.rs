//! The seven axes of a format specifier.
//!
//! Every axis is a closed set of variants. One variant of each axis is the
//! neutral one, chosen when the specifier text holds no token for that axis;
//! the others are chosen by a token of the specifier text.

use vstd::prelude::*;

use crate::ascii::{
    CARET, GREATER, HASH, LESS, LOWER_B, LOWER_E, LOWER_O, LOWER_X, PLUS, QUESTION, UPPER_E, UPPER_X,
    ZERO,
};
use crate::digits::{number_of, parse_decimal};

verus! {

/// Where the rendered value is placed when it is shorter than the width.
#[derive(Clone, Copy, Debug, PartialEq, Eq, Structural)]
pub enum Align {
    /// No alignment was asked for; the value decides.
    Unset,
    /// `<`
    Left,
    /// `^`
    Center,
    /// `>`
    Right,
}

/// Whether a sign is shown for non-negative numbers.
#[derive(Clone, Copy, Debug, PartialEq, Eq, Structural)]
pub enum Sign {
    /// A sign is shown for negative numbers only.
    Default,
    /// `+`: a sign is always shown.
    Always,
}

/// Whether the alternate form of the output kind is used.
#[derive(Clone, Copy, Debug, PartialEq, Eq, Structural)]
pub enum Repr {
    /// The plain form.
    Default,
    /// `#`: the alternate form.
    Alt,
}

/// The character that fills the width.
#[derive(Clone, Copy, Debug, PartialEq, Eq, Structural)]
pub enum Pad {
    /// Fill with spaces.
    Space,
    /// `0`: fill with zeros.
    Zero,
}

/// The least number of units the rendered value takes.
#[derive(Clone, Copy, Debug, PartialEq, Eq, Structural)]
pub enum Width {
    /// The natural length of the value.
    Auto,
    /// A run of digits: at least that many units.
    AtLeast { width: usize },
}

/// The precision of the rendered value.
#[derive(Clone, Copy, Debug, PartialEq, Eq, Structural)]
pub enum Precision {
    /// The natural precision of the value.
    Auto,
    /// `.` and a run of digits: exactly that precision.
    Exactly { precision: usize },
}

/// The output kind: which rendering of the value is asked for.
#[derive(Clone, Copy, Debug, PartialEq, Eq, Structural)]
pub enum Format {
    /// No token.
    Display,
    /// `?`
    Debug,
    /// `o`
    Octal,
    /// `x`
    LowerHex,
    /// `X`
    UpperHex,
    /// `b`
    Binary,
    /// `e`
    LowerExp,
    /// `E`
    UpperExp,
}

/// A complete format specifier: one variant of each axis.
#[derive(Clone, Copy, Debug, PartialEq, Eq, Structural)]
pub struct Specifier {
    pub align: Align,
    pub sign: Sign,
    pub repr: Repr,
    pub pad: Pad,
    pub width: Width,
    pub precision: Precision,
    pub format: Format,
}

impl Align {
    /// The variant that `token` selects, if it is a token of this axis.
    pub open spec fn of_token(token: u8) -> Option<Align> {
        if token == LESS {
            Some(Align::Left)
        } else if token == CARET {
            Some(Align::Center)
        } else if token == GREATER {
            Some(Align::Right)
        } else {
            None
        }
    }

    /// Reads one token of the alignment axis.
    pub fn from_token(token: u8) -> (r: Option<Align>)
        ensures
            r == Align::of_token(token),
    {
        match token {
            LESS => Some(Align::Left),
            CARET => Some(Align::Center),
            GREATER => Some(Align::Right),
            _ => None,
        }
    }
}

impl Sign {
    /// The variant that `token` selects, if it is a token of this axis.
    pub open spec fn of_token(token: u8) -> Option<Sign> {
        if token == PLUS {
            Some(Sign::Always)
        } else {
            None
        }
    }

    /// Reads one token of the sign axis.
    pub fn from_token(token: u8) -> (r: Option<Sign>)
        ensures
            r == Sign::of_token(token),
    {
        match token {
            PLUS => Some(Sign::Always),
            _ => None,
        }
    }
}

impl Repr {
    /// The variant that `token` selects, if it is a token of this axis.
    pub open spec fn of_token(token: u8) -> Option<Repr> {
        if token == HASH {
            Some(Repr::Alt)
        } else {
            None
        }
    }

    /// Reads one token of the alternate-form axis.
    pub fn from_token(token: u8) -> (r: Option<Repr>)
        ensures
            r == Repr::of_token(token),
    {
        match token {
            HASH => Some(Repr::Alt),
            _ => None,
        }
    }
}

impl Pad {
    /// The variant that `token` selects, if it is a token of this axis.
    pub open spec fn of_token(token: u8) -> Option<Pad> {
        if token == ZERO {
            Some(Pad::Zero)
        } else {
            None
        }
    }

    /// Reads one token of the pad axis.
    pub fn from_token(token: u8) -> (r: Option<Pad>)
        ensures
            r == Pad::of_token(token),
    {
        match token {
            ZERO => Some(Pad::Zero),
            _ => None,
        }
    }
}

impl Format {
    /// The variant that `token` selects, if it is a token of this axis.
    pub open spec fn of_token(token: u8) -> Option<Format> {
        if token == QUESTION {
            Some(Format::Debug)
        } else if token == LOWER_O {
            Some(Format::Octal)
        } else if token == LOWER_X {
            Some(Format::LowerHex)
        } else if token == UPPER_X {
            Some(Format::UpperHex)
        } else if token == LOWER_B {
            Some(Format::Binary)
        } else if token == LOWER_E {
            Some(Format::LowerExp)
        } else if token == UPPER_E {
            Some(Format::UpperExp)
        } else {
            None
        }
    }

    /// Reads one token of the output-kind axis.
    pub fn from_token(token: u8) -> (r: Option<Format>)
        ensures
            r == Format::of_token(token),
    {
        match token {
            QUESTION => Some(Format::Debug),
            LOWER_O => Some(Format::Octal),
            LOWER_X => Some(Format::LowerHex),
            UPPER_X => Some(Format::UpperHex),
            LOWER_B => Some(Format::Binary),
            LOWER_E => Some(Format::LowerExp),
            UPPER_E => Some(Format::UpperExp),
            _ => None,
        }
    }
}

impl Width {
    /// The width that the captured text of the width axis stands for. No
    /// text stands for `Auto`. Any other text must be a run of digits whose
    /// number fits in a `usize`.
    pub open spec fn of_capture(capture: Seq<u8>) -> Result<Width, ()> {
        if capture.len() == 0 {
            Ok(Width::Auto)
        } else {
            match number_of(capture) {
                Some(width) => Ok(Width::AtLeast { width }),
                None => Err(()),
            }
        }
    }

    /// Reads the captured text of the width axis.
    pub fn from_capture(capture: &[u8]) -> (r: Result<Width, ()>)
        ensures
            r == Width::of_capture(capture@),
    {
        if capture.len() == 0 {
            Ok(Width::Auto)
        } else {
            match parse_decimal(capture) {
                Some(width) => Ok(Width::AtLeast { width }),
                None => Err(()),
            }
        }
    }
}

impl Precision {
    /// The precision that the captured text of the precision axis, without
    /// its leading `.`, stands for. No text stands for `Auto`. Any other text
    /// must be a run of digits whose number fits in a `usize`.
    pub open spec fn of_capture(capture: Seq<u8>) -> Result<Precision, ()> {
        if capture.len() == 0 {
            Ok(Precision::Auto)
        } else {
            match number_of(capture) {
                Some(precision) => Ok(Precision::Exactly { precision }),
                None => Err(()),
            }
        }
    }

    /// Reads the captured text of the precision axis.
    pub fn from_capture(capture: &[u8]) -> (r: Result<Precision, ()>)
        ensures
            r == Precision::of_capture(capture@),
    {
        if capture.len() == 0 {
            Ok(Precision::Auto)
        } else {
            match parse_decimal(capture) {
                Some(precision) => Ok(Precision::Exactly { precision }),
                None => Err(()),
            }
        }
    }
}

impl Specifier {
    /// The specifier whose every axis is neutral: what an argument without
    /// specifier text is rendered under.
    pub open spec fn neutral() -> Specifier {
        Specifier {
            align: Align::Unset,
            sign: Sign::Default,
            repr: Repr::Default,
            pad: Pad::Space,
            width: Width::Auto,
            precision: Precision::Auto,
            format: Format::Display,
        }
    }
}

impl Default for Specifier {
    fn default() -> (r: Specifier)
        ensures
            r == Specifier::neutral(),
    {
        Specifier {
            align: Align::Unset,
            sign: Sign::Default,
            repr: Repr::Default,
            pad: Pad::Space,
            width: Width::Auto,
            precision: Precision::Auto,
            format: Format::Display,
        }
    }
}

} // verus!
