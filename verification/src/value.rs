//! What a value must be able to do to stand in a format string.

use vstd::prelude::*;

use crate::specifier::Specifier;

verus! {

/// A value that can render itself as text under a format specifier.
///
/// This library decides which value is rendered and under which specifier;
/// how the text comes about is the value's own matter. The specifier that
/// `format` receives is complete: each of its seven axes holds a variant.
/// What is proved of rendering holds of a value whose `format` keeps the
/// contract below: the text depends on the value and the specifier alone.
pub trait FormattableValue {
    /// The text that this value renders itself as under `specifier`. An
    /// implementation says what that text is; where it does not, nothing is
    /// known of the text but that `format` returns it.
    open spec fn formatted(&self, specifier: Specifier) -> Seq<char> {
        arbitrary()
    }

    /// Renders this value under `specifier`, honoring its alignment, sign,
    /// alternate form, pad, width, precision and output kind.
    fn format(&self, specifier: &Specifier) -> (text: String)
        ensures
            text@ == self.formatted(*specifier),
    ;
}

} // verus!
