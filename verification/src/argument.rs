//! The arguments of a format string.

use vstd::prelude::*;

use crate::grammar::Reference;
use crate::map::Lookup;
use crate::model::{resolve, ArgumentView};
use crate::specifier::Specifier;
use crate::value::FormattableValue;

verus! {

/// What an argument refers to, as the format string wrote it.
#[derive(Clone, Copy, Debug, PartialEq, Eq)]
pub enum ArgumentRef<'s> {
    /// `{}`: the next positional value that no earlier `{}` has taken.
    Next,
    /// `{3}`: the positional value at this index.
    Positional(usize),
    /// `{key}`: the named value under this key, a part of the format string.
    Named(&'s str),
}

impl<'s> View for ArgumentRef<'s> {
    type V = Reference;

    open spec fn view(&self) -> Reference {
        match *self {
            ArgumentRef::Next => Reference::Next,
            ArgumentRef::Positional(index) => Reference::Positional(index as nat),
            ArgumentRef::Named(key) => Reference::Named(key@),
        }
    }
}

impl<'s> ArgumentRef<'s> {
    /// Finds the value that this reference stands for, `next` empty
    /// references having been met before it.
    pub fn resolve<'a, V, M: Lookup<str, V>>(
        &self,
        next: usize,
        positional: &'a [V],
        named: &'a M,
    ) -> (value: Option<&'a V>)
        ensures
            value is Some <==> resolve(self@, next as nat, positional@, named.entries()) is Some,
            value is Some ==> *value->Some_0 == resolve(
                self@,
                next as nat,
                positional@,
                named.entries(),
            )->Some_0,
    {
        match *self {
            ArgumentRef::Next => if next < positional.len() {
                Some(&positional[next])
            } else {
                None
            },
            ArgumentRef::Positional(index) => if index < positional.len() {
                Some(&positional[index])
            } else {
                None
            },
            ArgumentRef::Named(key) => named.get(key),
        }
    }
}

/// One argument of a format string, resolved: it holds all that rendering
/// needs.
#[derive(Debug, PartialEq)]
pub struct Argument<'a, V: FormattableValue> {
    /// What the argument referred to.
    pub reference: ArgumentRef<'a>,
    /// How the value is to be rendered.
    pub specifier: Specifier,
    /// The value that the reference was resolved to.
    pub value: &'a V,
}

impl<'a, V: FormattableValue> Clone for Argument<'a, V> {
    fn clone(&self) -> (r: Self)
        ensures
            r == *self,
    {
        *self
    }
}

impl<'a, V: FormattableValue> Copy for Argument<'a, V> {

}

impl<'a, V: FormattableValue> View for Argument<'a, V> {
    type V = ArgumentView<V>;

    open spec fn view(&self) -> ArgumentView<V> {
        ArgumentView { reference: self.reference@, specifier: self.specifier, value: *self.value }
    }
}

impl<'a, V: FormattableValue> Argument<'a, V> {
    /// Renders the value under the specifier.
    pub fn to_string(&self) -> (text: String)
        ensures
            text@ == self.value.formatted(self.specifier),
    {
        self.value.format(&self.specifier)
    }
}

} // verus!
