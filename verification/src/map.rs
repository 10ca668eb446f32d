//! Where named arguments come from.

use std::collections::HashMap;
use std::hash::Hash;

use vstd::prelude::*;

verus! {

/// A source of values: anything that can look a value up by its key.
///
/// A format string looks its named arguments up in a `Lookup<str, V>`. What
/// is proved of reading a format string holds of a source whose `get` keeps
/// the contract below: it answers by the key alone, the same key always in
/// the same way.
pub trait Lookup<Q, V> where Q: Hash + Eq + View + ?Sized {
    /// The values that this source holds, by what their keys look like. An
    /// implementation says what they are; where it does not, nothing is known
    /// of them but that `get` answers by them.
    open spec fn entries(&self) -> Map<Q::V, V> {
        arbitrary()
    }

    /// The value under `key`, if this source holds one.
    fn get(&self, key: &Q) -> (value: Option<&V>)
        ensures
            value is Some <==> self.entries().contains_key(key@),
            value is Some ==> *value->Some_0 == self.entries()[key@],
    ;
}

/// The source that holds no value: for format strings without named
/// arguments.
#[derive(Clone, Copy, Debug, PartialEq, Eq, Structural)]
pub struct NoMap;

impl<Q, V> Lookup<Q, V> for NoMap where Q: Hash + Eq + View + ?Sized {
    open spec fn entries(&self) -> Map<Q::V, V> {
        Map::empty()
    }

    fn get(&self, key: &Q) -> (value: Option<&V>) {
        None
    }
}

/// The values of a hash map with string keys, by the text of their keys.
pub open spec fn text_entries<V>(map: HashMap<String, V>) -> Map<Seq<char>, V> {
    Map::new(
        |text: Seq<char>| exists|key: String| #[trigger] map@.contains_key(key) && key@ == text,
        |text: Seq<char>| map@[choose|key: String| #[trigger] map@.contains_key(key) && key@ == text],
    )
}

/// `HashMap::get` of std, on a map with `String` keys and the default hasher,
/// asked with a `&str`. The contract claims what std documents: the result is
/// the value stored under the key whose text equals `key`, and `None` if the
/// map holds no such key.
#[verifier::external_body]
fn stored<'a, V>(map: &'a HashMap<String, V>, key: &str) -> (value: Option<&'a V>)
    ensures
        value is Some <==> text_entries(*map).contains_key(key@),
        value is Some ==> *value->Some_0 == text_entries(*map)[key@],
{
    map.get(key)
}

impl<V> Lookup<str, V> for HashMap<String, V> {
    open spec fn entries(&self) -> Map<Seq<char>, V> {
        text_entries(*self)
    }

    fn get(&self, key: &str) -> (value: Option<&V>) {
        stored(self, key)
    }
}

} // verus!
