use rustc_hash::FxBuildHasher;
use std::collections::HashMap;
use vstd::prelude::*;

verus! {

/// The hasher builder of `rustc_hash`, which the tables of this crate hash with.
#[verifier::external_type_specification]
#[verifier::external_body]
pub struct ExFxBuildHasher(FxBuildHasher);

/// `HashMap::get` on a map that hashes with `rustc_hash::FxBuildHasher`: the value
/// stored under the key, if the map holds the key.
#[verifier::external_body]
fn fx_get<V: Copy>(map: &HashMap<usize, V, FxBuildHasher>, key: usize) -> (value: Option<V>)
    ensures
        value == (if map@.contains_key(key) {
            Some(map@[key])
        } else {
            None
        }),
{
    map.get(&key).copied()
}

/// `HashMap::insert` on a map that hashes with `rustc_hash::FxBuildHasher`: afterwards
/// the key maps to the value and every other key is as it was.
#[verifier::external_body]
fn fx_insert<V>(map: &mut HashMap<usize, V, FxBuildHasher>, key: usize, value: V)
    ensures
        final(map)@ == old(map)@.insert(key, value),
{
    map.insert(key, value);
}

/// `HashMap::keys` on a map that hashes with `rustc_hash::FxBuildHasher`, collected:
/// every key of the map once, in an order that nothing is said about.
#[verifier::external_body]
fn fx_keys<V>(map: &HashMap<usize, V, FxBuildHasher>) -> (keys: Vec<usize>)
    ensures
        keys@.no_duplicates(),
        forall|k: usize| keys@.contains(k) <==> map@.contains_key(k),
{
    map.keys().copied().collect()
}

/// A hash table from object handles to values.
///
/// Its view is the map that it holds.
#[derive(Debug)]
pub struct Table<V> {
    map: HashMap<usize, V, FxBuildHasher>,
}

impl<V: Copy> Table<V> {
    /// The entries of the table.
    pub closed spec fn view(&self) -> Map<usize, V> {
        self.map@
    }

    /// Create an empty table.
    pub fn new() -> (table: Self)
        ensures
            table@ == Map::<usize, V>::empty(),
    {
        Table { map: HashMap::default() }
    }

    /// The value stored under `key`, if there is one.
    pub fn get(&self, key: usize) -> (value: Option<V>)
        ensures
            value == (if self@.contains_key(key) {
                Some(self@[key])
            } else {
                None
            }),
    {
        fx_get(&self.map, key)
    }

    /// Whether a value is stored under `key`.
    pub fn contains_key(&self, key: usize) -> (found: bool)
        ensures
            found == self@.contains_key(key),
    {
        fx_get(&self.map, key).is_some()
    }

    /// Store `value` under `key`, in place of what was stored there.
    pub fn insert(&mut self, key: usize, value: V)
        ensures
            final(self)@ == old(self)@.insert(key, value),
    {
        fx_insert(&mut self.map, key, value);
    }

    /// Every key of the table once, in no particular order.
    pub fn keys(&self) -> (keys: Vec<usize>)
        ensures
            keys@.no_duplicates(),
            forall|k: usize| keys@.contains(k) <==> self@.contains_key(k),
    {
        fx_keys(&self.map)
    }
}

/// What a table of interned strings holds: the handle stored under each text.
pub uninterp spec fn interned(map: HashMap<String, usize, FxBuildHasher>) -> Map<Seq<char>, usize>;

/// `HashMap::default` for a map from strings to handles that hashes with
/// `rustc_hash::FxBuildHasher`: a map that holds nothing.
#[verifier::external_body]
pub(crate) fn intern_new() -> (table: HashMap<String, usize, FxBuildHasher>)
    ensures
        forall|text: Seq<char>| !interned(table).contains_key(text),
{
    HashMap::default()
}

/// `HashMap::get` on such a map: the handle stored under the text, if the map holds
/// the text.
#[verifier::external_body]
pub(crate) fn intern_get(map: &HashMap<String, usize, FxBuildHasher>, text: &str) -> (handle:
    Option<usize>)
    ensures
        handle == (if interned(*map).contains_key(text@) {
            Some(interned(*map)[text@])
        } else {
            None
        }),
{
    map.get(text).copied()
}

/// `HashMap::insert` on such a map: afterwards the text maps to the handle and every
/// other text is as it was.
#[verifier::external_body]
pub(crate) fn intern_insert(
    map: &mut HashMap<String, usize, FxBuildHasher>,
    text: String,
    handle: usize,
)
    ensures
        interned(*final(map)) == interned(*old(map)).insert(text@, handle),
{
    map.insert(text, handle);
}

/// `HashMap::remove` on such a map: afterwards the map does not hold the text and
/// every other text is as it was.
#[verifier::external_body]
pub(crate) fn intern_remove(map: &mut HashMap<String, usize, FxBuildHasher>, text: &str)
    ensures
        interned(*final(map)) == interned(*old(map)).remove(text@),
{
    map.remove(text);
}

} // verus!
