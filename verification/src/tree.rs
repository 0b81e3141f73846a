//! The mathematical model of a structured value: a tree of ordered mappings
//! and text scalars.
use vstd::prelude::*;

verus! {

/// A structured value as a mathematical object.
pub enum Tree {
    /// Entries in insertion order, keyed by element name.
    Mapping(Seq<(Seq<char>, Tree)>),
    /// Text content.
    Scalar(Seq<char>),
}

/// The entries of a mapping, in insertion order.
pub type Entries = Seq<(Seq<char>, Tree)>;

/// The mapping without entries.
pub open spec fn empty_tree() -> Tree {
    Tree::Mapping(Seq::empty())
}

/// The first position in `entries` that holds `key`, or `entries.len()` where
/// no entry holds it.
pub open spec fn key_index(entries: Entries, key: Seq<char>) -> int
    decreases entries.len(),
{
    if entries.len() == 0 {
        0
    } else if entries[0].0 == key {
        0
    } else {
        1 + key_index(entries.skip(1), key)
    }
}

/// Whether some entry holds `key`.
pub open spec fn has_key(entries: Entries, key: Seq<char>) -> bool {
    key_index(entries, key) < entries.len()
}

/// The value stored under `key`, if any.
pub open spec fn lookup(entries: Entries, key: Seq<char>) -> Option<Tree> {
    if has_key(entries, key) {
        Some(entries[key_index(entries, key)].1)
    } else {
        None
    }
}

/// `entries` after storing `value` under `key`: an entry that already holds
/// `key` keeps its place and gets the new value; otherwise the pair goes to
/// the end.
pub open spec fn put(entries: Entries, key: Seq<char>, value: Tree) -> Entries {
    if has_key(entries, key) {
        entries.update(key_index(entries, key), (key, value))
    } else {
        entries.push((key, value))
    }
}

/// `key_index` is the first position that holds the key.
pub proof fn lemma_key_index(entries: Entries, key: Seq<char>)
    ensures
        0 <= key_index(entries, key) <= entries.len(),
        has_key(entries, key) ==> entries[key_index(entries, key)].0 == key,
        forall|j: int| 0 <= j < key_index(entries, key) ==> (#[trigger] entries[j]).0 != key,
    decreases entries.len(),
{
    if entries.len() > 0 && entries[0].0 != key {
        let rest = entries.skip(1);
        lemma_key_index(rest, key);
        assert forall|j: int| 0 <= j < key_index(entries, key) implies (#[trigger] entries[j]).0
            != key by {
            if j > 0 {
                assert(entries[j] == rest[j - 1]);
            }
        }
    }
}

/// A position that holds the key, with no earlier one that does, is
/// `key_index`; so is `entries.len()` where no position holds it.
pub proof fn lemma_key_index_is(entries: Entries, key: Seq<char>, i: int)
    requires
        0 <= i <= entries.len(),
        forall|j: int| 0 <= j < i ==> (#[trigger] entries[j]).0 != key,
        i < entries.len() ==> entries[i].0 == key,
    ensures
        key_index(entries, key) == i,
    decreases entries.len(),
{
    if entries.len() > 0 && i > 0 {
        let rest = entries.skip(1);
        lemma_key_index_is(rest, key, i - 1);
    }
}

/// Storing under a key that no entry holds appends the pair.
pub proof fn lemma_put_absent(entries: Entries, key: Seq<char>, value: Tree)
    requires
        forall|j: int| 0 <= j < entries.len() ==> (#[trigger] entries[j]).0 != key,
    ensures
        put(entries, key, value) == entries.push((key, value)),
{
    lemma_key_index_is(entries, key, entries.len() as int);
}

/// Last write wins: after storing under a key, looking the key up gives the
/// value just stored, and every other key gives what it gave before.
pub proof fn lemma_lookup_after_put(
    entries: Entries,
    key: Seq<char>,
    value: Tree,
    other: Seq<char>,
)
    ensures
        lookup(put(entries, key, value), key) == Some(value),
        other != key ==> lookup(put(entries, key, value), other) == lookup(entries, other),
{
    let after = put(entries, key, value);
    let i = key_index(entries, key);
    lemma_key_index(entries, key);
    lemma_key_index_is(after, key, i);
    if other != key {
        let k = key_index(entries, other);
        lemma_key_index(entries, other);
        if k < entries.len() {
            lemma_key_index_is(after, other, k);
        } else {
            lemma_key_index_is(after, other, after.len() as int);
        }
    }
}

/// Storing keeps every entry in its place: the keys that were there stay
/// where they were, and at most one entry is added, at the end.
pub proof fn lemma_put_keeps_order(entries: Entries, key: Seq<char>, value: Tree)
    ensures
        entries.len() <= put(entries, key, value).len() <= entries.len() + 1,
        forall|j: int|
            0 <= j < entries.len() ==> (#[trigger] put(entries, key, value)[j]).0 == entries[j].0,
        forall|j: int|
            0 <= j < entries.len() && entries[j].0 != key ==> #[trigger] put(entries, key, value)[j]
                == entries[j],
{
    lemma_key_index(entries, key);
}

} // verus!
