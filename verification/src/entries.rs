//! Keys with their values, in the order in which the keys were first set:
//! what takes the place of a map from strings to strings.

use vstd::prelude::*;

verus! {

/// The index of the first of `keys` that equals `key`.
pub open spec fn first_index(keys: Seq<Seq<char>>, key: Seq<char>) -> Option<int>
    decreases keys.len(),
{
    if keys.len() == 0 {
        None
    } else {
        match first_index(keys.drop_last(), key) {
            Some(index) => Some(index),
            None => if keys.last() == key {
                Some(keys.len() - 1)
            } else {
                None
            },
        }
    }
}

/// The first index is an index of the key, with no equal key before it; and
/// there is none exactly where no key is equal.
pub proof fn lemma_first_index(keys: Seq<Seq<char>>, key: Seq<char>)
    ensures
        match first_index(keys, key) {
            Some(index) => 0 <= index < keys.len() && keys[index] == key && forall|k: int|
                0 <= k < index ==> keys[k] != key,
            None => forall|k: int| 0 <= k < keys.len() ==> keys[k] != key,
        },
    decreases keys.len(),
{
    if keys.len() > 0 {
        lemma_first_index(keys.drop_last(), key);
        match first_index(keys.drop_last(), key) {
            Some(index) => {
                assert(keys.drop_last()[index] == keys[index]);
                assert forall|k: int| 0 <= k < index implies keys[k] != key by {
                    assert(keys.drop_last()[k] == keys[k]);
                }
            },
            None => {
                assert forall|k: int| 0 <= k < keys.len() - 1 implies keys[k] != key by {
                    assert(keys.drop_last()[k] == keys[k]);
                }
            },
        }
    }
}

/// An index of the key with no equal key before it is the first index.
pub proof fn lemma_first_index_is(keys: Seq<Seq<char>>, key: Seq<char>, index: int)
    requires
        0 <= index < keys.len(),
        keys[index] == key,
        forall|k: int| 0 <= k < index ==> keys[k] != key,
    ensures
        first_index(keys, key) == Some(index),
{
    lemma_first_index(keys, key);
}

/// The keys of metadata entries.
pub open spec fn entry_keys(entries: Seq<(Seq<char>, Seq<char>)>) -> Seq<Seq<char>> {
    entries.map_values(|entry: (Seq<char>, Seq<char>)| entry.0)
}

/// The value that `entries` hold for `key`.
pub open spec fn value_of(entries: Seq<(Seq<char>, Seq<char>)>, key: Seq<char>) -> Option<
    Seq<char>,
> {
    match first_index(entry_keys(entries), key) {
        Some(index) => Some(entries[index].1),
        None => None,
    }
}

/// `entries` with `value` for `key`: in the place of the key's old value, or
/// at the end where the key is new.
pub open spec fn with_entry(
    entries: Seq<(Seq<char>, Seq<char>)>,
    key: Seq<char>,
    value: Seq<char>,
) -> Seq<(Seq<char>, Seq<char>)> {
    match first_index(entry_keys(entries), key) {
        Some(index) => entries.update(index, (key, value)),
        None => entries.push((key, value)),
    }
}

/// The index of the first entry of `entries` whose key is `key`.
pub fn find_key(entries: &Vec<(String, String)>, key: &str) -> (found: Option<usize>)
    ensures
        match found {
            Some(index) => first_index(entry_keys(entries.deep_view()), key@) == Some(
                index as int,
            ) && index < entries.len(),
            None => first_index(entry_keys(entries.deep_view()), key@) is None,
        },
{
    let sought = key.to_owned();
    let ghost keys = entry_keys(entries.deep_view());
    let mut i: usize = 0;
    while i < entries.len()
        invariant
            i <= entries.len(),
            sought@ == key@,
            keys == entry_keys(entries.deep_view()),
            forall|k: int| 0 <= k < i ==> keys[k] != key@,
        decreases entries.len() - i,
    {
        assert(keys[i as int] == entries[i as int].0@);
        if entries[i].0 == sought {
            proof {
                lemma_first_index_is(keys, key@, i as int);
            }
            return Some(i);
        }
        i += 1;
    }
    proof {
        lemma_first_index(keys, key@);
    }
    None
}

/// Sets `value` for `key`.
pub fn set_entry(entries: &mut Vec<(String, String)>, key: String, value: String)
    ensures
        final(entries).deep_view() == with_entry(old(entries).deep_view(), key@, value@),
{
    let ghost before = entries.deep_view();
    match find_key(entries, key.as_str()) {
        Some(index) => {
            entries.set(index, (key, value));
            assert(entries.deep_view() =~= before.update(index as int, (key@, value@)));
        },
        None => {
            entries.push((key, value));
            assert(entries.deep_view() =~= before.push((key@, value@)));
        },
    }
}

/// The value of `key`.
pub fn get_entry<'a>(entries: &'a Vec<(String, String)>, key: &str) -> (value: Option<&'a String>)
    ensures
        match value {
            Some(value) => value_of(entries.deep_view(), key@) == Some(value@),
            None => value_of(entries.deep_view(), key@) is None,
        },
{
    match find_key(entries, key) {
        Some(index) => {
            assert(entries.deep_view()[index as int].1 == entries[index as int].1@);
            Some(&entries[index].1)
        },
        None => None,
    }
}

/// After a value was set for a key, the key has that value, and every other
/// key has the value it had.
pub proof fn law_metadata_reads_what_was_set(
    entries: Seq<(Seq<char>, Seq<char>)>,
    key: Seq<char>,
    value: Seq<char>,
    other: Seq<char>,
)
    ensures
        value_of(with_entry(entries, key, value), key) == Some(value),
        other != key ==> value_of(with_entry(entries, key, value), other) == value_of(
            entries,
            other,
        ),
{
    let keys = entry_keys(entries);
    let after = with_entry(entries, key, value);
    lemma_first_index(keys, key);
    lemma_first_index(keys, other);
    match first_index(keys, key) {
        Some(index) => {
            assert(entry_keys(after) =~= keys);
        },
        None => {
            assert(entry_keys(after) =~= keys.push(key));
            lemma_first_index_is(entry_keys(after), key, keys.len() as int);
            if other != key {
                match first_index(keys, other) {
                    Some(at) => {
                        lemma_first_index_is(entry_keys(after), other, at);
                    },
                    None => {
                        lemma_first_index(entry_keys(after), other);
                    },
                }
            }
        },
    }
}

} // verus!
