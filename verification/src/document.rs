//! Property list documents, reduced to what an event database is made of.

use vstd::prelude::*;

use crate::dates::{check_dates, dates_in_range};
use crate::text::same_text;

verus! {

/// What a property list value holds, as far as an event database uses it.
///
/// Dictionary entries stand in document order. `Other` is every value that the
/// database format has no use for: arrays, booleans, data, dates, reals, uids
/// and integers that no `u64` can represent.
pub enum Tree {
    Dictionary(Seq<(Seq<char>, Tree)>),
    Text(Seq<char>),
    Unsigned(u64),
    Other,
}

/// Whether no key occurs twice in a dictionary.
pub open spec fn distinct_keys(entries: Seq<(Seq<char>, Tree)>) -> bool {
    forall|i: int, j: int|
        0 <= i < j < entries.len() ==> (#[trigger] entries[i]).0 != (#[trigger] entries[j]).0
}

impl Tree {
    /// Whether no key occurs twice in any dictionary of the tree.
    pub open spec fn well_keyed(self) -> bool
        decreases self,
    {
        match self {
            Tree::Dictionary(entries) => distinct_keys(entries) && forall|i: int|
                0 <= i < entries.len() ==> (#[trigger] entries[i]).1.well_keyed(),
            _ => true,
        }
    }
}

/// The value of the first entry under `key`.
pub open spec fn lookup(entries: Seq<(Seq<char>, Tree)>, key: Seq<char>) -> Option<Tree>
    decreases entries.len(),
{
    if entries.len() == 0 {
        None
    } else if entries[0].0 == key {
        Some(entries[0].1)
    } else {
        lookup(entries.drop_first(), key)
    }
}

/// The text under `key`: `None` where there is no such entry or it is no text.
pub open spec fn text_field(entries: Seq<(Seq<char>, Tree)>, key: Seq<char>) -> Option<Seq<char>> {
    match lookup(entries, key) {
        Some(Tree::Text(text)) => Some(text),
        _ => None,
    }
}

/// The number under `key`: `None` where there is no such entry or it is no number.
pub open spec fn unsigned_field(entries: Seq<(Seq<char>, Tree)>, key: Seq<char>) -> Option<u64> {
    match lookup(entries, key) {
        Some(Tree::Unsigned(number)) => Some(number),
        _ => None,
    }
}

/// The dictionary under `key`: `None` where there is no such entry or it is no dictionary.
pub open spec fn dictionary_field(entries: Seq<(Seq<char>, Tree)>, key: Seq<char>) -> Option<
    Seq<(Seq<char>, Tree)>,
> {
    match lookup(entries, key) {
        Some(Tree::Dictionary(fields)) => Some(fields),
        _ => None,
    }
}

/// A property list value, with the same four cases as [`Tree`].
#[derive(Debug)]
pub enum Plist {
    Dictionary(Vec<(String, Plist)>),
    Text(String),
    Unsigned(u64),
    Other,
}

impl Plist {
    /// The value as a [`Tree`].
    pub open spec fn tree(self) -> Tree
        decreases self,
    {
        match self {
            Plist::Dictionary(entries) => Tree::Dictionary(
                Seq::new(
                    entries@.len(),
                    |i: int|
                        if 0 <= i < entries@.len() {
                            (entries@[i].0@, entries@[i].1.tree())
                        } else {
                            arbitrary()
                        },
                ),
            ),
            Plist::Text(text) => Tree::Text(text@),
            Plist::Unsigned(number) => Tree::Unsigned(number),
            Plist::Other => Tree::Other,
        }
    }
}

/// The keys and trees of dictionary entries.
pub open spec fn entry_trees(entries: Seq<(String, Plist)>) -> Seq<(Seq<char>, Tree)> {
    Seq::new(entries.len(), |i: int| (entries[i].0@, entries[i].1.tree()))
}

/// A dictionary's tree is made of its entries' keys and trees.
pub proof fn lemma_dictionary_tree(entries: Vec<(String, Plist)>)
    ensures
        Plist::Dictionary(entries).tree() == Tree::Dictionary(entry_trees(entries@)),
{
    assert(Plist::Dictionary(entries).tree()->Dictionary_0 =~= entry_trees(entries@));
}

/// The entry at `at` is the first under its key.
pub proof fn lemma_lookup(entries: Seq<(Seq<char>, Tree)>, key: Seq<char>, at: int)
    requires
        0 <= at <= entries.len(),
        forall|k: int| 0 <= k < at ==> (#[trigger] entries[k]).0 != key,
    ensures
        at < entries.len() && entries[at].0 == key ==> lookup(entries, key) == Some(entries[at].1),
        at == entries.len() ==> lookup(entries, key) is None,
    decreases entries.len(),
{
    if at > 0 {
        let rest = entries.drop_first();
        assert forall|k: int| 0 <= k < at - 1 implies (#[trigger] rest[k]).0 != key by {
            assert(rest[k] == entries[k + 1]);
        }
        lemma_lookup(rest, key, at - 1);
    }
}

/// An entry under another key does not matter.
pub proof fn lemma_lookup_other(entries: Seq<(Seq<char>, Tree)>, key: Seq<char>)
    requires
        entries.len() > 0,
        entries.last().0 != key,
    ensures
        lookup(entries, key) == lookup(entries.drop_last(), key),
    decreases entries.len(),
{
    reveal_with_fuel(lookup, 2);
    if entries.len() > 1 && entries[0].0 != key {
        lemma_lookup_other(entries.drop_first(), key);
        assert(entries.drop_first().drop_last() =~= entries.drop_last().drop_first());
    }
}

impl Plist {
    /// The entries, where the value is a dictionary.
    pub fn as_dictionary(&self) -> (result: Option<&Vec<(String, Plist)>>)
        ensures
            match self.tree() {
                Tree::Dictionary(fields) => result matches Some(entries) && entry_trees(entries@)
                    == fields,
                _ => result is None,
            },
    {
        match self {
            Plist::Dictionary(entries) => {
                proof {
                    lemma_dictionary_tree(*entries);
                }
                Some(entries)
            },
            _ => None,
        }
    }
}

/// The value of the first entry under `key`.
pub fn get<'a>(entries: &'a Vec<(String, Plist)>, key: &str) -> (result: Option<&'a Plist>)
    ensures
        match lookup(entry_trees(entries@), key@) {
            Some(tree) => result matches Some(value) && value.tree() == tree,
            None => result is None,
        },
{
    let ghost trees = entry_trees(entries@);
    let mut at: usize = 0;
    while at < entries.len()
        invariant
            at <= entries@.len(),
            trees == entry_trees(entries@),
            forall|k: int| 0 <= k < at ==> (#[trigger] trees[k]).0 != key@,
        decreases entries@.len() - at,
    {
        if same_text(entries[at].0.as_str(), key) {
            proof {
                lemma_lookup(trees, key@, at as int);
            }
            return Some(&entries[at].1);
        }
        at += 1;
    }
    proof {
        lemma_lookup(trees, key@, at as int);
    }
    None
}

/// The text under `key`.
pub fn get_text<'a>(entries: &'a Vec<(String, Plist)>, key: &str) -> (result: Option<&'a str>)
    ensures
        match text_field(entry_trees(entries@), key@) {
            Some(text) => result matches Some(found) && found@ == text,
            None => result is None,
        },
{
    match get(entries, key) {
        Some(Plist::Text(text)) => Some(text.as_str()),
        _ => None,
    }
}

/// The number under `key`.
pub fn get_unsigned(entries: &Vec<(String, Plist)>, key: &str) -> (result: Option<u64>)
    ensures
        result == unsigned_field(entry_trees(entries@), key@),
{
    match get(entries, key) {
        Some(Plist::Unsigned(number)) => Some(*number),
        _ => None,
    }
}

/// The dictionary under `key`.
pub fn get_dictionary<'a>(entries: &'a Vec<(String, Plist)>, key: &str) -> (result: Option<
    &'a Vec<(String, Plist)>,
>)
    ensures
        match dictionary_field(entry_trees(entries@), key@) {
            Some(fields) => result matches Some(found) && entry_trees(found@) == fields,
            None => result is None,
        },
{
    match get(entries, key) {
        Some(value) => value.as_dictionary(),
        None => None,
    }
}

/// `plist::Value`: any property list value. [`value_tree`] says what it holds.
#[verifier::external_type_specification]
#[verifier::external_body]
pub struct ExValue(plist::Value);

/// `plist::Dictionary`: a map of keys to values that keeps the order in which
/// they were put in. [`dictionary_entries`] says what it holds.
#[verifier::external_type_specification]
#[verifier::external_body]
pub struct ExDictionary(plist::Dictionary);

/// What a `plist::Dictionary` holds, in its iteration order.
pub uninterp spec fn dictionary_entries(dictionary: plist::Dictionary) -> Seq<(Seq<char>, Tree)>;

/// What a `plist::Value` holds: its entries, its string or its integer where it
/// is a dictionary, a string or an integer that a `u64` can represent.
pub uninterp spec fn value_tree(value: plist::Value) -> Tree;

/// What the property list reader makes of a document in which it comes to no date
/// past its range: the value, or the text of its error.
pub uninterp spec fn document_tree(bytes: Seq<u8>) -> Result<Tree, Seq<char>>;

/// `plist::Value::as_dictionary` gives the dictionary where the value is one,
/// and nothing otherwise.
pub assume_specification[ plist::Value::as_dictionary ](value: &plist::Value) -> (result: Option<
    &plist::Dictionary,
>)
    ensures
        match value_tree(*value) {
            Tree::Dictionary(entries) => result matches Some(dictionary)
                && dictionary_entries(*dictionary) == entries,
            _ => result is None,
        },
;

/// `plist::Value::as_string` gives the string where the value is one, and
/// nothing otherwise.
pub assume_specification[ plist::Value::as_string ](value: &plist::Value) -> (result: Option<&str>)
    ensures
        match value_tree(*value) {
            Tree::Text(text) => result matches Some(string) && string@ == text,
            _ => result is None,
        },
;

/// `plist::Value::as_unsigned_integer` gives the integer where the value is one
/// and a `u64` can represent it, and nothing otherwise.
pub assume_specification[ plist::Value::as_unsigned_integer ](value: &plist::Value) -> (result:
    Option<u64>)
    ensures
        match value_tree(*value) {
            Tree::Unsigned(number) => result == Some(number),
            _ => result is None,
        },
;

/// The entries of a dictionary.
///
/// `plist::Dictionary::iter` gives each key with its value once, in the
/// dictionary's order. No key occurs twice: a dictionary is a map.
#[verifier::external_body]
fn entries_of(dictionary: &plist::Dictionary) -> (result: Vec<(&String, &plist::Value)>)
    ensures
        result@.len() == dictionary_entries(*dictionary).len(),
        forall|i: int|
            0 <= i < result@.len() ==> (#[trigger] result@[i]).0@ == dictionary_entries(
                *dictionary,
            )[i].0 && value_tree(*result@[i].1) == dictionary_entries(*dictionary)[i].1,
        forall|i: int, j: int|
            0 <= i < j < result@.len() ==> (#[trigger] result@[i]).0@ != (#[trigger] result@[j]).0@,
{
    dictionary.iter().collect()
}

/// Reads a property list document.
///
/// `plist::Value::from_reader` takes the bytes for a binary, an XML or an ASCII
/// property list, by how they begin, and gives the value that the document is,
/// or an error, of which the text is kept. Either depends on the bytes alone. A
/// date past the year 9999 in UTC makes its XML reader panic, so it is given no
/// document in which that comes to one. Left unsaid are a document so large or
/// so deeply nested that memory or stack run out, a binary document whose
/// dictionaries share so many parts that reading it takes too long, and a
/// platform whose `SystemTime` does not reach from the year 0 to the year 9999,
/// as that of any Unix does.
#[verifier::external_body]
fn read_value(bytes: &[u8]) -> (result: Result<plist::Value, String>)
    requires
        dates_in_range(bytes@),
    ensures
        match result {
            Ok(value) => document_tree(bytes@) == Ok::<Tree, Seq<char>>(value_tree(value)),
            Err(text) => document_tree(bytes@) == Err::<Tree, Seq<char>>(text@),
        },
{
    plist::Value::from_reader(std::io::Cursor::new(bytes)).map_err(|error| error.to_string())
}

/// What reading a document gives: its value, or the text of an error. A document
/// in which the reader would come to a date past the year 9999 is an error.
pub open spec fn read_tree(bytes: Seq<u8>) -> Result<Tree, Seq<char>> {
    if dates_in_range(bytes) {
        document_tree(bytes)
    } else {
        Err("a date lies past the year 9999"@)
    }
}

impl Plist {
    /// Takes over what a `plist::Value` holds.
    pub fn from_value(value: &plist::Value) -> (result: Plist)
        ensures
            result.tree() == value_tree(*value),
            result.tree().well_keyed(),
        decreases value_tree(*value),
    {
        if let Some(dictionary) = value.as_dictionary() {
            let entries = entries_of(dictionary);
            let mut converted: Vec<(String, Plist)> = Vec::new();
            let mut i: usize = 0;
            while i < entries.len()
                invariant
                    i <= entries@.len(),
                    converted@.len() == i,
                    value_tree(*value) == Tree::Dictionary(dictionary_entries(*dictionary)),
                    entries@.len() == dictionary_entries(*dictionary).len(),
                    forall|k: int|
                        0 <= k < entries@.len() ==> (#[trigger] entries@[k]).0@
                            == dictionary_entries(*dictionary)[k].0 && value_tree(*entries@[k].1)
                            == dictionary_entries(*dictionary)[k].1,
                    forall|k: int|
                        0 <= k < i ==> (#[trigger] converted@[k]).0@ == dictionary_entries(
                            *dictionary,
                        )[k].0 && converted@[k].1.tree() == dictionary_entries(*dictionary)[k].1
                            && converted@[k].1.tree().well_keyed(),
                    forall|j: int, k: int|
                        0 <= j < k < entries@.len() ==> (#[trigger] entries@[j]).0@ != (
                        #[trigger] entries@[k]).0@,
                decreases entries@.len() - i,
            {
                let (key, entry) = entries[i];
                proof {
                    let tree = value_tree(*value);
                    assert(decreases_to!(tree => tree->Dictionary_0));
                    assert(decreases_to!(tree->Dictionary_0 => tree->Dictionary_0[i as int]));
                    assert(decreases_to!(tree->Dictionary_0[i as int] => tree->Dictionary_0[i as int].1));
                }
                converted.push((key.clone(), Plist::from_value(entry)));
                i += 1;
            }
            let result = Plist::Dictionary(converted);
            proof {
                let fields = dictionary_entries(*dictionary);
                assert(result.tree()->Dictionary_0 =~= fields);
                assert forall|j: int, k: int| 0 <= j < k < fields.len() implies (
                #[trigger] fields[j]).0 != (#[trigger] fields[k]).0 by {
                    assert(entries@[j].0@ == fields[j].0 && entries@[k].0@ == fields[k].0);
                }
                assert forall|k: int| 0 <= k < fields.len() implies (
                #[trigger] fields[k]).1.well_keyed() by {
                    assert(converted@[k].1.tree() == fields[k].1);
                }
            }
            result
        } else if let Some(text) = value.as_string() {
            Plist::Text(text.to_owned())
        } else if let Some(number) = value.as_unsigned_integer() {
            Plist::Unsigned(number)
        } else {
            Plist::Other
        }
    }

    /// Reads a property list document in any of its encodings.
    pub fn from_bytes(bytes: &[u8]) -> (result: Result<Plist, String>)
        ensures
            match result {
                Ok(value) => read_tree(bytes@) == Ok::<Tree, Seq<char>>(value.tree())
                    && value.tree().well_keyed(),
                Err(text) => read_tree(bytes@) == Err::<Tree, Seq<char>>(text@),
            },
    {
        if !check_dates(bytes) {
            return Err("a date lies past the year 9999".to_owned());
        }
        match read_value(bytes) {
            Ok(value) => Ok(Plist::from_value(&value)),
            Err(text) => Err(text),
        }
    }
}

} // verus!
