use vstd::prelude::*;

verus! {

/// A JSON value as the Sheets API sends it. A number keeps the text that
/// stood for it, so that no precision is lost on the way through.
#[derive(Debug)]
pub enum JsonValue {
    Null,
    Bool(bool),
    Number(String),
    Str(String),
    Array(Vec<JsonValue>),
    Object(JsonObject),
}

/// A JSON object as an ordered list of key/value entries.
#[derive(Debug)]
pub struct JsonObject {
    pub entries: Vec<(String, JsonValue)>,
}

/// The keys of a list of entries, in entry order.
pub open spec fn entry_keys(entries: Seq<(String, JsonValue)>) -> Seq<Seq<char>> {
    entries.map_values(|e: (String, JsonValue)| e.0@)
}

/// Finds the entry with the given key; returns its position.
pub fn find_key(entries: &Vec<(String, JsonValue)>, key: &String) -> (pos: Option<usize>)
    ensures
        match pos {
            Some(i) => i < entries@.len() && entries@[i as int].0@ == key@,
            None => !entry_keys(entries@).contains(key@),
        },
{
    let n = entries.len();
    for i in 0..n
        invariant
            n == entries@.len(),
            forall|j: int| 0 <= j < i ==> entries@[j].0@ != key@,
    {
        if entries[i].0 == *key {
            return Some(i);
        }
    }
    proof {
        if entry_keys(entries@).contains(key@) {
            let j = choose|j: int| 0 <= j < entry_keys(entries@).len() && entry_keys(entries@)[j] == key@;
            assert(entries@[j].0@ == key@);
        }
    }
    None
}

impl JsonObject {
    /// The keys of the object, in entry order.
    pub open spec fn keys(self) -> Seq<Seq<char>> {
        entry_keys(self.entries@)
    }

    /// Does some entry have this key?
    pub open spec fn has_key(self, key: Seq<char>) -> bool {
        self.keys().contains(key)
    }

    /// An object is well formed when no key occurs twice.
    pub open spec fn wf(self) -> bool {
        self.keys().no_duplicates()
    }

    /// The number of entries of the object.
    pub fn len(&self) -> (n: usize)
        ensures
            n == self.entries@.len(),
    {
        self.entries.len()
    }

    /// The value stored under `key`, if the object has that key.
    pub fn get(&self, key: &String) -> (value: Option<&JsonValue>)
        ensures
            match value {
                Some(v) => exists|i: int|
                    0 <= i < self.entries@.len() && self.entries@[i].0@ == key@ && self.entries@[i].1
                        == *v,
                None => !self.has_key(key@),
            },
    {
        match find_key(&self.entries, key) {
            Some(i) => Some(&self.entries[i].1),
            None => None,
        }
    }
}

} // verus!
