//! The header fields of a message: a mapping from name to value that keeps the order in which
//! the names first came.

use crate::text::same_text;
use vstd::prelude::*;
use vstd::string::*;

verus! {

/// Whether `entries` holds an entry of the name `name`. Names are compared character by
/// character, so case matters.
pub open spec fn has_name(entries: Seq<(Seq<char>, Seq<char>)>, name: Seq<char>) -> bool {
    exists|i: int| 0 <= i < entries.len() && (#[trigger] entries[i]).0 == name
}

/// Where in `entries` an entry of the name `name` stands.
pub open spec fn index_of(entries: Seq<(Seq<char>, Seq<char>)>, name: Seq<char>) -> int {
    choose|i: int| 0 <= i < entries.len() && (#[trigger] entries[i]).0 == name
}

/// Whether no name occurs twice in `entries`.
pub open spec fn names_distinct(entries: Seq<(Seq<char>, Seq<char>)>) -> bool {
    forall|i: int, j: int|
        0 <= i < entries.len() && 0 <= j < entries.len() && i != j ==> (#[trigger] entries[i]).0 != (
        #[trigger] entries[j]).0
}

/// The value that `entries` gives to `name`, if any.
pub open spec fn lookup(entries: Seq<(Seq<char>, Seq<char>)>, name: Seq<char>) -> Option<
    Seq<char>,
> {
    if has_name(entries, name) {
        Some(entries[index_of(entries, name)].1)
    } else {
        None
    }
}

/// `entries` after `name` is set to `value`: the entry of that name is overwritten where it
/// stands, and a name that did not occur is added at the end.
pub open spec fn upsert(
    entries: Seq<(Seq<char>, Seq<char>)>,
    name: Seq<char>,
    value: Seq<char>,
) -> Seq<(Seq<char>, Seq<char>)> {
    if has_name(entries, name) {
        entries.update(index_of(entries, name), (name, value))
    } else {
        entries.push((name, value))
    }
}

/// Setting a name adds no second entry of any name.
pub proof fn lemma_upsert_keeps_names_distinct(
    entries: Seq<(Seq<char>, Seq<char>)>,
    name: Seq<char>,
    value: Seq<char>,
)
    requires
        names_distinct(entries),
    ensures
        names_distinct(upsert(entries, name, value)),
{
    let after = upsert(entries, name, value);
    assert forall|i: int, j: int|
        0 <= i < after.len() && 0 <= j < after.len() && i != j implies (#[trigger] after[i]).0
        != (#[trigger] after[j]).0 by {}
}

/// Header fields are a mapping: a name reads what was last set for it, and setting one name
/// changes the value of no other.
pub proof fn lemma_upsert_lookup(
    entries: Seq<(Seq<char>, Seq<char>)>,
    name: Seq<char>,
    value: Seq<char>,
    other: Seq<char>,
)
    requires
        names_distinct(entries),
    ensures
        lookup(upsert(entries, name, value), name) == Some(value),
        other != name ==> lookup(upsert(entries, name, value), other) == lookup(entries, other),
        has_name(upsert(entries, name, value), other) <==> other == name || has_name(
            entries,
            other,
        ),
{
    let after = upsert(entries, name, value);
    lemma_upsert_keeps_names_distinct(entries, name, value);
    let at = if has_name(entries, name) {
        index_of(entries, name)
    } else {
        entries.len() as int
    };
    assert(after[at] == (name, value));
    assert forall|i: int| 0 <= i < after.len() && i != at implies after[i] == entries[i] by {}
}

/// Header fields, in the order in which their names were first set. No name occurs twice:
/// setting a name again overwrites its value.
#[derive(Debug)]
pub struct Headers {
    entries: Vec<(String, String)>,
}

/// What each of `entries` reads.
spec fn read(entries: Seq<(String, String)>) -> Seq<(Seq<char>, Seq<char>)> {
    Seq::new(entries.len(), |i: int| (entries[i].0@, entries[i].1@))
}

impl View for Headers {
    type V = Seq<(Seq<char>, Seq<char>)>;

    closed spec fn view(&self) -> Self::V {
        read(self.entries@)
    }
}

impl Headers {
    /// What holds of every value of this type: no name occurs twice.
    #[verifier::type_invariant]
    pub open spec fn well_formed(&self) -> bool {
        names_distinct(self@)
    }

    /// No header field.
    pub fn new() -> (headers: Self)
        ensures
            headers@ == Seq::<(Seq<char>, Seq<char>)>::empty(),
    {
        Headers { entries: Vec::new() }
    }

    /// The number of header fields.
    pub fn len(&self) -> (n: usize)
        ensures
            n == self@.len(),
    {
        self.entries.len()
    }

    /// Where the field of the name `name` stands.
    fn position(&self, name: &str) -> (at: Option<usize>)
        ensures
            names_distinct(self@),
            match at {
                Some(i) => i < self@.len() && self@[i as int].0 == name@ && index_of(self@, name@)
                    == i,
                None => !has_name(self@, name@),
            },
    {
        proof {
            use_type_invariant(self);
        }
        let mut i: usize = 0;
        while i < self.entries.len()
            invariant
                i <= self.entries@.len(),
                self@.len() == self.entries@.len(),
                names_distinct(self@),
                forall|j: int| 0 <= j < i ==> (#[trigger] self@[j]).0 != name@,
            decreases self.entries@.len() - i,
        {
            if same_text(self.entries[i].0.as_str(), name) {
                return Some(i);
            }
            i += 1;
        }
        None
    }

    /// Sets the field `name` to `value`, overwriting the value that the name had.
    pub fn insert(&mut self, name: String, value: String)
        ensures
            final(self)@ == upsert(old(self)@, name@, value@),
    {
        let at = self.position(name.as_str());
        let ghost before = self@;
        let ghost set = (name@, value@);
        let mut entries: Vec<(String, String)> = Vec::new();
        core::mem::swap(&mut entries, &mut self.entries);
        match at {
            Some(i) => {
                entries.set(i, (name, value));
            },
            None => {
                entries.push((name, value));
            },
        }
        proof {
            match at {
                Some(i) => {
                    assert(read(entries@) =~= before.update(i as int, set));
                },
                None => {
                    assert(read(entries@) =~= before.push(set));
                },
            }
            lemma_upsert_keeps_names_distinct(before, name@, value@);
        }
        self.entries = entries;
    }

    /// The value of the field `name`.
    pub fn get(&self, name: &str) -> (value: Option<&String>)
        ensures
            match value {
                Some(v) => lookup(self@, name@) == Some(v@),
                None => lookup(self@, name@) is None,
            },
    {
        match self.position(name) {
            Some(i) => Some(&self.entries[i].1),
            None => None,
        }
    }

    /// The name of the field at index `i`.
    pub fn name_at(&self, i: usize) -> (name: &String)
        requires
            i < self@.len(),
        ensures
            name@ == self@[i as int].0,
    {
        &self.entries[i].0
    }

    /// The value of the field at index `i`.
    pub fn value_at(&self, i: usize) -> (value: &String)
        requires
            i < self@.len(),
        ensures
            value@ == self@[i as int].1,
    {
        &self.entries[i].1
    }
}

} // verus!
