//! The version map of one call, and the context in which a decode call reads
//! it.

use vstd::prelude::*;
use crate::names::{lemma_position, lemma_position_is, position};

verus! {

/// The entries of a version map: type names with the version that each was
/// written with, in the order in which they were recorded.
pub type Entries = Seq<(Seq<char>, u32)>;

/// The version recorded for `name`, if there is one.
pub open spec fn lookup(entries: Entries, name: Seq<char>) -> Option<u32> {
    match position(entries, name) {
        Some(i) => Some(entries[i].1),
        None => None,
    }
}

/// The entries after `name -> version` was recorded: the entry for `name` is
/// replaced where it stands, or a new one is added at the end.
pub open spec fn recorded(entries: Entries, name: Seq<char>, version: u32) -> Entries {
    match position(entries, name) {
        Some(i) => entries.update(i, (name, version)),
        None => entries.push((name, version)),
    }
}

/// No name has two entries.
pub open spec fn distinct_names<T>(entries: Seq<(Seq<char>, T)>) -> bool {
    forall|i: int, j: int|
        0 <= i < j < entries.len() ==> (#[trigger] entries[i]).0 != (#[trigger] entries[j]).0
}

/// The version that a node called `name` is decoded with: the recorded one,
/// and 1 where there is no map or no entry for the name.
pub open spec fn version_in(context: Option<Entries>, name: Seq<char>) -> u32 {
    match context {
        Some(entries) => match lookup(entries, name) {
            Some(v) => v,
            None => 1,
        },
        None => 1,
    }
}

/// Recording keeps the names distinct, makes the recorded version the one
/// that is found for the name, and leaves every other name as it was.
pub proof fn lemma_recorded(entries: Entries, name: Seq<char>, version: u32)
    requires
        distinct_names(entries),
    ensures
        distinct_names(recorded(entries, name, version)),
        lookup(recorded(entries, name, version), name) == Some(version),
        forall|other: Seq<char>|
            other != name ==> #[trigger] lookup(recorded(entries, name, version), other) == lookup(
                entries,
                other,
            ),
{
    let after = recorded(entries, name, version);
    lemma_position(entries, name);
    lemma_position(after, name);
    match position(entries, name) {
        Some(i) => {
            assert(after[i].0 == name);
        },
        None => {
            assert(after[entries.len() as int].0 == name);
        },
    }
    assert forall|other: Seq<char>| other != name implies #[trigger] lookup(after, other) == lookup(
        entries,
        other,
    ) by {
        lemma_position(entries, other);
        lemma_position(after, other);
        match position(entries, other) {
            Some(k) => {
                assert(after[k] == entries[k]);
                match position(after, other) {
                    Some(m) => {
                        if m < k {
                            assert(after[m].0 == entries[m].0);
                        }
                    },
                    None => {},
                }
            },
            None => {
                match position(after, other) {
                    Some(m) => {
                        if m < entries.len() {
                            assert(after[m].0 == entries[m].0);
                        }
                    },
                    None => {},
                }
            },
        }
    }
}

/// The version map of one call: for each versioned type that was met, the
/// version that its values are written with.
#[derive(Debug, PartialEq, Eq)]
pub struct VersionMap {
    entries: Vec<(String, u32)>,
}

/// The views of a list of entries.
pub open spec fn entries_view(entries: Seq<(String, u32)>) -> Entries {
    Seq::new(entries.len(), |i: int| (entries[i].0@, entries[i].1))
}

impl View for VersionMap {
    type V = Entries;

    closed spec fn view(&self) -> Entries {
        entries_view(self.entries@)
    }
}

impl VersionMap {
    /// No name has two entries. A new map is so, and recording keeps it so.
    pub open spec fn wf(&self) -> bool {
        distinct_names(self@)
    }

    /// A map without entries.
    pub fn new() -> (map: VersionMap)
        ensures
            map@ == Entries::empty(),
            map.wf(),
    {
        let map = VersionMap { entries: Vec::new() };
        assert(map@ =~= Entries::empty());
        map
    }

    /// The number of entries.
    pub fn len(&self) -> (n: usize)
        ensures
            n == self@.len(),
    {
        self.entries.len()
    }

    /// The name of entry `i`.
    pub fn name_at(&self, i: usize) -> (name: &String)
        requires
            i < self@.len(),
        ensures
            name@ == self@[i as int].0,
    {
        &self.entries[i].0
    }

    /// The version of entry `i`.
    pub fn version_at(&self, i: usize) -> (version: u32)
        requires
            i < self@.len(),
        ensures
            version == self@[i as int].1,
    {
        self.entries[i].1
    }

    /// The place of the entry for `name`, if there is one.
    fn find(&self, name: &String) -> (found: Option<usize>)
        ensures
            match found {
                Some(i) => position(self@, name@) == Some(i as int) && i < self@.len(),
                None => position(self@, name@) is None,
            },
    {
        let mut i: usize = 0;
        while i < self.entries.len()
            invariant
                i <= self.entries.len(),
                forall|k: int| 0 <= k < i ==> (#[trigger] self@[k]).0 != name@,
            decreases self.entries.len() - i,
        {
            if self.entries[i].0 == *name {
                proof {
                    lemma_position_is(self@, name@, i as int);
                }
                return Some(i);
            }
            i += 1;
        }
        proof {
            lemma_position(self@, name@);
        }
        None
    }

    /// The version recorded for `name`, if there is one.
    pub fn get(&self, name: &String) -> (version: Option<u32>)
        ensures
            version == lookup(self@, name@),
    {
        match self.find(name) {
            Some(i) => Some(self.entries[i].1),
            None => None,
        }
    }

    /// Records `name -> version`: the entry for `name` is replaced where it
    /// stands, or a new one is added at the end.
    pub fn record(&mut self, name: &String, version: u32)
        ensures
            final(self)@ == recorded(old(self)@, name@, version),
            old(self).wf() ==> final(self).wf(),
    {
        proof {
            if self.wf() {
                lemma_recorded(self@, name@, version);
            }
        }
        match self.find(name) {
            Some(i) => {
                self.entries.set(i, (name.clone(), version));
                assert(self@ =~= recorded(old(self)@, name@, version));
            },
            None => {
                self.entries.push((name.clone(), version));
                assert(self@ =~= recorded(old(self)@, name@, version));
            },
        }
    }
}

/// What one decode call knows of versions: the version map that came with the
/// bytes, or nothing where they carried none. It is set when the call starts
/// and only read afterwards.
#[derive(Debug, PartialEq, Eq)]
pub struct DecodeContext {
    versions: Option<VersionMap>,
}

impl View for DecodeContext {
    type V = Option<Entries>;

    closed spec fn view(&self) -> Option<Entries> {
        match self.versions {
            Some(map) => Some(map@),
            None => None,
        }
    }
}

impl DecodeContext {
    /// The context of bytes that carry no version map.
    pub fn empty() -> (context: DecodeContext)
        ensures
            context@ == None::<Entries>,
    {
        DecodeContext { versions: None }
    }

    /// The context of bytes that came with `map`.
    pub fn with_versions(map: VersionMap) -> (context: DecodeContext)
        ensures
            context@ == Some(map@),
    {
        DecodeContext { versions: Some(map) }
    }

    /// The version that a node called `name` is decoded with: the recorded
    /// one, and 1 where there is no map or no entry for the name.
    pub fn version_of(&self, name: &String) -> (version: u32)
        ensures
            version == version_in(self@, name@),
    {
        match &self.versions {
            Some(map) => match map.get(name) {
                Some(v) => v,
                None => 1,
            },
            None => 1,
        }
    }
}

/// The version that a node called `name` is read as by a reader that may
/// stand outside any decode call: in a call, the version that the call's
/// context gives; outside, `newest`, since what is read there was written by
/// the reader's own build.
pub open spec fn version_read(context: Option<Option<Entries>>, name: Seq<char>, newest: u32) -> u32 {
    match context {
        Some(inside) => version_in(inside, name),
        None => newest,
    }
}

/// The version that a node called `name`, of a type whose newest version is
/// `newest`, is read as: what the context of the running decode call gives,
/// and `newest` where no decode call runs.
pub fn version_to_read(context: Option<&DecodeContext>, name: &String, newest: u32) -> (version: u32)
    ensures
        version == version_read(
            match context {
                Some(inside) => Some(inside@),
                None => None,
            },
            name@,
            newest,
        ),
{
    match context {
        Some(inside) => inside.version_of(name),
        None => newest,
    }
}

} // verus!
