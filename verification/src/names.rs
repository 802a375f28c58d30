//! Finding a name in a list of named things.

use vstd::prelude::*;

verus! {

/// The place of the first entry called `name`, if there is one.
pub open spec fn position<T>(entries: Seq<(Seq<char>, T)>, name: Seq<char>) -> Option<int>
    decreases entries.len(),
{
    if entries.len() == 0 {
        None
    } else {
        match position(entries.drop_last(), name) {
            Some(i) => Some(i),
            None => if entries.last().0 == name {
                Some(entries.len() - 1)
            } else {
                None
            },
        }
    }
}

/// `position` gives the first place at which the name stands, and `None` if
/// it stands nowhere.
pub proof fn lemma_position<T>(entries: Seq<(Seq<char>, T)>, name: Seq<char>)
    ensures
        match position(entries, name) {
            Some(i) => {
                &&& 0 <= i < entries.len()
                &&& entries[i].0 == name
                &&& forall|k: int| 0 <= k < i ==> (#[trigger] entries[k]).0 != name
            },
            None => forall|k: int| 0 <= k < entries.len() ==> (#[trigger] entries[k]).0 != name,
        },
    decreases entries.len(),
{
    if entries.len() > 0 {
        lemma_position(entries.drop_last(), name);
        match position(entries.drop_last(), name) {
            Some(i) => {
                assert forall|k: int| 0 <= k < i implies (#[trigger] entries[k]).0 != name by {
                    assert(entries.drop_last()[k].0 != name);
                }
            },
            None => {
                assert forall|k: int| 0 <= k < entries.len() - 1 implies (#[trigger] entries[k]).0 != name by {
                    assert(entries.drop_last()[k].0 != name);
                }
            },
        }
    }
}

/// A place at which the name stands, with no such place before it, is what
/// `position` gives.
pub proof fn lemma_position_is<T>(entries: Seq<(Seq<char>, T)>, name: Seq<char>, i: int)
    requires
        0 <= i < entries.len(),
        entries[i].0 == name,
        forall|k: int| 0 <= k < i ==> (#[trigger] entries[k]).0 != name,
    ensures
        position(entries, name) == Some(i),
{
    lemma_position(entries, name);
}

} // verus!
