//! Documents: the trees in which values are handed to this library and given
//! back by it.

use vstd::prelude::*;
use crate::names::{lemma_position, lemma_position_is, position};

verus! {

/// A document tree: the form in which a value travels between this library and
/// the serialization layer that turns it into bytes.
#[derive(Debug, PartialEq, Eq)]
pub enum Value {
    /// The absent value of an optional position.
    Null,
    /// A truth value.
    Bool(bool),
    /// An unsigned integer.
    UInt(u64),
    /// A signed integer.
    Int(i64),
    /// A binary fraction, held as the 64 bits in which it is stored.
    Real(u64),
    /// A piece of text.
    Text(String),
    /// A sequence of values.
    List(Vec<Value>),
    /// A record: named members, in the order in which they were written.
    Record(Vec<(String, Value)>),
}

/// The mathematical content of a [`Value`].
pub ghost enum ValueView {
    Null,
    Bool(bool),
    UInt(u64),
    Int(i64),
    Real(u64),
    Text(Seq<char>),
    List(Seq<ValueView>),
    Record(Seq<(Seq<char>, ValueView)>),
}

impl View for Value {
    type V = ValueView;

    open spec fn view(&self) -> ValueView
        decreases self,
    {
        match self {
            Value::Null => ValueView::Null,
            Value::Bool(b) => ValueView::Bool(*b),
            Value::UInt(n) => ValueView::UInt(*n),
            Value::Int(n) => ValueView::Int(*n),
            Value::Real(bits) => ValueView::Real(*bits),
            Value::Text(s) => ValueView::Text(s@),
            Value::List(items) => ValueView::List(items_view(items@)),
            Value::Record(members) => ValueView::Record(members_view(members@)),
        }
    }
}

/// The views of the items of a list.
pub open spec fn items_view(items: Seq<Value>) -> Seq<ValueView>
    decreases items,
{
    Seq::new(items.len(), |i: int| if 0 <= i < items.len() { items[i]@ } else { ValueView::Null })
}

/// The views of the members of a record.
pub open spec fn members_view(members: Seq<(String, Value)>) -> Seq<(Seq<char>, ValueView)>
    decreases members,
{
    Seq::new(
        members.len(),
        |i: int|
            if 0 <= i < members.len() {
                (members[i].0@, members[i].1@)
            } else {
                (Seq::empty(), ValueView::Null)
            },
    )
}

impl Value {
    /// A copy of the whole tree.
    pub fn deep_clone(&self) -> (copy: Value)
        ensures
            copy@ == self@,
        decreases self,
    {
        match self {
            Value::Null => Value::Null,
            Value::Bool(b) => Value::Bool(*b),
            Value::UInt(n) => Value::UInt(*n),
            Value::Int(n) => Value::Int(*n),
            Value::Real(bits) => Value::Real(*bits),
            Value::Text(s) => Value::Text(s.clone()),
            Value::List(items) => {
                let mut out: Vec<Value> = Vec::new();
                let mut i: usize = 0;
                while i < items.len()
                    invariant
                        *self == Value::List(*items),
                        i <= items.len(),
                        out.len() == i,
                        forall|j: int| 0 <= j < i ==> out[j]@ == items[j]@,
                    decreases items.len() - i,
                {
                    assert(decreases_to!(self => items[i as int])) by {
                        assert(decreases_to!(*self => (*self)->List_0));
                        assert(decreases_to!(items => items@));
                        assert(decreases_to!(items@ => items@[i as int]));
                    }
                    let item = items[i].deep_clone();
                    out.push(item);
                    i += 1;
                }
                proof {
                    assert(items_view(out@) =~= items_view(items@));
                }
                Value::List(out)
            },
            Value::Record(members) => {
                let mut out: Vec<(String, Value)> = Vec::new();
                let mut i: usize = 0;
                while i < members.len()
                    invariant
                        *self == Value::Record(*members),
                        i <= members.len(),
                        out.len() == i,
                        forall|j: int| 0 <= j < i ==> out[j].0@ == members[j].0@ && out[j].1@ == members[j].1@,
                    decreases members.len() - i,
                {
                    let name = members[i].0.clone();
                    assert(decreases_to!(self => members[i as int].1)) by {
                        assert(decreases_to!(*self => (*self)->Record_0));
                        assert(decreases_to!(members => members@));
                        assert(decreases_to!(members@ => members@[i as int]));
                        assert(decreases_to!(members@[i as int] => members@[i as int].1));
                    }
                    let item = members[i].1.deep_clone();
                    out.push((name, item));
                    i += 1;
                }
                proof {
                    assert(members_view(out@) =~= members_view(members@));
                }
                Value::Record(out)
            },
        }
    }
}

/// The value of the first member of `x` called `name`; nothing if `x` has no
/// such member or is no record.
pub open spec fn member_of(x: ValueView, name: Seq<char>) -> Option<ValueView> {
    match x {
        ValueView::Record(members) => match position(members, name) {
            Some(i) => Some(members[i].1),
            None => None,
        },
        _ => None,
    }
}

impl Value {
    /// The value of the first member called `name`, if this is a record that
    /// has one.
    pub fn member(&self, name: &String) -> (found: Option<&Value>)
        ensures
            match found {
                Some(x) => member_of(self@, name@) == Some(x@),
                None => member_of(self@, name@) is None,
            },
    {
        match self {
            Value::Record(members) => {
                match find_member(members, name) {
                    Some(i) => Some(&members[i].1),
                    None => None,
                }
            },
            _ => None,
        }
    }
}

/// The place of the first member called `name`, if there is one.
pub fn find_member(members: &Vec<(String, Value)>, name: &String) -> (found: Option<usize>)
    ensures
        match found {
            Some(i) => i < members.len() && position(members_view(members@), name@) == Some(i as int),
            None => position(members_view(members@), name@) is None,
        },
{
    let ghost names = members_view(members@);
    let mut i: usize = 0;
    while i < members.len()
        invariant
            i <= members.len(),
            names == members_view(members@),
            forall|k: int| 0 <= k < i ==> (#[trigger] names[k]).0 != name@,
        decreases members.len() - i,
    {
        if members[i].0 == *name {
            proof {
                lemma_position_is(names, name@, i as int);
            }
            return Some(i);
        }
        i += 1;
    }
    proof {
        lemma_position(names, name@);
    }
    None
}

} // verus!
