//! Encoding: a dry pass that harvests the version map of a whole tree, then
//! the envelope that carries the map beside the value.

use vstd::prelude::*;
use crate::names::position;
use crate::registry::Registry;
use crate::schema::{FieldKind, SchemaView};
use crate::value::{find_member, items_view, members_view, Value, ValueView};
use crate::versions::{recorded, Entries, VersionMap};

verus! {

/// Whether the version map travels with the value.
#[derive(Debug, PartialEq, Eq, Clone, Copy)]
pub enum Mode {
    /// The value is wrapped in an envelope that holds the version map.
    Versioned,
    /// The bare value, for a reader of the same build.
    Unversioned,
}

/// The version map after the dry pass over `x`, a value of kind `kind`,
/// started with the map `seen`.
///
/// Every versioned node that is met records its type's name with the type's
/// newest version and then has its fields walked, in the order of their
/// declaration. An absent optional value, a value that is not what its kind
/// asks for, and a kind that names a type outside the registry are passed
/// over.
pub open spec fn harvested(types: Seq<SchemaView>, kind: FieldKind, x: ValueView, seen: Entries) -> Entries
    decreases x, 0nat, kind,
{
    match kind {
        FieldKind::Plain => seen,
        FieldKind::Optional(inner) => if x is Null {
            seen
        } else {
            harvested(types, *inner, x, seen)
        },
        FieldKind::List(inner) => match x {
            ValueView::List(items) => harvested_items(types, *inner, items, items.len(), seen),
            _ => seen,
        },
        FieldKind::Versioned(t) => if t < types.len() {
            let schema = types[t as int];
            let here = recorded(seen, schema.name, schema.max_version());
            match x {
                ValueView::Record(members) => harvested_fields(types, t as int, members, schema.fields.len(), here),
                _ => here,
            }
        } else {
            seen
        },
    }
}

/// The version map after the dry pass over the first `n` items of a list.
pub open spec fn harvested_items(
    types: Seq<SchemaView>,
    kind: FieldKind,
    items: Seq<ValueView>,
    n: nat,
    seen: Entries,
) -> Entries
    decreases items, n, FieldKind::Plain,
{
    if n == 0 || n > items.len() {
        seen
    } else {
        harvested(types, kind, items[n - 1], harvested_items(types, kind, items, (n - 1) as nat, seen))
    }
}

/// The version map after the dry pass over the members of a node of type `t`
/// that stand for the first `n` declared fields. Only the fields of the
/// newest version are looked for, each by its name.
///
/// `position` gives places in `members` only; the bounds on the place are
/// written out so that the definition is seen to end.
pub open spec fn harvested_fields(
    types: Seq<SchemaView>,
    t: int,
    members: Seq<(Seq<char>, ValueView)>,
    n: nat,
    seen: Entries,
) -> Entries
    decreases members, n, FieldKind::Plain,
{
    if n == 0 || n > types[t].fields.len() {
        seen
    } else {
        let before = harvested_fields(types, t, members, (n - 1) as nat, seen);
        let field = types[t].fields[n - 1];
        if field.present_at(types[t].max_version()) {
            match position(members, field.name) {
                Some(j) => if 0 <= j < members.len() {
                    harvested(types, field.kind, members[j].1, before)
                } else {
                    before
                },
                None => before,
            }
        } else {
            before
        }
    }
}

/// The member of an envelope that holds the version map.
pub open spec fn versions_member(entries: Entries) -> ValueView {
    ValueView::Record(Seq::new(entries.len(), |i: int| (entries[i].0, ValueView::UInt(entries[i].1 as u64))))
}

/// The envelope of a version map and a value: a record of the two members
/// `versions` and `value`, in this order.
pub open spec fn envelope_of(entries: Entries, payload: ValueView) -> ValueView {
    ValueView::Record(seq![("versions"@, versions_member(entries)), ("value"@, payload)])
}

/// What `x`, a value of kind `kind`, is encoded to.
pub open spec fn encoded(types: Seq<SchemaView>, kind: FieldKind, x: ValueView, mode: Mode) -> ValueView {
    match mode {
        Mode::Versioned => envelope_of(harvested(types, kind, x, Seq::empty()), x),
        Mode::Unversioned => x,
    }
}

/// The dry pass: walks `x`, a value of kind `kind`, and records in `map` the
/// newest version of every versioned type that is met.
pub fn harvest(registry: &Registry, kind: &FieldKind, x: &Value, map: &mut VersionMap)
    ensures
        final(map)@ == harvested(registry@, *kind, x@, old(map)@),
        old(map).wf() ==> final(map).wf(),
    decreases x, 0nat, kind,
{
    match kind {
        FieldKind::Plain => {},
        FieldKind::Optional(inner) => {
            match x {
                Value::Null => {},
                _ => {
                    harvest(registry, inner, x, map);
                },
            }
        },
        FieldKind::List(inner) => {
            match x {
                Value::List(items) => {
                    let mut i: usize = 0;
                    while i < items.len()
                        invariant
                            *x == Value::List(*items),
                            i <= items.len(),
                            map@ == harvested_items(registry@, **inner, items_view(items@), i as nat, old(map)@),
                            old(map).wf() ==> map.wf(),
                        decreases items.len() - i,
                    {
                        assert(decreases_to!(x => items[i as int])) by {
                            assert(decreases_to!(*x => (*x)->List_0));
                            assert(decreases_to!(items => items@));
                            assert(decreases_to!(items@ => items@[i as int]));
                        }
                        harvest(registry, inner, &items[i], map);
                        i += 1;
                    }
                },
                _ => {},
            }
        },
        FieldKind::Versioned(t) => {
            if *t < registry.len() {
                let schema = registry.schema(*t);
                let max = schema.max_version();
                map.record(schema.name(), max);
                match x {
                    Value::Record(members) => {
                        let ghost here = map@;
                        let n = schema.field_count();
                        let mut i: usize = 0;
                        while i < n
                            invariant
                                *x == Value::Record(*members),
                                *t < registry@.len(),
                                schema@ == registry@[*t as int],
                                max == schema@.max_version(),
                                n == schema@.fields.len(),
                                i <= n,
                                map@ == harvested_fields(
                                    registry@,
                                    *t as int,
                                    members_view(members@),
                                    i as nat,
                                    here,
                                ),
                                old(map).wf() ==> map.wf(),
                            decreases n - i,
                        {
                            let field = schema.field(i);
                            if field.present_at(max) {
                                match find_member(members, &field.name) {
                                    Some(j) => {
                                        assert(decreases_to!(x => members[j as int].1)) by {
                                            assert(decreases_to!(*x => (*x)->Record_0));
                                            assert(decreases_to!(members => members@));
                                            assert(decreases_to!(members@ => members@[j as int]));
                                            assert(decreases_to!(members@[j as int] => members@[j as int].1));
                                        }
                                        harvest(registry, &field.kind, &members[j].1, map);
                                    },
                                    None => {},
                                }
                            }
                            i += 1;
                        }
                    },
                    _ => {},
                }
            }
        },
    }
}

/// The member of an envelope that holds the version map.
pub fn versions_record(map: &VersionMap) -> (record: Value)
    ensures
        record@ == versions_member(map@),
{
    let mut members: Vec<(String, Value)> = Vec::new();
    let mut i: usize = 0;
    while i < map.len()
        invariant
            i <= map@.len(),
            members.len() == i,
            forall|k: int|
                0 <= k < i ==> (#[trigger] members[k]).0@ == map@[k].0 && members[k].1@ == ValueView::UInt(
                    map@[k].1 as u64,
                ),
        decreases map@.len() - i,
    {
        let version = map.version_at(i);
        members.push((map.name_at(i).clone(), Value::UInt(version as u64)));
        i += 1;
    }
    let record = Value::Record(members);
    proof {
        assert(members_view(members@) =~= versions_member(map@)->Record_0);
    }
    record
}

/// The envelope of a version map and a value.
pub fn envelope(map: &VersionMap, payload: Value) -> (wrapped: Value)
    ensures
        wrapped@ == envelope_of(map@, payload@),
{
    let mut members: Vec<(String, Value)> = Vec::new();
    members.push(("versions".to_owned(), versions_record(map)));
    members.push(("value".to_owned(), payload));
    let wrapped = Value::Record(members);
    proof {
        assert(members_view(members@) =~= envelope_of(map@, payload@)->Record_0);
    }
    wrapped
}

/// Encodes `x`, a value of kind `kind`.
///
/// In versioned mode the dry pass runs over the whole tree first, and the
/// result is the envelope of the map that it harvested and of the value. In
/// unversioned mode the result is the value alone.
pub fn encode(registry: &Registry, kind: &FieldKind, x: &Value, mode: Mode) -> (document: Value)
    ensures
        document@ == encoded(registry@, *kind, x@, mode),
{
    match mode {
        Mode::Versioned => {
            let mut map = VersionMap::new();
            harvest(registry, kind, x, &mut map);
            envelope(&map, x.deep_clone())
        },
        Mode::Unversioned => x.deep_clone(),
    }
}

} // verus!
