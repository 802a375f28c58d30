//! What the dry pass leaves in the version map.

use vstd::prelude::*;
use crate::encode::{harvested, harvested_fields, harvested_items};
use crate::names::{lemma_position, position};
use crate::registry::registry_wf;
use crate::schema::{FieldKind, SchemaView};
use crate::value::ValueView;
use crate::versions::{distinct_names, lemma_recorded, lookup, recorded, Entries};

verus! {

/// A node of type `t` is met when `x` is walked as a value of kind `kind`.
pub open spec fn occurs(types: Seq<SchemaView>, kind: FieldKind, x: ValueView, t: int) -> bool
    decreases x, 0nat, kind,
{
    match kind {
        FieldKind::Plain => false,
        FieldKind::Optional(inner) => !(x is Null) && occurs(types, *inner, x, t),
        FieldKind::List(inner) => match x {
            ValueView::List(items) => occurs_in_items(types, *inner, items, items.len(), t),
            _ => false,
        },
        FieldKind::Versioned(u) => u < types.len() && (u == t || match x {
            ValueView::Record(members) => occurs_in_fields(types, u as int, members, types[u as int].fields.len(), t),
            _ => false,
        }),
    }
}

/// A node of type `t` is met in one of the first `n` items of a list.
pub open spec fn occurs_in_items(
    types: Seq<SchemaView>,
    kind: FieldKind,
    items: Seq<ValueView>,
    n: nat,
    t: int,
) -> bool
    decreases items, n, FieldKind::Plain,
{
    if n == 0 || n > items.len() {
        false
    } else {
        occurs_in_items(types, kind, items, (n - 1) as nat, t) || occurs(types, kind, items[n - 1], t)
    }
}

/// A node of type `t` is met in a member that stands for one of the first `n`
/// declared fields of a node of type `u`.
pub open spec fn occurs_in_fields(
    types: Seq<SchemaView>,
    u: int,
    members: Seq<(Seq<char>, ValueView)>,
    n: nat,
    t: int,
) -> bool
    decreases members, n, FieldKind::Plain,
{
    if n == 0 || n > types[u].fields.len() {
        false
    } else {
        let field = types[u].fields[n - 1];
        occurs_in_fields(types, u, members, (n - 1) as nat, t) || (field.present_at(types[u].max_version())
            && match position(members, field.name) {
            Some(j) => 0 <= j < members.len() && occurs(types, field.kind, members[j].1, t),
            None => false,
        })
    }
}

/// The entry that a node of type `t` records.
pub open spec fn entry_of(types: Seq<SchemaView>, t: int) -> (Seq<char>, u32) {
    (types[t].name, types[t].max_version())
}

/// The map holds the newest version of type `t` under the type's name.
pub open spec fn knows(types: Seq<SchemaView>, entries: Entries, t: int) -> bool {
    lookup(entries, types[t].name) == Some(types[t].max_version())
}

/// Every entry is the name of a type of the registry with that type's newest
/// version, and no name has two entries.
pub open spec fn harvest_of(types: Seq<SchemaView>, entries: Entries) -> bool {
    &&& distinct_names(entries)
    &&& forall|i: int|
        0 <= i < entries.len() ==> exists|t: int|
            0 <= t < types.len() && (#[trigger] entries[i]) == #[trigger] entry_of(types, t)
}

/// What `seen` holds for a name, `more` holds for it too.
pub open spec fn keeps(seen: Entries, more: Entries) -> bool {
    forall|name: Seq<char>| (#[trigger] lookup(seen, name)) is Some ==> lookup(more, name) == lookup(seen, name)
}

/// A node of type `t` that records itself adds its entry, or finds it there.
pub proof fn lemma_record_type(types: Seq<SchemaView>, seen: Entries, t: int)
    requires
        registry_wf(types),
        harvest_of(types, seen),
        0 <= t < types.len(),
    ensures
        harvest_of(types, recorded(seen, types[t].name, types[t].max_version())),
        keeps(seen, recorded(seen, types[t].name, types[t].max_version())),
        knows(types, recorded(seen, types[t].name, types[t].max_version()), t),
{
    let name = types[t].name;
    let max = types[t].max_version();
    let more = recorded(seen, name, max);
    lemma_recorded(seen, name, max);
    lemma_position(seen, name);
    match position(seen, name) {
        Some(i) => {
            let u = choose|u: int| 0 <= u < types.len() && seen[i] == #[trigger] entry_of(types, u);
            assert(types[u].name == types[t].name);
            assert(u == t);
            assert(more =~= seen);
        },
        None => {
            assert forall|i: int| 0 <= i < more.len() implies exists|u: int|
                0 <= u < types.len() && (#[trigger] more[i]) == #[trigger] entry_of(types, u) by {
                if i < seen.len() {
                    let u = choose|u: int| 0 <= u < types.len() && seen[i] == #[trigger] entry_of(types, u);
                    assert(more[i] == entry_of(types, u));
                } else {
                    assert(more[i] == entry_of(types, t));
                }
            }
        },
    }
    assert forall|other: Seq<char>| (#[trigger] lookup(seen, other)) is Some implies lookup(more, other)
        == lookup(seen, other) by {
        if other == name {
            assert(more =~= seen);
        }
    }
}

/// The dry pass over a value keeps what the map held, adds only types of the
/// registry with their newest versions, and leaves in it every type that it
/// met.
pub proof fn lemma_harvest(types: Seq<SchemaView>, kind: FieldKind, x: ValueView, seen: Entries)
    requires
        registry_wf(types),
        harvest_of(types, seen),
    ensures
        harvest_of(types, harvested(types, kind, x, seen)),
        keeps(seen, harvested(types, kind, x, seen)),
        forall|t: int| #[trigger] occurs(types, kind, x, t) ==> knows(types, harvested(types, kind, x, seen), t),
    decreases x, 0nat, kind,
{
    let out = harvested(types, kind, x, seen);
    match kind {
        FieldKind::Plain => {},
        FieldKind::Optional(inner) => {
            if !(x is Null) {
                lemma_harvest(types, *inner, x, seen);
            }
        },
        FieldKind::List(inner) => {
            match x {
                ValueView::List(items) => {
                    lemma_harvest_items(types, *inner, items, items.len(), seen);
                },
                _ => {},
            }
        },
        FieldKind::Versioned(u) => {
            if u < types.len() {
                let here = recorded(seen, types[u as int].name, types[u as int].max_version());
                lemma_record_type(types, seen, u as int);
                match x {
                    ValueView::Record(members) => {
                        lemma_harvest_fields(types, u as int, members, types[u as int].fields.len(), here);
                    },
                    _ => {},
                }
                assert(keeps(seen, out)) by {
                    assert forall|name: Seq<char>| (#[trigger] lookup(seen, name)) is Some implies lookup(out, name)
                        == lookup(seen, name) by {
                        assert(lookup(here, name) == lookup(seen, name));
                    }
                }
            }
        },
    }
    assert forall|t: int| occurs(types, kind, x, t) implies knows(types, out, t) by {
        match kind {
            FieldKind::Plain => {},
            FieldKind::Optional(inner) => {
                assert(occurs(types, *inner, x, t));
            },
            FieldKind::List(inner) => {
                assert(occurs_in_items(types, *inner, x->List_0, x->List_0.len(), t));
            },
            FieldKind::Versioned(u) => {
                let here = recorded(seen, types[u as int].name, types[u as int].max_version());
                if u != t {
                    assert(occurs_in_fields(types, u as int, x->Record_0, types[u as int].fields.len(), t));
                } else {
                    match x {
                        ValueView::Record(members) => {
                            assert(lookup(here, types[t].name) is Some);
                        },
                        _ => {},
                    }
                }
            },
        }
    }
}

/// The dry pass over the first `n` items of a list: as [`lemma_harvest`].
pub proof fn lemma_harvest_items(
    types: Seq<SchemaView>,
    kind: FieldKind,
    items: Seq<ValueView>,
    n: nat,
    seen: Entries,
)
    requires
        registry_wf(types),
        harvest_of(types, seen),
    ensures
        harvest_of(types, harvested_items(types, kind, items, n, seen)),
        keeps(seen, harvested_items(types, kind, items, n, seen)),
        forall|t: int|
            #[trigger] occurs_in_items(types, kind, items, n, t) ==> knows(
                types,
                harvested_items(types, kind, items, n, seen),
                t,
            ),
    decreases items, n, FieldKind::Plain,
{
    if !(n == 0 || n > items.len()) {
        let before = harvested_items(types, kind, items, (n - 1) as nat, seen);
        let out = harvested_items(types, kind, items, n, seen);
        lemma_harvest_items(types, kind, items, (n - 1) as nat, seen);
        lemma_harvest(types, kind, items[n - 1], before);
        assert forall|name: Seq<char>| (#[trigger] lookup(seen, name)) is Some implies lookup(out, name) == lookup(
            seen,
            name,
        ) by {
            assert(lookup(before, name) == lookup(seen, name));
        }
        assert forall|t: int| occurs_in_items(types, kind, items, n, t) implies knows(types, out, t) by {
            if occurs_in_items(types, kind, items, (n - 1) as nat, t) {
                assert(knows(types, before, t));
                assert(lookup(before, types[t].name) is Some);
            } else {
                assert(occurs(types, kind, items[n - 1], t));
            }
        }
    }
}

/// The dry pass over the members that stand for the first `n` declared
/// fields of a node: as [`lemma_harvest`].
pub proof fn lemma_harvest_fields(
    types: Seq<SchemaView>,
    u: int,
    members: Seq<(Seq<char>, ValueView)>,
    n: nat,
    seen: Entries,
)
    requires
        registry_wf(types),
        harvest_of(types, seen),
        0 <= u < types.len(),
    ensures
        harvest_of(types, harvested_fields(types, u, members, n, seen)),
        keeps(seen, harvested_fields(types, u, members, n, seen)),
        forall|t: int|
            #[trigger] occurs_in_fields(types, u, members, n, t) ==> knows(
                types,
                harvested_fields(types, u, members, n, seen),
                t,
            ),
    decreases members, n, FieldKind::Plain,
{
    if !(n == 0 || n > types[u].fields.len()) {
        let before = harvested_fields(types, u, members, (n - 1) as nat, seen);
        lemma_harvest_fields(types, u, members, (n - 1) as nat, seen);
        let out = harvested_fields(types, u, members, n, seen);
        let field = types[u].fields[n - 1];
        if field.present_at(types[u].max_version()) {
            match position(members, field.name) {
                Some(j) => {
                    if 0 <= j < members.len() {
                        lemma_harvest(types, field.kind, members[j].1, before);
                    }
                },
                None => {},
            }
        }
        assert forall|name: Seq<char>| (#[trigger] lookup(seen, name)) is Some implies lookup(out, name) == lookup(
            seen,
            name,
        ) by {
            assert(lookup(before, name) == lookup(seen, name));
        }
        assert forall|t: int| occurs_in_fields(types, u, members, n, t) implies knows(types, out, t) by {
            if occurs_in_fields(types, u, members, (n - 1) as nat, t) {
                assert(knows(types, before, t));
                assert(lookup(before, types[t].name) is Some);
            } else {
                let j = position(members, field.name)->Some_0;
                assert(occurs(types, field.kind, members[j].1, t));
            }
        }
    }
}

/// Only types of the registry are met.
pub proof fn lemma_occurs_in_registry(types: Seq<SchemaView>, kind: FieldKind, x: ValueView, t: int)
    requires
        occurs(types, kind, x, t),
    ensures
        0 <= t < types.len(),
    decreases x, 0nat, kind,
{
    match kind {
        FieldKind::Plain => {},
        FieldKind::Optional(inner) => {
            lemma_occurs_in_registry(types, *inner, x, t);
        },
        FieldKind::List(inner) => {
            lemma_occurs_in_registry_items(types, *inner, x->List_0, x->List_0.len(), t);
        },
        FieldKind::Versioned(u) => {
            if u != t {
                lemma_occurs_in_registry_fields(types, u as int, x->Record_0, types[u as int].fields.len(), t);
            }
        },
    }
}

/// Only types of the registry are met in the items of a list.
pub proof fn lemma_occurs_in_registry_items(
    types: Seq<SchemaView>,
    kind: FieldKind,
    items: Seq<ValueView>,
    n: nat,
    t: int,
)
    requires
        occurs_in_items(types, kind, items, n, t),
    ensures
        0 <= t < types.len(),
    decreases items, n, FieldKind::Plain,
{
    if occurs_in_items(types, kind, items, (n - 1) as nat, t) {
        lemma_occurs_in_registry_items(types, kind, items, (n - 1) as nat, t);
    } else {
        lemma_occurs_in_registry(types, kind, items[n - 1], t);
    }
}

/// Only types of the registry are met in the fields of a node.
pub proof fn lemma_occurs_in_registry_fields(
    types: Seq<SchemaView>,
    u: int,
    members: Seq<(Seq<char>, ValueView)>,
    n: nat,
    t: int,
)
    requires
        occurs_in_fields(types, u, members, n, t),
    ensures
        0 <= t < types.len(),
    decreases members, n, FieldKind::Plain,
{
    if occurs_in_fields(types, u, members, (n - 1) as nat, t) {
        lemma_occurs_in_registry_fields(types, u, members, (n - 1) as nat, t);
    } else {
        let field = types[u].fields[n - 1];
        let j = position(members, field.name)->Some_0;
        lemma_occurs_in_registry(types, field.kind, members[j].1, t);
    }
}

/// `entry` is the entry of a type that `met` holds of.
pub open spec fn entry_of_met(types: Seq<SchemaView>, entry: (Seq<char>, u32), met: spec_fn(int) -> bool) -> bool {
    exists|t: int| #[trigger] met(t) && entry == entry_of(types, t)
}

/// `more` is `seen` with entries added at the end, each the entry of a type
/// that `met` holds of.
pub open spec fn grown(types: Seq<SchemaView>, seen: Entries, more: Entries, met: spec_fn(int) -> bool) -> bool {
    &&& seen.len() <= more.len()
    &&& forall|i: int| 0 <= i < seen.len() ==> #[trigger] more[i] == seen[i]
    &&& forall|i: int| seen.len() <= i < more.len() ==> entry_of_met(types, #[trigger] more[i], met)
}

/// Growth in two stages is growth, if what was met in either stage counts as
/// met.
pub proof fn lemma_grown_twice(
    types: Seq<SchemaView>,
    seen: Entries,
    mid: Entries,
    more: Entries,
    first: spec_fn(int) -> bool,
    second: spec_fn(int) -> bool,
    met: spec_fn(int) -> bool,
)
    requires
        grown(types, seen, mid, first),
        grown(types, mid, more, second),
        forall|t: int| #[trigger] first(t) ==> met(t),
        forall|t: int| #[trigger] second(t) ==> met(t),
    ensures
        grown(types, seen, more, met),
{
    assert forall|i: int| 0 <= i < seen.len() implies #[trigger] more[i] == seen[i] by {
        assert(mid[i] == seen[i]);
    }
    assert forall|i: int| seen.len() <= i < more.len() implies entry_of_met(types, #[trigger] more[i], met) by {
        if i < mid.len() {
            assert(more[i] == mid[i]);
            assert(entry_of_met(types, mid[i], first));
            let t = choose|t: int| #[trigger] first(t) && mid[i] == entry_of(types, t);
            assert(met(t));
        } else {
            assert(entry_of_met(types, more[i], second));
            let t = choose|t: int| #[trigger] second(t) && more[i] == entry_of(types, t);
            assert(met(t));
        }
    }
}

/// The dry pass over a value adds entries at the end of the map, and only
/// for types that it met.
pub proof fn lemma_harvest_grows(types: Seq<SchemaView>, kind: FieldKind, x: ValueView, seen: Entries)
    requires
        registry_wf(types),
        harvest_of(types, seen),
    ensures
        grown(types, seen, harvested(types, kind, x, seen), |t: int| occurs(types, kind, x, t)),
    decreases x, 0nat, kind,
{
    let met = |t: int| occurs(types, kind, x, t);
    let out = harvested(types, kind, x, seen);
    match kind {
        FieldKind::Plain => {},
        FieldKind::Optional(inner) => {
            if !(x is Null) {
                lemma_harvest_grows(types, *inner, x, seen);
                let inside = |t: int| occurs(types, *inner, x, t);
                lemma_grown_twice(types, seen, seen, out, inside, inside, met);
            }
        },
        FieldKind::List(inner) => {
            match x {
                ValueView::List(items) => {
                    lemma_harvest_items_grows(types, *inner, items, items.len(), seen);
                    let inside = |t: int| occurs_in_items(types, *inner, items, items.len(), t);
                    lemma_grown_twice(types, seen, seen, out, inside, inside, met);
                },
                _ => {},
            }
        },
        FieldKind::Versioned(u) => {
            if u < types.len() {
                let here = recorded(seen, types[u as int].name, types[u as int].max_version());
                let this = |t: int| t == u;
                lemma_record_type(types, seen, u as int);
                lemma_position(seen, types[u as int].name);
                assert(grown(types, seen, here, this)) by {
                    match position(seen, types[u as int].name) {
                        Some(i) => {
                            let w = choose|w: int| 0 <= w < types.len() && seen[i] == #[trigger] entry_of(types, w);
                            assert(types[w].name == types[u as int].name);
                            assert(here =~= seen);
                        },
                        None => {
                            assert(this(u as int) && here[seen.len() as int] == entry_of(types, u as int));
                        },
                    }
                }
                match x {
                    ValueView::Record(members) => {
                        let n = types[u as int].fields.len();
                        lemma_harvest_fields_grows(types, u as int, members, n, here);
                        let inside = |t: int| occurs_in_fields(types, u as int, members, n, t);
                        lemma_grown_twice(types, seen, here, out, this, inside, met);
                    },
                    _ => {
                        lemma_grown_twice(types, seen, seen, out, this, this, met);
                    },
                }
            }
        },
    }
}

/// The dry pass over the first `n` items of a list: as
/// [`lemma_harvest_grows`].
pub proof fn lemma_harvest_items_grows(
    types: Seq<SchemaView>,
    kind: FieldKind,
    items: Seq<ValueView>,
    n: nat,
    seen: Entries,
)
    requires
        registry_wf(types),
        harvest_of(types, seen),
    ensures
        grown(
            types,
            seen,
            harvested_items(types, kind, items, n, seen),
            |t: int| occurs_in_items(types, kind, items, n, t),
        ),
    decreases items, n, FieldKind::Plain,
{
    if !(n == 0 || n > items.len()) {
        let before = harvested_items(types, kind, items, (n - 1) as nat, seen);
        let out = harvested_items(types, kind, items, n, seen);
        lemma_harvest_items_grows(types, kind, items, (n - 1) as nat, seen);
        lemma_harvest_items(types, kind, items, (n - 1) as nat, seen);
        lemma_harvest_grows(types, kind, items[n - 1], before);
        lemma_grown_twice(
            types,
            seen,
            before,
            out,
            |t: int| occurs_in_items(types, kind, items, (n - 1) as nat, t),
            |t: int| occurs(types, kind, items[n - 1], t),
            |t: int| occurs_in_items(types, kind, items, n, t),
        );
    }
}

/// The dry pass over the members that stand for the first `n` declared
/// fields of a node: as [`lemma_harvest_grows`].
pub proof fn lemma_harvest_fields_grows(
    types: Seq<SchemaView>,
    u: int,
    members: Seq<(Seq<char>, ValueView)>,
    n: nat,
    seen: Entries,
)
    requires
        registry_wf(types),
        harvest_of(types, seen),
        0 <= u < types.len(),
    ensures
        grown(
            types,
            seen,
            harvested_fields(types, u, members, n, seen),
            |t: int| occurs_in_fields(types, u, members, n, t),
        ),
    decreases members, n, FieldKind::Plain,
{
    if !(n == 0 || n > types[u].fields.len()) {
        let before = harvested_fields(types, u, members, (n - 1) as nat, seen);
        let out = harvested_fields(types, u, members, n, seen);
        let earlier = |t: int| occurs_in_fields(types, u, members, (n - 1) as nat, t);
        let met = |t: int| occurs_in_fields(types, u, members, n, t);
        lemma_harvest_fields_grows(types, u, members, (n - 1) as nat, seen);
        lemma_harvest_fields(types, u, members, (n - 1) as nat, seen);
        let field = types[u].fields[n - 1];
        lemma_position(members, field.name);
        if field.present_at(types[u].max_version()) && position(members, field.name) is Some {
            let j = position(members, field.name)->Some_0;
            lemma_harvest_grows(types, field.kind, members[j].1, before);
            lemma_grown_twice(
                types,
                seen,
                before,
                out,
                earlier,
                |t: int| occurs(types, field.kind, members[j].1, t),
                met,
            );
        } else {
            lemma_grown_twice(types, seen, seen, out, earlier, earlier, met);
        }
    }
}

} // verus!
