//! What decoding gives for a value that is already in the newest shape.

use vstd::prelude::*;
use crate::decode::{decoded, decoded_fields, decoded_items, decoded_node};
use crate::error::DecodeErrorView;
use crate::harvest_proofs::{occurs, occurs_in_fields, occurs_in_items};
use crate::migration::{migrated, step_accepted, step_spec};
use crate::names::{lemma_position, lemma_position_is, position};
use crate::registry::registry_wf;
use crate::schema::{field_fault, lemma_highest_version, present_below, FieldKind, SchemaView};
use crate::shape::{conforms, conforms_at, lemma_present_below};
use crate::value::{Value, ValueView};
use crate::versions::{version_in, Entries};

verus! {

/// What is met in one of the first `n` items of a list is met in the list.
pub proof fn lemma_occurs_item(
    types: Seq<SchemaView>,
    kind: FieldKind,
    items: Seq<ValueView>,
    n: nat,
    i: int,
    t: int,
)
    requires
        0 <= i < n <= items.len(),
        occurs(types, kind, items[i], t),
    ensures
        occurs_in_items(types, kind, items, n, t),
    decreases n,
{
    if i < n - 1 {
        lemma_occurs_item(types, kind, items, (n - 1) as nat, i, t);
    }
}

/// What is met in the member that stands for field `i` of a node is met in
/// the node's fields.
pub proof fn lemma_occurs_field(
    types: Seq<SchemaView>,
    u: int,
    members: Seq<(Seq<char>, ValueView)>,
    n: nat,
    i: int,
    j: int,
    t: int,
)
    requires
        0 <= i < n <= types[u].fields.len(),
        types[u].fields[i].present_at(types[u].max_version()),
        position(members, types[u].fields[i].name) == Some(j),
        0 <= j < members.len(),
        occurs(types, types[u].fields[i].kind, members[j].1, t),
    ensures
        occurs_in_fields(types, u, members, n, t),
    decreases n,
{
    if i < n - 1 {
        lemma_occurs_field(types, u, members, (n - 1) as nat, i, j, t);
    }
}

/// The context gives for type `t` its newest version.
pub open spec fn reads_newest(types: Seq<SchemaView>, context: Option<Entries>, t: int) -> bool {
    version_in(context, types[t].name) == types[t].max_version()
}

/// A value in the newest shape, decoded in a context that gives for every
/// type met in it the type's newest version, is given back as it is.
pub proof fn lemma_decode_current<F: Fn(&str, u32, Value) -> Result<Value, String>>(
    types: Seq<SchemaView>,
    steps: F,
    context: Option<Entries>,
    kind: FieldKind,
    x: ValueView,
)
    requires
        registry_wf(types),
        conforms(types, kind, x),
        forall|t: int| #[trigger] occurs(types, kind, x, t) ==> reads_newest(types, context, t),
    ensures
        decoded(types, steps, context, kind, x) == Ok::<ValueView, DecodeErrorView>(x),
    decreases x, 1nat, kind,
{
    match kind {
        FieldKind::Plain => {},
        FieldKind::Optional(inner) => {
            if !(x is Null) {
                assert forall|t: int| #[trigger] occurs(types, *inner, x, t) implies reads_newest(types, context, t) by {
                    assert(occurs(types, kind, x, t));
                }
                lemma_decode_current(types, steps, context, *inner, x);
            }
        },
        FieldKind::List(inner) => {
            let items = x->List_0;
            assert forall|t: int| #[trigger]
                occurs_in_items(types, *inner, items, items.len(), t) implies reads_newest(types, context, t) by {
                assert(occurs(types, kind, x, t));
            }
            lemma_decode_items(types, steps, context, *inner, items, items.len());
            assert(items.take(items.len() as int) =~= items);
        },
        FieldKind::Versioned(u) => {
            let schema = types[u as int];
            assert(conforms_at(types, u as int, schema.max_version(), x));
            let members = x->Record_0;
            assert(x == ValueView::Record(members));
            assert(occurs(types, kind, x, u as int));
            lemma_highest_version(schema.fields);
            assert forall|t: int| #[trigger]
                occurs_in_fields(types, u as int, members, schema.fields.len(), t) implies reads_newest(
                types,
                context,
                t,
            ) by {
                assert(occurs(types, kind, x, t));
            }
            lemma_decode_fields(types, steps, context, u as int, members, schema.fields.len());
            assert(members.take(members.len() as int) =~= members);
            assert(decoded_node(types, steps, context, u as int, x) == migrated(
                types,
                steps,
                u as int,
                schema.max_version(),
                x,
            ));
        },
    }
}

/// The first `n` items of a list in the newest shape are given back as they
/// are.
pub proof fn lemma_decode_items<F: Fn(&str, u32, Value) -> Result<Value, String>>(
    types: Seq<SchemaView>,
    steps: F,
    context: Option<Entries>,
    kind: FieldKind,
    items: Seq<ValueView>,
    n: nat,
)
    requires
        registry_wf(types),
        n <= items.len(),
        forall|i: int| 0 <= i < items.len() ==> conforms(types, kind, #[trigger] items[i]),
        forall|t: int| #[trigger] occurs_in_items(types, kind, items, items.len(), t) ==> reads_newest(types, context, t),
    ensures
        decoded_items(types, steps, context, kind, items, n) == Ok::<Seq<ValueView>, DecodeErrorView>(
            items.take(n as int),
        ),
    decreases items, n, FieldKind::Plain,
{
    if n == 0 {
        assert(items.take(0) =~= Seq::empty());
    } else {
        lemma_decode_items(types, steps, context, kind, items, (n - 1) as nat);
        assert forall|t: int| #[trigger] occurs(types, kind, items[n - 1], t) implies reads_newest(types, context, t) by {
            lemma_occurs_item(types, kind, items, items.len(), n - 1, t);
        }
        lemma_decode_current(types, steps, context, kind, items[n - 1]);
        assert(items.take(n - 1).push(items[n - 1]) =~= items.take(n as int));
    }
}

/// The members that stand for the first `n` declared fields of a node in the
/// newest shape are given back as they are.
pub proof fn lemma_decode_fields<F: Fn(&str, u32, Value) -> Result<Value, String>>(
    types: Seq<SchemaView>,
    steps: F,
    context: Option<Entries>,
    u: int,
    members: Seq<(Seq<char>, ValueView)>,
    n: nat,
)
    requires
        registry_wf(types),
        0 <= u < types.len(),
        n <= types[u].fields.len(),
        conforms_at(types, u, types[u].max_version(), ValueView::Record(members)),
        forall|t: int| #[trigger]
            occurs_in_fields(types, u, members, types[u].fields.len(), t) ==> reads_newest(types, context, t),
    ensures
        present_below(types[u].fields, types[u].max_version(), n).len() <= members.len(),
        decoded_fields(types, steps, context, u, types[u].max_version(), members, n) == Ok::<
            Seq<(Seq<char>, ValueView)>,
            DecodeErrorView,
        >(members.take(present_below(types[u].fields, types[u].max_version(), n).len() as int)),
    decreases members, n, FieldKind::Plain,
{
    let fields = types[u].fields;
    let max = types[u].max_version();
    let snapshot = types[u].snapshot(max);
    lemma_present_below(fields, max, n, fields.len());
    if n == 0 {
        assert(members.take(0) =~= Seq::empty());
    } else {
        lemma_decode_fields(types, steps, context, u, members, (n - 1) as nat);
        lemma_present_below(fields, max, (n - 1) as nat, n);
        let field = fields[n - 1];
        let k = present_below(fields, max, (n - 1) as nat).len() as int;
        if field.present_at(max) {
            assert(present_below(fields, max, n)[k] == n - 1);
            assert(snapshot[k] == n - 1);
            assert(members[k].0 == field.name);
            assert(types[u].wf());
            assert(field_fault(fields, n - 1) is None);
            assert forall|j: int| 0 <= j < k implies (#[trigger] members[j]).0 != field.name by {
                let earlier = present_below(fields, max, (n - 1) as nat)[j];
                assert(snapshot[j] == earlier);
                assert(0 <= earlier < n - 1);
                assert(members[j].0 == fields[earlier].name);
                assert(fields[earlier].present_at(max) && field.present_at(max));
                assert(fields[earlier].overlaps(field));
            }
            lemma_position_is(members, field.name, k);
            assert forall|t: int| #[trigger] occurs(types, field.kind, members[k].1, t) implies reads_newest(
                types,
                context,
                t,
            ) by {
                lemma_occurs_field(types, u, members, fields.len(), n - 1, k, t);
            }
            lemma_decode_current(types, steps, context, field.kind, members[k].1);
            assert(members.take(k).push((field.name, members[k].1)) =~= members.take(k + 1));
        }
    }
}

/// Two contexts that give every name the same version decode alike.
pub proof fn lemma_same_versions<F: Fn(&str, u32, Value) -> Result<Value, String>>(
    types: Seq<SchemaView>,
    steps: F,
    one: Option<Entries>,
    other: Option<Entries>,
    kind: FieldKind,
    x: ValueView,
)
    requires
        forall|name: Seq<char>| #[trigger] version_in(one, name) == version_in(other, name),
    ensures
        decoded(types, steps, one, kind, x) == decoded(types, steps, other, kind, x),
    decreases x, 1nat, kind,
{
    match kind {
        FieldKind::Plain => {},
        FieldKind::Optional(inner) => {
            if !(x is Null) {
                lemma_same_versions(types, steps, one, other, *inner, x);
            }
        },
        FieldKind::List(inner) => {
            match x {
                ValueView::List(items) => {
                    lemma_same_versions_items(types, steps, one, other, *inner, items, items.len());
                },
                _ => {},
            }
        },
        FieldKind::Versioned(u) => {
            if u < types.len() {
                let schema = types[u as int];
                let v = version_in(one, schema.name);
                assert(decoded_node(types, steps, one, u as int, x) == decoded_node(types, steps, other, u as int, x))
                    by {
                    match x {
                        ValueView::Record(members) => {
                            lemma_same_versions_fields(
                                types,
                                steps,
                                one,
                                other,
                                u as int,
                                v,
                                members,
                                schema.fields.len(),
                            );
                        },
                        _ => {},
                    }
                }
            }
        },
    }
}

/// Two contexts that give every name the same version decode the first `n`
/// items of a list alike.
pub proof fn lemma_same_versions_items<F: Fn(&str, u32, Value) -> Result<Value, String>>(
    types: Seq<SchemaView>,
    steps: F,
    one: Option<Entries>,
    other: Option<Entries>,
    kind: FieldKind,
    items: Seq<ValueView>,
    n: nat,
)
    requires
        forall|name: Seq<char>| #[trigger] version_in(one, name) == version_in(other, name),
    ensures
        decoded_items(types, steps, one, kind, items, n) == decoded_items(types, steps, other, kind, items, n),
    decreases items, n, FieldKind::Plain,
{
    if !(n == 0 || n > items.len()) {
        lemma_same_versions_items(types, steps, one, other, kind, items, (n - 1) as nat);
        lemma_same_versions(types, steps, one, other, kind, items[n - 1]);
    }
}

/// Two contexts that give every name the same version decode the first `n`
/// fields of a node alike.
pub proof fn lemma_same_versions_fields<F: Fn(&str, u32, Value) -> Result<Value, String>>(
    types: Seq<SchemaView>,
    steps: F,
    one: Option<Entries>,
    other: Option<Entries>,
    u: int,
    v: u32,
    members: Seq<(Seq<char>, ValueView)>,
    n: nat,
)
    requires
        forall|name: Seq<char>| #[trigger] version_in(one, name) == version_in(other, name),
    ensures
        decoded_fields(types, steps, one, u, v, members, n) == decoded_fields(
            types,
            steps,
            other,
            u,
            v,
            members,
            n,
        ),
    decreases members, n, FieldKind::Plain,
{
    if !(n == 0 || n > types[u].fields.len()) {
        lemma_same_versions_fields(types, steps, one, other, u, v, members, (n - 1) as nat);
        let field = types[u].fields[n - 1];
        if field.present_at(v) {
            match position(members, field.name) {
                Some(j) => {
                    if 0 <= j < members.len() {
                        lemma_same_versions(types, steps, one, other, field.kind, members[j].1);
                    }
                },
                None => {},
            }
        }
    }
}

/// What the migration chain gives for a snapshot is in the newest shape.
pub proof fn lemma_migrated_conforms<F: Fn(&str, u32, Value) -> Result<Value, String>>(
    types: Seq<SchemaView>,
    steps: F,
    t: int,
    v: u32,
    snapshot: ValueView,
)
    requires
        conforms_at(types, t, v, snapshot),
    ensures
        migrated(types, steps, t, v, snapshot) is Ok ==> conforms_at(
            types,
            t,
            types[t].max_version(),
            migrated(types, steps, t, v, snapshot)->Ok_0,
        ),
    decreases types[t].max_version() - v,
{
    let schema = types[t];
    if schema.has_version(v) && v != schema.max_version() {
        match step_accepted(types, t, v, step_spec(steps, schema.name, v, snapshot)) {
            Ok(next) => {
                lemma_migrated_conforms(types, steps, t, (v + 1) as u32, next);
            },
            Err(_) => {},
        }
    }
}

/// What decoding gives is a value of the kind that was asked for, every
/// versioned node in it in the shape of its type's newest version.
pub proof fn lemma_decoded_conforms<F: Fn(&str, u32, Value) -> Result<Value, String>>(
    types: Seq<SchemaView>,
    steps: F,
    context: Option<Entries>,
    kind: FieldKind,
    x: ValueView,
)
    ensures
        decoded(types, steps, context, kind, x) is Ok ==> conforms(
            types,
            kind,
            decoded(types, steps, context, kind, x)->Ok_0,
        ),
    decreases x, 1nat, kind,
{
    match kind {
        FieldKind::Plain => {},
        FieldKind::Optional(inner) => {
            if !(x is Null) {
                lemma_decoded_conforms(types, steps, context, *inner, x);
            }
        },
        FieldKind::List(inner) => {
            match x {
                ValueView::List(items) => {
                    lemma_decoded_items_conform(types, steps, context, *inner, items, items.len());
                },
                _ => {},
            }
        },
        FieldKind::Versioned(u) => {
            if u < types.len() {
                let schema = types[u as int];
                let v = version_in(context, schema.name);
                if schema.has_version(v) {
                    match x {
                        ValueView::Record(members) => {
                            lemma_decoded_fields_conform(
                                types,
                                steps,
                                context,
                                u as int,
                                v,
                                members,
                                schema.fields.len(),
                            );
                            match decoded_fields(types, steps, context, u as int, v, members, schema.fields.len()) {
                                Ok(snapshot) => {
                                    assert(conforms_at(types, u as int, v, ValueView::Record(snapshot)));
                                    lemma_migrated_conforms(types, steps, u as int, v, ValueView::Record(snapshot));
                                },
                                Err(_) => {},
                            }
                        },
                        _ => {},
                    }
                }
                assert(decoded(types, steps, context, kind, x) == decoded_node(types, steps, context, u as int, x));
            }
        },
    }
}

/// What decoding gives for the first `n` items of a list is `n` values of
/// the items' kind.
pub proof fn lemma_decoded_items_conform<F: Fn(&str, u32, Value) -> Result<Value, String>>(
    types: Seq<SchemaView>,
    steps: F,
    context: Option<Entries>,
    kind: FieldKind,
    items: Seq<ValueView>,
    n: nat,
)
    ensures
        match decoded_items(types, steps, context, kind, items, n) {
            Ok(done) => forall|i: int| 0 <= i < done.len() ==> conforms(types, kind, #[trigger] done[i]),
            Err(_) => true,
        },
    decreases items, n, FieldKind::Plain,
{
    if !(n == 0 || n > items.len()) {
        lemma_decoded_items_conform(types, steps, context, kind, items, (n - 1) as nat);
        lemma_decoded_conforms(types, steps, context, kind, items[n - 1]);
    }
}

/// What decoding gives for the first `n` declared fields of a node are the
/// members of the snapshot that stand for them.
pub proof fn lemma_decoded_fields_conform<F: Fn(&str, u32, Value) -> Result<Value, String>>(
    types: Seq<SchemaView>,
    steps: F,
    context: Option<Entries>,
    u: int,
    v: u32,
    members: Seq<(Seq<char>, ValueView)>,
    n: nat,
)
    requires
        n <= types[u].fields.len(),
    ensures
        match decoded_fields(types, steps, context, u, v, members, n) {
            Ok(done) => {
                &&& done.len() == present_below(types[u].fields, v, n).len()
                &&& forall|k: int|
                    0 <= k < done.len() ==> {
                        &&& (#[trigger] done[k]).0 == types[u].fields[present_below(types[u].fields, v, n)[k]].name
                        &&& conforms(
                            types,
                            types[u].fields[present_below(types[u].fields, v, n)[k]].kind,
                            done[k].1,
                        )
                    }
            },
            Err(_) => true,
        },
    decreases members, n, FieldKind::Plain,
{
    if n > 0 {
        lemma_decoded_fields_conform(types, steps, context, u, v, members, (n - 1) as nat);
        let fields = types[u].fields;
        let field = fields[n - 1];
        let before = present_below(fields, v, (n - 1) as nat);
        let now = present_below(fields, v, n);
        lemma_position(members, field.name);
        if field.present_at(v) {
            match position(members, field.name) {
                Some(j) => {
                    if 0 <= j < members.len() {
                        lemma_decoded_conforms(types, steps, context, field.kind, members[j].1);
                    }
                },
                None => {},
            }
        }
        match decoded_fields(types, steps, context, u, v, members, n) {
            Ok(done) => {
                let prefix = decoded_fields(types, steps, context, u, v, members, (n - 1) as nat)->Ok_0;
                assert forall|k: int| 0 <= k < done.len() implies {
                    &&& (#[trigger] done[k]).0 == fields[now[k]].name
                    &&& conforms(types, fields[now[k]].kind, done[k].1)
                } by {
                    if k < prefix.len() {
                        assert(done[k] == prefix[k]);
                        assert(now[k] == before[k]);
                    }
                }
            },
            Err(_) => {},
        }
    }
}

} // verus!
