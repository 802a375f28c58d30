//! Decoding a value: every versioned node is read in the shape of the
//! version that the context gives for its type, and then upgraded.

use vstd::prelude::*;
use crate::decode_proofs::lemma_decoded_fields_conform;
use crate::error::{DecodeError, DecodeErrorView};
use crate::migration::{decoded_view, migrate, migrated, steps_callable, steps_deterministic};
use crate::names::position;
use crate::registry::Registry;
use crate::schema::{FieldKind, SchemaView};
use crate::value::{find_member, items_view, members_view, Value, ValueView};
use crate::versions::{version_in, DecodeContext, Entries};

verus! {

/// What `x` decodes to as a value of kind `kind`, with the versions that
/// `context` gives.
///
/// A plain value is taken as it is. An optional value is absent or decoded as
/// its inner kind. The items of a list are decoded in order, and the first
/// that fails gives the error.
pub open spec fn decoded<F: Fn(&str, u32, Value) -> Result<Value, String>>(
    types: Seq<SchemaView>,
    steps: F,
    context: Option<Entries>,
    kind: FieldKind,
    x: ValueView,
) -> Result<ValueView, DecodeErrorView>
    decreases x, 1nat, kind,
{
    match kind {
        FieldKind::Plain => Ok(x),
        FieldKind::Optional(inner) => if x is Null {
            Ok(x)
        } else {
            decoded(types, steps, context, *inner, x)
        },
        FieldKind::List(inner) => match x {
            ValueView::List(items) => match decoded_items(types, steps, context, *inner, items, items.len()) {
                Ok(done) => Ok(ValueView::List(done)),
                Err(e) => Err(e),
            },
            _ => Err(DecodeErrorView::ExpectedList),
        },
        FieldKind::Versioned(t) => if t < types.len() {
            decoded_node(types, steps, context, t as int, x)
        } else {
            Err(DecodeErrorView::UnknownType { index: t })
        },
    }
}

/// What the first `n` items of a list decode to.
pub open spec fn decoded_items<F: Fn(&str, u32, Value) -> Result<Value, String>>(
    types: Seq<SchemaView>,
    steps: F,
    context: Option<Entries>,
    kind: FieldKind,
    items: Seq<ValueView>,
    n: nat,
) -> Result<Seq<ValueView>, DecodeErrorView>
    decreases items, n, FieldKind::Plain,
{
    if n == 0 || n > items.len() {
        Ok(Seq::empty())
    } else {
        match decoded_items(types, steps, context, kind, items, (n - 1) as nat) {
            Ok(done) => match decoded(types, steps, context, kind, items[n - 1]) {
                Ok(y) => Ok(done.push(y)),
                Err(e) => Err(e),
            },
            Err(e) => Err(e),
        }
    }
}

/// What `x` decodes to as a node of type `t`.
///
/// The version is the one that the context gives for the type's name, and 1
/// where it gives none. A version that the type does not have is refused
/// before anything is read. Otherwise the record is read as a snapshot of that
/// version, and the snapshot is upgraded by the migration chain.
pub open spec fn decoded_node<F: Fn(&str, u32, Value) -> Result<Value, String>>(
    types: Seq<SchemaView>,
    steps: F,
    context: Option<Entries>,
    t: int,
    x: ValueView,
) -> Result<ValueView, DecodeErrorView>
    decreases x, 0nat, FieldKind::Plain,
{
    let schema = types[t];
    let v = version_in(context, schema.name);
    if !schema.has_version(v) {
        Err(DecodeErrorView::UnknownVersion { name: schema.name, version: v })
    } else {
        match x {
            ValueView::Record(members) => match decoded_fields(
                types,
                steps,
                context,
                t,
                v,
                members,
                schema.fields.len(),
            ) {
                Ok(snapshot) => migrated(types, steps, t, v, ValueView::Record(snapshot)),
                Err(e) => Err(e),
            },
            _ => Err(DecodeErrorView::ExpectedRecord { name: schema.name }),
        }
    }
}

/// The members of the snapshot of version `v` that stand for the first `n`
/// declared fields of type `t`, read from `members`.
///
/// Each field of the version is looked for by its name, and the first member
/// of that name is decoded as the field's kind. A field of optional kind
/// that has no member is absent; any other field that has none is missing.
/// Members that the version does not have are passed over.
///
/// `position` gives places in `members` only; the bounds on the place are
/// written out so that the definition is seen to end.
pub open spec fn decoded_fields<F: Fn(&str, u32, Value) -> Result<Value, String>>(
    types: Seq<SchemaView>,
    steps: F,
    context: Option<Entries>,
    t: int,
    v: u32,
    members: Seq<(Seq<char>, ValueView)>,
    n: nat,
) -> Result<Seq<(Seq<char>, ValueView)>, DecodeErrorView>
    decreases members, n, FieldKind::Plain,
{
    if n == 0 || n > types[t].fields.len() {
        Ok(Seq::empty())
    } else {
        match decoded_fields(types, steps, context, t, v, members, (n - 1) as nat) {
            Ok(done) => {
                let field = types[t].fields[n - 1];
                if field.present_at(v) {
                    match position(members, field.name) {
                        Some(j) => if 0 <= j < members.len() {
                            match decoded(types, steps, context, field.kind, members[j].1) {
                                Ok(y) => Ok(done.push((field.name, y))),
                                Err(e) => Err(e),
                            }
                        } else {
                            Ok(done)
                        },
                        None => if field.kind is Optional {
                            Ok(done.push((field.name, ValueView::Null)))
                        } else {
                            Err(DecodeErrorView::MissingField { name: types[t].name, field: field.name })
                        },
                    }
                } else {
                    Ok(done)
                }
            },
            Err(e) => Err(e),
        }
    }
}

/// Decodes `x` as a value of kind `kind`, with the versions that `context`
/// gives.
pub fn decode_value<F: Fn(&str, u32, Value) -> Result<Value, String>>(
    registry: &Registry,
    steps: &F,
    context: &DecodeContext,
    kind: &FieldKind,
    x: &Value,
) -> (r: Result<Value, DecodeError>)
    requires
        steps_callable(registry@, *steps),
        steps_deterministic(*steps),
    ensures
        decoded_view(r) == decoded(registry@, *steps, context@, *kind, x@),
    decreases x, 1nat, kind,
{
    match kind {
        FieldKind::Plain => Ok(x.deep_clone()),
        FieldKind::Optional(inner) => {
            match x {
                Value::Null => Ok(Value::Null),
                _ => decode_value(registry, steps, context, inner, x),
            }
        },
        FieldKind::List(inner) => {
            match x {
                Value::List(items) => {
                    let mut done: Vec<Value> = Vec::new();
                    let mut i: usize = 0;
                    assert(items_view(done@) =~= Seq::empty());
                    while i < items.len()
                        invariant
                            *x == Value::List(*items),
                            *kind == FieldKind::List(*inner),
                            x@ == ValueView::List(items_view(items@)),
                            steps_callable(registry@, *steps),
                            steps_deterministic(*steps),
                            i <= items.len(),
                            decoded_items(registry@, *steps, context@, **inner, items_view(items@), i as nat) == Ok::<
                                Seq<ValueView>,
                                DecodeErrorView,
                            >(items_view(done@)),
                        decreases items.len() - i,
                    {
                        assert(decreases_to!(x => items[i as int])) by {
                            assert(decreases_to!(*x => (*x)->List_0));
                            assert(decreases_to!(items => items@));
                            assert(decreases_to!(items@ => items@[i as int]));
                        }
                        let ghost before = items_view(done@);
                        match decode_value(registry, steps, context, inner, &items[i]) {
                            Ok(y) => {
                                done.push(y);
                                assert(items_view(done@) =~= before.push(y@));
                            },
                            Err(e) => {
                                proof {
                                    assert(decoded_items(
                                        registry@,
                                        *steps,
                                        context@,
                                        **inner,
                                        items_view(items@),
                                        (i + 1) as nat,
                                    ) == Err::<Seq<ValueView>, DecodeErrorView>(e@));
                                    lemma_items_error(
                                        registry@,
                                        *steps,
                                        context@,
                                        **inner,
                                        items_view(items@),
                                        (i + 1) as nat,
                                        items.len() as nat,
                                    );
                                }
                                return Err(e);
                            },
                        }
                        i += 1;
                    }
                    let list = Value::List(done);
                    Ok(list)
                },
                _ => Err(DecodeError::ExpectedList),
            }
        },
        FieldKind::Versioned(t) => {
            if *t < registry.len() {
                decode_node(registry, steps, context, *t, x)
            } else {
                Err(DecodeError::UnknownType { index: *t })
            }
        },
    }
}

/// An error among the first `n` items of a list is the error of the whole
/// list.
proof fn lemma_items_error<F: Fn(&str, u32, Value) -> Result<Value, String>>(
    types: Seq<SchemaView>,
    steps: F,
    context: Option<Entries>,
    kind: FieldKind,
    items: Seq<ValueView>,
    n: nat,
    m: nat,
)
    requires
        n <= m <= items.len(),
        decoded_items(types, steps, context, kind, items, n) is Err,
    ensures
        decoded_items(types, steps, context, kind, items, m) == decoded_items(types, steps, context, kind, items, n),
    decreases m,
{
    if n < m {
        lemma_items_error(types, steps, context, kind, items, n, (m - 1) as nat);
    }
}

/// An error among the first `n` fields of a node is the error of all its
/// fields.
proof fn lemma_fields_error<F: Fn(&str, u32, Value) -> Result<Value, String>>(
    types: Seq<SchemaView>,
    steps: F,
    context: Option<Entries>,
    t: int,
    v: u32,
    members: Seq<(Seq<char>, ValueView)>,
    n: nat,
    m: nat,
)
    requires
        n <= m <= types[t].fields.len(),
        decoded_fields(types, steps, context, t, v, members, n) is Err,
    ensures
        decoded_fields(types, steps, context, t, v, members, m) == decoded_fields(
            types,
            steps,
            context,
            t,
            v,
            members,
            n,
        ),
    decreases m,
{
    if n < m {
        lemma_fields_error(types, steps, context, t, v, members, n, (m - 1) as nat);
    }
}

/// Decodes `x` as a node of type `t`, with the versions that `context`
/// gives.
pub fn decode_node<F: Fn(&str, u32, Value) -> Result<Value, String>>(
    registry: &Registry,
    steps: &F,
    context: &DecodeContext,
    t: usize,
    x: &Value,
) -> (r: Result<Value, DecodeError>)
    requires
        t < registry@.len(),
        steps_callable(registry@, *steps),
        steps_deterministic(*steps),
    ensures
        decoded_view(r) == decoded_node(registry@, *steps, context@, t as int, x@),
    decreases x, 0nat, FieldKind::Plain,
{
    let schema = registry.schema(t);
    let v = context.version_of(schema.name());
    if !schema.has_version(v) {
        return Err(DecodeError::UnknownVersion { name: schema.name().clone(), version: v });
    }
    match x {
        Value::Record(members) => {
            let n = schema.field_count();
            let mut done: Vec<(String, Value)> = Vec::new();
            let mut i: usize = 0;
            assert(members_view(done@) =~= Seq::empty());
            while i < n
                invariant
                    *x == Value::Record(*members),
                    x@ == ValueView::Record(members_view(members@)),
                    v == version_in(context@, schema@.name),
                    schema@.has_version(v),
                    t < registry@.len(),
                    schema@ == registry@[t as int],
                    steps_callable(registry@, *steps),
                    steps_deterministic(*steps),
                    n == schema@.fields.len(),
                    i <= n,
                    decoded_fields(
                        registry@,
                        *steps,
                        context@,
                        t as int,
                        v,
                        members_view(members@),
                        i as nat,
                    ) == Ok::<Seq<(Seq<char>, ValueView)>, DecodeErrorView>(members_view(done@)),
                decreases n - i,
            {
                let field = schema.field(i);
                if field.present_at(v) {
                    let ghost before = members_view(done@);
                    match find_member(members, &field.name) {
                        Some(j) => {
                            assert(decreases_to!(x => members[j as int].1)) by {
                                assert(decreases_to!(*x => (*x)->Record_0));
                                assert(decreases_to!(members => members@));
                                assert(decreases_to!(members@ => members@[j as int]));
                                assert(decreases_to!(members@[j as int] => members@[j as int].1));
                            }
                            match decode_value(registry, steps, context, &field.kind, &members[j].1) {
                                Ok(y) => {
                                    done.push((field.name.clone(), y));
                                    assert(members_view(done@) =~= before.push((field.name@, y@)));
                                },
                                Err(e) => {
                                    proof {
                                        assert(decoded_fields(
                                            registry@,
                                            *steps,
                                            context@,
                                            t as int,
                                            v,
                                            members_view(members@),
                                            (i + 1) as nat,
                                        ) == Err::<Seq<(Seq<char>, ValueView)>, DecodeErrorView>(e@));
                                        lemma_fields_error(
                                            registry@,
                                            *steps,
                                            context@,
                                            t as int,
                                            v,
                                            members_view(members@),
                                            (i + 1) as nat,
                                            n as nat,
                                        );
                                    }
                                    return Err(e);
                                },
                            }
                        },
                        None => {
                            match &field.kind {
                                FieldKind::Optional(_) => {
                                    done.push((field.name.clone(), Value::Null));
                                    assert(members_view(done@) =~= before.push((field.name@, ValueView::Null)));
                                },
                                _ => {
                                    proof {
                                        assert(decoded_fields(
                                            registry@,
                                            *steps,
                                            context@,
                                            t as int,
                                            v,
                                            members_view(members@),
                                            (i + 1) as nat,
                                        ) is Err);
                                        lemma_fields_error(
                                            registry@,
                                            *steps,
                                            context@,
                                            t as int,
                                            v,
                                            members_view(members@),
                                            (i + 1) as nat,
                                            n as nat,
                                        );
                                    }
                                    return Err(
                                        DecodeError::MissingField {
                                            name: schema.name().clone(),
                                            field: field.name.clone(),
                                        },
                                    );
                                },
                            }
                        },
                    }
                }
                i += 1;
            }
            let snapshot = Value::Record(done);
            proof {
                lemma_decoded_fields_conform(
                    registry@,
                    *steps,
                    context@,
                    t as int,
                    v,
                    members_view(members@),
                    n as nat,
                );
            }
            migrate(registry, steps, t, v, snapshot)
        },
        _ => Err(DecodeError::ExpectedRecord { name: schema.name().clone() }),
    }
}

} // verus!
