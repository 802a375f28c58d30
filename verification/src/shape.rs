//! The shape of a value: whether it is what a kind, or a snapshot of a type,
//! asks for.

use vstd::prelude::*;
use crate::registry::Registry;
use crate::schema::{present_below, FieldKind, FieldSpecView, SchemaView};
use crate::value::{items_view, members_view, Value, ValueView};

verus! {

/// `x` is a value of kind `kind`, every versioned node in it in the shape of
/// its type's newest version.
pub open spec fn conforms(types: Seq<SchemaView>, kind: FieldKind, x: ValueView) -> bool
    decreases x, 1nat, kind,
{
    match kind {
        FieldKind::Plain => true,
        FieldKind::Optional(inner) => x is Null || conforms(types, *inner, x),
        FieldKind::List(inner) => match x {
            ValueView::List(items) => forall|i: int|
                0 <= i < items.len() ==> conforms(types, *inner, #[trigger] items[i]),
            _ => false,
        },
        FieldKind::Versioned(t) => t < types.len() && conforms_at(
            types,
            t as int,
            types[t as int].max_version(),
            x,
        ),
    }
}

/// `x` is a snapshot of version `v` of type `t`: a record of exactly the
/// fields of that version, in the order of their declaration, each holding a
/// value of its kind.
pub open spec fn conforms_at(types: Seq<SchemaView>, t: int, v: u32, x: ValueView) -> bool
    decreases x, 0nat, FieldKind::Plain,
{
    match x {
        ValueView::Record(members) => {
            let fields = types[t].fields;
            let snapshot = types[t].snapshot(v);
            &&& members.len() == snapshot.len()
            &&& forall|k: int|
                0 <= k < members.len() ==> {
                    &&& (#[trigger] members[k]).0 == fields[snapshot[k]].name
                    &&& conforms(types, fields[snapshot[k]].kind, members[k].1)
                }
        },
        _ => false,
    }
}

/// The indices below `n` of the fields of a version are indices below `n`
/// of fields that exist in the version, and they are the first of those
/// below any greater bound.
pub proof fn lemma_present_below(fields: Seq<FieldSpecView>, v: u32, n: nat, m: nat)
    requires
        n <= m,
    ensures
        present_below(fields, v, n).len() <= n,
        present_below(fields, v, n).len() <= present_below(fields, v, m).len(),
        forall|k: int|
            0 <= k < present_below(fields, v, n).len() ==> {
                &&& 0 <= #[trigger] present_below(fields, v, n)[k] < n
                &&& fields[present_below(fields, v, n)[k]].present_at(v)
                &&& present_below(fields, v, m)[k] == present_below(fields, v, n)[k]
            },
    decreases m,
{
    if n < m {
        lemma_present_below(fields, v, n, (m - 1) as nat);
    } else if n > 0 {
        lemma_present_below(fields, v, (n - 1) as nat, (n - 1) as nat);
    }
}

/// Whether `x` is a value of kind `kind`, every versioned node in it in the
/// shape of its type's newest version.
pub fn check_conforms(registry: &Registry, kind: &FieldKind, x: &Value) -> (ok: bool)
    ensures
        ok == conforms(registry@, *kind, x@),
    decreases x, 1nat, kind,
{
    match kind {
        FieldKind::Plain => true,
        FieldKind::Optional(inner) => {
            match x {
                Value::Null => true,
                _ => check_conforms(registry, inner, x),
            }
        },
        FieldKind::List(inner) => {
            match x {
                Value::List(items) => {
                    let mut i: usize = 0;
                    while i < items.len()
                        invariant
                            *x == Value::List(*items),
                            *kind == FieldKind::List(*inner),
                            x@ == ValueView::List(items_view(items@)),
                            i <= items.len(),
                            forall|j: int| 0 <= j < i ==> conforms(registry@, **inner, #[trigger] items[j]@),
                        decreases items.len() - i,
                    {
                        assert(decreases_to!(x => items[i as int])) by {
                            assert(decreases_to!(*x => (*x)->List_0));
                            assert(decreases_to!(items => items@));
                            assert(decreases_to!(items@ => items@[i as int]));
                        }
                        if !check_conforms(registry, inner, &items[i]) {
                            assert(x@->List_0[i as int] == items[i as int]@);
                            return false;
                        }
                        i += 1;
                    }
                    assert forall|j: int| 0 <= j < items.len() implies conforms(
                        registry@,
                        **inner,
                        #[trigger] items_view(items@)[j],
                    ) by {
                        assert(items_view(items@)[j] == items[j]@);
                    }
                    true
                },
                _ => false,
            }
        },
        FieldKind::Versioned(t) => {
            if *t < registry.len() {
                let max = registry.schema(*t).max_version();
                check_snapshot(registry, *t, max, x)
            } else {
                false
            }
        },
    }
}

/// Whether `x` is a snapshot of version `v` of type `t`.
pub fn check_snapshot(registry: &Registry, t: usize, v: u32, x: &Value) -> (ok: bool)
    requires
        t < registry@.len(),
    ensures
        ok == conforms_at(registry@, t as int, v, x@),
    decreases x, 0nat, FieldKind::Plain,
{
    match x {
        Value::Record(members) => {
            let schema = registry.schema(t);
            let ghost fields = schema@.fields;
            let ghost snapshot = schema@.snapshot(v);
            let n = schema.field_count();
            let mut i: usize = 0;
            let mut k: usize = 0;
            while i < n
                invariant
                    *x == Value::Record(*members),
                    x@ == ValueView::Record(members_view(members@)),
                    t < registry@.len(),
                    schema@ == registry@[t as int],
                    fields == schema@.fields,
                    snapshot == schema@.snapshot(v),
                    n == fields.len(),
                    i <= n,
                    k == present_below(fields, v, i as nat).len(),
                    k <= members.len(),
                    forall|j: int|
                        0 <= j < k ==> {
                            &&& (#[trigger] members[j]).0@ == fields[snapshot[j]].name
                            &&& conforms(registry@, fields[snapshot[j]].kind, members[j].1@)
                        },
                decreases n - i,
            {
                proof {
                    lemma_present_below(fields, v, (i + 1) as nat, n as nat);
                    lemma_present_below(fields, v, i as nat, (i + 1) as nat);
                }
                let field = schema.field(i);
                if field.present_at(v) {
                    assert(present_below(fields, v, (i + 1) as nat)[k as int] == i);
                    assert(snapshot[k as int] == i);
                    if k >= members.len() {
                        return false;
                    }
                    assert(members_view(members@)[k as int] == (members[k as int].0@, members[k as int].1@));
                    if members[k].0 != field.name {
                        return false;
                    }
                    assert(decreases_to!(x => members[k as int].1)) by {
                        assert(decreases_to!(*x => (*x)->Record_0));
                        assert(decreases_to!(members => members@));
                        assert(decreases_to!(members@ => members@[k as int]));
                        assert(decreases_to!(members@[k as int] => members@[k as int].1));
                    }
                    if !check_conforms(registry, &field.kind, &members[k].1) {
                        return false;
                    }
                    k += 1;
                }
                i += 1;
            }
            if k != members.len() {
                return false;
            }
            true
        },
        _ => false,
    }
}

} // verus!
