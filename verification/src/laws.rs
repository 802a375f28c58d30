//! The laws of versioned encoding and decoding.

use vstd::prelude::*;
use crate::decode::{decoded, decoded_fields, decoded_node};
use crate::decode_proofs::{lemma_decode_current, lemma_decoded_conforms, lemma_same_versions, reads_newest};
use crate::encode::{encoded, envelope_of, harvested, versions_member, Mode};
use crate::envelope::{
    decoded_document, decoded_unversioned, entries_of, is_envelope, is_version, newest_entries, opened, scanned,
};
use crate::error::{DecodeErrorView, EnvelopeFault};
use crate::harvest_proofs::{
    entry_of_met, knows, lemma_harvest, lemma_harvest_grows, lemma_occurs_in_registry, occurs,
};
use crate::migration::{migrated, step_accepted, step_spec};
use crate::names::{lemma_position, lemma_position_is};
use crate::registry::registry_wf;
use crate::schema::{
    field_fault, lemma_highest_version, present_below, FieldKind, FieldSpecView, SchemaView,
};
use crate::shape::conforms;
use crate::single::{decoded_single, single_envelope_of, single_opened, single_scanned};
use crate::value::{Value, ValueView};
use crate::versions::{distinct_names, lookup, version_in, Entries};

verus! {

/// The envelope that encoding makes is opened to the map and the value that
/// went into it.
pub proof fn lemma_envelope_opens(entries: Entries, payload: ValueView)
    requires
        distinct_names(entries),
    ensures
        is_envelope(envelope_of(entries, payload)),
        opened(envelope_of(entries, payload)) == Ok::<Option<(Entries, ValueView)>, EnvelopeFault>(
            Some((entries, payload)),
        ),
{
    reveal_strlit("versions");
    reveal_strlit("value");
    reveal_with_fuel(scanned, 3);
    let members = envelope_of(entries, payload)->Record_0;
    assert("versions"@ != "value"@) by {
        assert("versions"@.len() != "value"@.len());
    }
    lemma_position_is(members, "versions"@, 0);
    assert(scanned(members, 2) == Ok::<(Option<int>, Option<int>), EnvelopeFault>((Some(0int), Some(1int))));
    let written = versions_member(entries)->Record_0;
    assert(distinct_names(written));
    assert forall|i: int| 0 <= i < written.len() implies is_version(#[trigger] written[i].1) by {}
    assert(entries_of(versions_member(entries))->Some_0 =~= entries);
}

/// Round trip: a value in the newest shape, encoded with its version map and
/// decoded again, is the value.
pub proof fn lemma_round_trip<F: Fn(&str, u32, Value) -> Result<Value, String>>(
    types: Seq<SchemaView>,
    steps: F,
    kind: FieldKind,
    x: ValueView,
)
    requires
        registry_wf(types),
        conforms(types, kind, x),
    ensures
        decoded_document(types, steps, kind, encoded(types, kind, x, Mode::Versioned)) == Ok::<
            ValueView,
            DecodeErrorView,
        >(x),
{
    let entries = harvested(types, kind, x, Seq::empty());
    lemma_harvest(types, kind, x, Seq::empty());
    lemma_envelope_opens(entries, x);
    assert forall|t: int| #[trigger] occurs(types, kind, x, t) implies reads_newest(types, Some(entries), t) by {
        assert(knows(types, entries, t));
    }
    lemma_decode_current(types, steps, Some(entries), kind, x);
}

/// A value in the newest shape whose types all have a single version is
/// decoded to itself from its bare form, which carries no version map.
pub proof fn lemma_round_trip_bare<F: Fn(&str, u32, Value) -> Result<Value, String>>(
    types: Seq<SchemaView>,
    steps: F,
    kind: FieldKind,
    x: ValueView,
)
    requires
        registry_wf(types),
        conforms(types, kind, x),
        forall|t: int| #[trigger] occurs(types, kind, x, t) ==> types[t].max_version() == 1,
        !is_envelope(x),
    ensures
        decoded_document(types, steps, kind, encoded(types, kind, x, Mode::Unversioned)) == Ok::<
            ValueView,
            DecodeErrorView,
        >(x),
{
    assert forall|t: int| #[trigger] occurs(types, kind, x, t) implies reads_newest(types, None, t) by {}
    lemma_decode_current(types, steps, None, kind, x);
}

/// Round trip in unversioned mode: a value in the newest shape, encoded bare
/// and decoded by a reader of the same build, is the value.
pub proof fn lemma_round_trip_unversioned<F: Fn(&str, u32, Value) -> Result<Value, String>>(
    types: Seq<SchemaView>,
    steps: F,
    kind: FieldKind,
    x: ValueView,
)
    requires
        registry_wf(types),
        conforms(types, kind, x),
    ensures
        decoded_unversioned(types, steps, kind, encoded(types, kind, x, Mode::Unversioned)) == Ok::<
            ValueView,
            DecodeErrorView,
        >(x),
{
    let entries = newest_entries(types);
    assert forall|t: int| #[trigger] occurs(types, kind, x, t) implies reads_newest(types, Some(entries), t) by {
        lemma_occurs_in_registry(types, kind, x, t);
        assert forall|k: int| 0 <= k < t implies (#[trigger] entries[k]).0 != types[t].name by {
            assert(types[k].name != types[t].name);
        }
        lemma_position_is(entries, types[t].name, t);
    }
    lemma_decode_current(types, steps, Some(entries), kind, x);
}

/// Fallback to version 1: bare bytes are decoded as bytes that came with an
/// empty version map.
pub proof fn lemma_bare_as_empty_map<F: Fn(&str, u32, Value) -> Result<Value, String>>(
    types: Seq<SchemaView>,
    steps: F,
    kind: FieldKind,
    x: ValueView,
)
    ensures
        decoded(types, steps, None, kind, x) == decoded(types, steps, Some(Seq::empty()), kind, x),
{
    assert forall|name: Seq<char>| #[trigger]
        version_in(None, name) == version_in(Some(Entries::empty()), name) by {
        lemma_position(Entries::empty(), name);
    }
    lemma_same_versions(types, steps, None, Some(Seq::empty()), kind, x);
}

/// Fallback to version 1: a version map without an entry for a name decodes
/// as the map with the entry `name -> 1` added.
pub proof fn lemma_absent_as_version_one<F: Fn(&str, u32, Value) -> Result<Value, String>>(
    types: Seq<SchemaView>,
    steps: F,
    entries: Entries,
    name: Seq<char>,
    kind: FieldKind,
    x: ValueView,
)
    requires
        lookup(entries, name) is None,
    ensures
        decoded(types, steps, Some(entries), kind, x) == decoded(types, steps, Some(entries.push((name, 1u32))), kind, x),
{
    let more = entries.push((name, 1u32));
    assert forall|other: Seq<char>| #[trigger] version_in(Some(entries), other) == version_in(Some(more), other) by {
        assert(more.drop_last() =~= entries);
        lemma_position(entries, other);
    }
    lemma_same_versions(types, steps, Some(entries), Some(more), kind, x);
}

/// Fallback to version 1: a node whose type the context does not name is
/// read as a snapshot of version 1 and upgraded by the whole migration chain.
pub proof fn lemma_version_one_fallback<F: Fn(&str, u32, Value) -> Result<Value, String>>(
    types: Seq<SchemaView>,
    steps: F,
    context: Option<Entries>,
    t: int,
    members: Seq<(Seq<char>, ValueView)>,
)
    requires
        0 <= t < types.len(),
        match context {
            Some(entries) => lookup(entries, types[t].name) is None,
            None => true,
        },
    ensures
        decoded_node(types, steps, context, t, ValueView::Record(members)) == match decoded_fields(
            types,
            steps,
            context,
            t,
            1,
            members,
            types[t].fields.len(),
        ) {
            Ok(snapshot) => migrated(types, steps, t, 1, ValueView::Record(snapshot)),
            Err(e) => Err(e),
        },
{
    lemma_highest_version(types[t].fields);
}

/// Nested propagation: after the dry pass the version map holds, for every
/// type of which a node was met, however deep, that type's newest version
/// under its name.
pub proof fn lemma_nested_propagation(types: Seq<SchemaView>, kind: FieldKind, x: ValueView, t: int)
    requires
        registry_wf(types),
        occurs(types, kind, x, t),
    ensures
        lookup(harvested(types, kind, x, Seq::empty()), types[t].name) == Some(types[t].max_version()),
{
    lemma_harvest(types, kind, x, Seq::empty());
    assert(knows(types, harvested(types, kind, x, Seq::empty()), t));
}

/// The version map of the dry pass depends only on which types were met: it
/// has one entry for each of them, with the type's name and newest version,
/// and no other entry.
pub proof fn lemma_harvest_is_what_was_met(types: Seq<SchemaView>, kind: FieldKind, x: ValueView)
    requires
        registry_wf(types),
    ensures
        distinct_names(harvested(types, kind, x, Seq::empty())),
        forall|t: int| #[trigger]
            occurs(types, kind, x, t) ==> lookup(harvested(types, kind, x, Seq::empty()), types[t].name) == Some(
                types[t].max_version(),
            ),
        forall|i: int|
            0 <= i < harvested(types, kind, x, Seq::empty()).len() ==> entry_of_met(
                types,
                #[trigger] harvested(types, kind, x, Seq::empty())[i],
                |t: int| occurs(types, kind, x, t),
            ),
{
    let map = harvested(types, kind, x, Seq::empty());
    lemma_harvest(types, kind, x, Seq::empty());
    lemma_harvest_grows(types, kind, x, Seq::empty());
    assert forall|t: int| #[trigger] occurs(types, kind, x, t) implies lookup(map, types[t].name) == Some(
        types[t].max_version(),
    ) by {
        assert(knows(types, map, t));
    }
}

/// Chain composition: a snapshot of the newest version is the value, with no
/// step applied.
pub proof fn lemma_chain_ends<F: Fn(&str, u32, Value) -> Result<Value, String>>(
    types: Seq<SchemaView>,
    steps: F,
    t: int,
    snapshot: ValueView,
)
    ensures
        migrated(types, steps, t, types[t].max_version(), snapshot) == Ok::<ValueView, DecodeErrorView>(snapshot),
{
    lemma_highest_version(types[t].fields);
}

/// Chain composition: a snapshot of an older version `v` goes through the
/// step from `v` first, and what that step returns goes through the chain
/// from `v + 1`.
pub proof fn lemma_chain_steps<F: Fn(&str, u32, Value) -> Result<Value, String>>(
    types: Seq<SchemaView>,
    steps: F,
    t: int,
    v: u32,
    snapshot: ValueView,
)
    requires
        1 <= v < types[t].max_version(),
    ensures
        migrated(types, steps, t, v, snapshot) == match step_accepted(
            types,
            t,
            v,
            step_spec(steps, types[t].name, v, snapshot),
        ) {
            Ok(next) => migrated(types, steps, t, (v + 1) as u32, next),
            Err(e) => Err(e),
        },
{
}

/// Rejection: a node whose type the context gives a version that the type
/// does not have is refused with that name and that number, whatever the
/// bytes of the node are.
pub proof fn lemma_unknown_version_rejected<F: Fn(&str, u32, Value) -> Result<Value, String>>(
    types: Seq<SchemaView>,
    steps: F,
    context: Option<Entries>,
    t: usize,
    x: ValueView,
)
    requires
        t < types.len(),
        version_in(context, types[t as int].name) == 0 || version_in(context, types[t as int].name)
            > types[t as int].max_version(),
    ensures
        decoded(types, steps, context, FieldKind::Versioned(t), x) == Err::<ValueView, DecodeErrorView>(
            DecodeErrorView::UnknownVersion {
                name: types[t as int].name,
                version: version_in(context, types[t as int].name),
            },
        ),
        migrated(types, steps, t as int, version_in(context, types[t as int].name), x) == Err::<
            ValueView,
            DecodeErrorView,
        >(
            DecodeErrorView::UnknownVersion {
                name: types[t as int].name,
                version: version_in(context, types[t as int].name),
            },
        ),
{
    assert(decoded(types, steps, context, FieldKind::Versioned(t), x) == decoded_node(
        types,
        steps,
        context,
        t as int,
        x,
    ));
}

/// Unversioned mode is shape-stable: the `value` member of what versioned
/// mode gives is what unversioned mode gives, which is the value itself.
pub proof fn lemma_unversioned_is_value_member(types: Seq<SchemaView>, kind: FieldKind, x: ValueView)
    ensures
        encoded(types, kind, x, Mode::Unversioned) == x,
        encoded(types, kind, x, Mode::Versioned) == envelope_of(
            harvested(types, kind, x, Seq::empty()),
            encoded(types, kind, x, Mode::Unversioned),
        ),
        encoded(types, kind, x, Mode::Versioned)->Record_0.len() == 2,
        encoded(types, kind, x, Mode::Versioned)->Record_0[1] == ("value"@, encoded(types, kind, x, Mode::Unversioned)),
{
}

/// What decoding gives, from an envelope or from bare bytes, is a value of
/// the kind that was asked for, every versioned node in it in the shape of
/// its type's newest version.
pub proof fn lemma_decoded_is_current<F: Fn(&str, u32, Value) -> Result<Value, String>>(
    types: Seq<SchemaView>,
    steps: F,
    kind: FieldKind,
    x: ValueView,
)
    ensures
        decoded_document(types, steps, kind, x) is Ok ==> conforms(
            types,
            kind,
            decoded_document(types, steps, kind, x)->Ok_0,
        ),
{
    match opened(x) {
        Ok(Some(parts)) => {
            lemma_decoded_conforms(types, steps, Some(parts.0), kind, parts.1);
        },
        Ok(None) => {
            lemma_decoded_conforms(types, steps, None, kind, x);
        },
        Err(_) => {},
    }
}

/// Round trip through the envelope of a single type: a value in the newest
/// shape whose fields hold no node of a type with more than one version is
/// decoded to itself.
pub proof fn lemma_round_trip_single<F: Fn(&str, u32, Value) -> Result<Value, String>>(
    types: Seq<SchemaView>,
    steps: F,
    t: usize,
    x: ValueView,
)
    requires
        registry_wf(types),
        conforms(types, FieldKind::Versioned(t), x),
        forall|u: int| #[trigger]
            occurs(types, FieldKind::Versioned(t), x, u) ==> u == t || types[u].max_version() == 1,
    ensures
        decoded_single(types, steps, t as int, single_envelope_of(types[t as int].max_version(), x)) == Ok::<
            ValueView,
            DecodeErrorView,
        >(x),
{
    reveal_strlit("version");
    reveal_strlit("value");
    reveal_with_fuel(single_scanned, 3);
    let max = types[t as int].max_version();
    let members = single_envelope_of(max, x)->Record_0;
    assert("version"@ != "value"@) by {
        assert("version"@.len() != "value"@.len());
    }
    assert(single_scanned(members, 2) == Ok::<(Option<u32>, Option<int>), EnvelopeFault>(
        (Some(max), Some(1int)),
    ));
    assert(single_opened(single_envelope_of(max, x)) == Ok::<(u32, ValueView), EnvelopeFault>((max, x)));
    let entries: Entries = seq![(types[t as int].name, max)];
    assert forall|u: int| #[trigger] occurs(types, FieldKind::Versioned(t), x, u) implies reads_newest(
        types,
        Some(entries),
        u,
    ) by {
        lemma_position(entries, types[u].name);
        lemma_occurs_in_registry(types, FieldKind::Versioned(t), x, u);
        if u != t {
            assert(types[u].name != types[t as int].name);
        } else {
            lemma_position_is(entries, types[t as int].name, 0);
        }
    }
    lemma_decode_current(types, steps, Some(entries), FieldKind::Versioned(t), x);
    assert(decoded(types, steps, Some(entries), FieldKind::Versioned(t), x) == decoded_node(
        types,
        steps,
        Some(entries),
        t as int,
        x,
    ));
}

/// The indices of a snapshot ascend, each is that of a field that exists in
/// the version, and no such field is left out.
pub proof fn lemma_snapshot(fields: Seq<FieldSpecView>, v: u32, n: nat)
    requires
        n <= fields.len(),
    ensures
        forall|k: int|
            0 <= k < present_below(fields, v, n).len() ==> 0 <= #[trigger] present_below(fields, v, n)[k] < n
                && fields[present_below(fields, v, n)[k]].present_at(v),
        forall|j: int, k: int|
            0 <= j < k < present_below(fields, v, n).len() ==> present_below(fields, v, n)[j] < present_below(
                fields,
                v,
                n,
            )[k],
        forall|i: int|
            0 <= i < n && (#[trigger] fields[i]).present_at(v) ==> present_below(fields, v, n).contains(i),
    decreases n,
{
    if n > 0 {
        let before = present_below(fields, v, (n - 1) as nat);
        let now = present_below(fields, v, n);
        lemma_snapshot(fields, v, (n - 1) as nat);
        assert forall|i: int| 0 <= i < n && (#[trigger] fields[i]).present_at(v) implies now.contains(i) by {
            if i < n - 1 {
                let k = choose|k: int| 0 <= k < before.len() && before[k] == i;
                assert(now[k] == i);
            } else {
                assert(now[now.len() - 1] == i);
            }
        }
    }
}

/// The fields of the newest version are those that are never removed.
pub proof fn lemma_newest_snapshot(schema: SchemaView, i: int)
    requires
        schema.wf(),
        0 <= i < schema.fields.len(),
    ensures
        schema.fields[i].present_at(schema.max_version()) <==> schema.fields[i].end is None,
{
    lemma_highest_version(schema.fields);
    assert(field_fault(schema.fields, i) is None);
}

/// The fields of version 1 are those that start there.
pub proof fn lemma_first_snapshot(schema: SchemaView, i: int)
    requires
        schema.wf(),
        0 <= i < schema.fields.len(),
    ensures
        schema.fields[i].present_at(1) <==> schema.fields[i].start == 1,
{
    assert(field_fault(schema.fields, i) is None);
}

/// Two consecutive snapshots differ by exactly the fields that enter and the
/// fields that leave: a field is in version `v + 1` and not in `v` if it
/// starts at `v + 1` and does not end there or before, in `v` and not in
/// `v + 1` if it ends at `v + 1` and started at `v` or before, and in both or
/// in neither otherwise.
pub proof fn lemma_consecutive_snapshots(field: FieldSpecView, v: u32)
    requires
        v < u32::MAX,
    ensures
        (field.present_at((v + 1) as u32) && !field.present_at(v)) <==> (field.start == v + 1 && match field.end {
            Some(e) => e > v + 1,
            None => true,
        }),
        (field.present_at(v) && !field.present_at((v + 1) as u32)) <==> (field.end == Some((v + 1) as u32)
            && field.start <= v),
{
}

/// No version has two fields of one name: two fields of a schema that exist
/// together in a version are called differently.
pub proof fn lemma_snapshot_names_differ(schema: SchemaView, v: u32, i: int, j: int)
    requires
        schema.wf(),
        0 <= j < i < schema.fields.len(),
        schema.fields[i].present_at(v),
        schema.fields[j].present_at(v),
    ensures
        schema.fields[i].name != schema.fields[j].name,
{
    assert(field_fault(schema.fields, i) is None);
    assert(schema.fields[j].overlaps(schema.fields[i]));
}

/// A name may be used again: a field that starts where an earlier one ends,
/// or after, exists together with it in no version.
pub proof fn lemma_successor_is_apart(earlier: FieldSpecView, later: FieldSpecView)
    requires
        earlier.end is Some,
        later.start >= earlier.end->Some_0,
    ensures
        !earlier.overlaps(later),
        !later.overlaps(earlier),
{
}

} // verus!
