//! The envelope: the record that carries the version map beside the value,
//! and the simpler one that carries the version of a single type.

use vstd::prelude::*;
use crate::decode::{decode_value, decoded};
use crate::error::{DecodeError, DecodeErrorView, EnvelopeFault};
use crate::migration::{decoded_view, steps_callable, steps_deterministic};
use crate::names::{lemma_position, position};
use crate::registry::{registry_wf, Registry};
use crate::schema::{FieldKind, SchemaView};
use crate::value::{find_member, members_view, Value, ValueView};
use crate::versions::{distinct_names, DecodeContext, Entries, VersionMap};

verus! {

/// `x` is taken for an envelope: it is a record with a member `versions`.
pub open spec fn is_envelope(x: ValueView) -> bool {
    x is Record && position(x->Record_0, "versions"@) is Some
}

/// Where `versions` and `value` stand among the first `n` members of an
/// envelope. The members are read in order, and the first that is a second
/// `versions`, a second `value` or neither of the two is the fault.
pub open spec fn scanned(members: Seq<(Seq<char>, ValueView)>, n: nat) -> Result<
    (Option<int>, Option<int>),
    EnvelopeFault,
>
    decreases n,
{
    if n == 0 {
        Ok((None, None))
    } else {
        match scanned(members, (n - 1) as nat) {
            Ok(slots) => {
                let name = members[n - 1].0;
                if name == "versions"@ {
                    if slots.0 is Some {
                        Err(EnvelopeFault::DuplicateVersions)
                    } else {
                        Ok((Some(n - 1), slots.1))
                    }
                } else if name == "value"@ {
                    if slots.1 is Some {
                        Err(EnvelopeFault::DuplicateValue)
                    } else {
                        Ok((slots.0, Some(n - 1)))
                    }
                } else {
                    Err(EnvelopeFault::UnexpectedMember)
                }
            },
            Err(fault) => Err(fault),
        }
    }
}

/// `x` is an unsigned number that fits a version.
pub open spec fn is_version(x: ValueView) -> bool {
    x is UInt && x->UInt_0 <= u32::MAX
}

/// The version map that the member `versions` holds, if it holds one: a
/// record of unsigned numbers that fit a version, each under a name of its
/// own.
pub open spec fn entries_of(x: ValueView) -> Option<Entries> {
    match x {
        ValueView::Record(members) => if distinct_names(members) && forall|i: int|
            0 <= i < members.len() ==> is_version(#[trigger] members[i].1) {
            Some(Seq::new(members.len(), |i: int| (members[i].0, members[i].1->UInt_0 as u32)))
        } else {
            None
        },
        _ => None,
    }
}

/// What an envelope holds: its version map and its value. `Ok(None)` says
/// that `x` is no envelope.
pub open spec fn opened(x: ValueView) -> Result<Option<(Entries, ValueView)>, EnvelopeFault> {
    if !is_envelope(x) {
        Ok(None)
    } else {
        let members = x->Record_0;
        match scanned(members, members.len()) {
            Ok(slots) => match slots.1 {
                Some(j) => match slots.0 {
                    Some(i) => match entries_of(members[i].1) {
                        Some(entries) => Ok(Some((entries, members[j].1))),
                        None => Err(EnvelopeFault::BadVersions),
                    },
                    None => Ok(None),
                },
                None => Err(EnvelopeFault::MissingValue),
            },
            Err(fault) => Err(fault),
        }
    }
}

/// What `x` decodes to as a value of kind `kind`, whether it comes in an
/// envelope or bare. Bare, every node is read as version 1.
pub open spec fn decoded_document<F: Fn(&str, u32, Value) -> Result<Value, String>>(
    types: Seq<SchemaView>,
    steps: F,
    kind: FieldKind,
    x: ValueView,
) -> Result<ValueView, DecodeErrorView> {
    match opened(x) {
        Ok(Some(parts)) => decoded(types, steps, Some(parts.0), kind, parts.1),
        Ok(None) => decoded(types, steps, None, kind, x),
        Err(fault) => Err(DecodeErrorView::EnvelopeMalformed(fault)),
    }
}

/// The version map that the member `versions` holds, if it holds one.
pub fn read_versions(x: &Value) -> (map: Option<VersionMap>)
    ensures
        match map {
            Some(map) => entries_of(x@) == Some(map@),
            None => entries_of(x@) is None,
        },
{
    match x {
        Value::Record(members) => {
            let ghost names = members_view(members@);
            let mut map = VersionMap::new();
            let mut i: usize = 0;
            while i < members.len()
                invariant
                    x@ == ValueView::Record(names),
                    names == members_view(members@),
                    i <= members.len(),
                    map@.len() == i,
                    forall|k: int| 0 <= k < i ==> is_version(#[trigger] names[k].1),
                    forall|k: int| 0 <= k < i ==> #[trigger] map@[k] == (names[k].0, names[k].1->UInt_0 as u32),
                    forall|a: int, b: int| 0 <= a < b < i ==> (#[trigger] names[a]).0 != (#[trigger] names[b]).0,
                decreases members.len() - i,
            {
                let name = &members[i].0;
                assert(names[i as int] == (members[i as int].0@, members[i as int].1@));
                match &members[i].1 {
                    Value::UInt(n) => {
                        if *n > 0xffff_ffff {
                            assert(!is_version(names[i as int].1));
                            return None;
                        }
                        proof {
                            lemma_position(map@, name@);
                        }
                        match map.get(name) {
                            Some(_) => {
                                proof {
                                    let k = position(map@, name@)->Some_0;
                                    assert(map@[k].0 == name@);
                                    assert(names[k].0 == names[i as int].0);
                                }
                                return None;
                            },
                            None => {},
                        }
                        map.record(name, *n as u32);
                        assert forall|a: int, b: int| 0 <= a < b < i + 1 implies (#[trigger] names[a]).0 != (
                        #[trigger] names[b]).0 by {
                            if b == i {
                                assert(map@[a].0 == names[a].0);
                            }
                        }
                    },
                    _ => {
                        assert(!is_version(names[i as int].1));
                        return None;
                    },
                }
                i += 1;
            }
            assert(map@ =~= entries_of(x@)->Some_0);
            Some(map)
        },
        _ => None,
    }
}

/// Opens an envelope: gives its version map and its value, or `Ok(None)` if
/// `x` is no envelope.
pub fn open_envelope(x: &Value) -> (r: Result<Option<(VersionMap, &Value)>, EnvelopeFault>)
    ensures
        match r {
            Ok(Some(parts)) => opened(x@) == Ok::<Option<(Entries, ValueView)>, EnvelopeFault>(
                Some((parts.0@, parts.1@)),
            ),
            Ok(None) => opened(x@) == Ok::<Option<(Entries, ValueView)>, EnvelopeFault>(None),
            Err(fault) => opened(x@) == Err::<Option<(Entries, ValueView)>, EnvelopeFault>(fault),
        },
{
    match x {
        Value::Record(members) => {
            let versions_key = "versions".to_owned();
            let value_key = "value".to_owned();
            if find_member(members, &versions_key).is_none() {
                return Ok(None);
            }
            let ghost names = members_view(members@);
            let mut versions_at: Option<usize> = None;
            let mut value_at: Option<usize> = None;
            let mut i: usize = 0;
            while i < members.len()
                invariant
                    x@ == ValueView::Record(names),
                    names == members_view(members@),
                    is_envelope(x@),
                    versions_key@ == "versions"@,
                    value_key@ == "value"@,
                    i <= members.len(),
                    versions_at is Some ==> versions_at->Some_0 < i,
                    value_at is Some ==> value_at->Some_0 < i,
                    scanned(names, i as nat) == Ok::<(Option<int>, Option<int>), EnvelopeFault>(
                        (
                            match versions_at {
                                Some(k) => Some(k as int),
                                None => None,
                            },
                            match value_at {
                                Some(k) => Some(k as int),
                                None => None,
                            },
                        ),
                    ),
                decreases members.len() - i,
            {
                assert(names[i as int].0 == members[i as int].0@);
                if members[i].0 == versions_key {
                    if versions_at.is_some() {
                        proof {
                            lemma_scan_fault(names, (i + 1) as nat, members.len() as nat);
                        }
                        return Err(EnvelopeFault::DuplicateVersions);
                    }
                    versions_at = Some(i);
                } else if members[i].0 == value_key {
                    if value_at.is_some() {
                        proof {
                            lemma_scan_fault(names, (i + 1) as nat, members.len() as nat);
                        }
                        return Err(EnvelopeFault::DuplicateValue);
                    }
                    value_at = Some(i);
                } else {
                    proof {
                        lemma_scan_fault(names, (i + 1) as nat, members.len() as nat);
                    }
                    return Err(EnvelopeFault::UnexpectedMember);
                }
                i += 1;
            }
            match value_at {
                Some(j) => match versions_at {
                    Some(k) => {
                        assert(names[k as int].1 == members[k as int].1@);
                        assert(names[j as int].1 == members[j as int].1@);
                        match read_versions(&members[k].1) {
                            Some(map) => Ok(Some((map, &members[j].1))),
                            None => Err(EnvelopeFault::BadVersions),
                        }
                    },
                    None => Ok(None),
                },
                None => Err(EnvelopeFault::MissingValue),
            }
        },
        _ => Ok(None),
    }
}

/// A fault among the first `n` members of an envelope is the fault of the
/// whole envelope.
proof fn lemma_scan_fault(members: Seq<(Seq<char>, ValueView)>, n: nat, m: nat)
    requires
        n <= m,
        scanned(members, n) is Err,
    ensures
        scanned(members, m) == scanned(members, n),
    decreases m,
{
    if n < m {
        lemma_scan_fault(members, n, (m - 1) as nat);
    }
}

/// Decodes `x` as a value of kind `kind`.
///
/// If `x` is an envelope, its version map becomes the context in which its
/// value is decoded. If it is not, `x` itself is decoded in the empty
/// context, in which every node is read as version 1.
pub fn decode<F: Fn(&str, u32, Value) -> Result<Value, String>>(
    registry: &Registry,
    steps: &F,
    kind: &FieldKind,
    x: &Value,
) -> (r: Result<Value, DecodeError>)
    requires
        steps_callable(registry@, *steps),
        steps_deterministic(*steps),
    ensures
        decoded_view(r) == decoded_document(registry@, *steps, *kind, x@),
{
    match open_envelope(x) {
        Ok(Some(parts)) => {
            let context = DecodeContext::with_versions(parts.0);
            decode_value(registry, steps, &context, kind, parts.1)
        },
        Ok(None) => {
            let context = DecodeContext::empty();
            decode_value(registry, steps, &context, kind, x)
        },
        Err(fault) => Err(DecodeError::EnvelopeMalformed(fault)),
    }
}

/// The version map of a writer of this build: every type of the registry
/// with its newest version.
pub open spec fn newest_entries(types: Seq<SchemaView>) -> Entries {
    Seq::new(types.len(), |t: int| (types[t].name, types[t].max_version()))
}

/// What `x` decodes to as a value of kind `kind` that a writer of this build
/// encoded in unversioned mode: every node is read as its type's newest
/// version.
pub open spec fn decoded_unversioned<F: Fn(&str, u32, Value) -> Result<Value, String>>(
    types: Seq<SchemaView>,
    steps: F,
    kind: FieldKind,
    x: ValueView,
) -> Result<ValueView, DecodeErrorView> {
    decoded(types, steps, Some(newest_entries(types)), kind, x)
}

/// The version map of a writer of this build.
pub fn newest_versions(registry: &Registry) -> (map: VersionMap)
    ensures
        map@ == newest_entries(registry@),
{
    let mut map = VersionMap::new();
    let n = registry.len();
    let mut t: usize = 0;
    while t < n
        invariant
            registry_wf(registry@),
            n == registry@.len(),
            t <= n,
            map@ == newest_entries(registry@).take(t as int),
        decreases n - t,
    {
        let schema = registry.schema(t);
        proof {
            lemma_position(map@, schema@.name);
            assert forall|k: int| 0 <= k < map@.len() implies (#[trigger] map@[k]).0 != schema@.name by {
                assert(registry@[k].name != registry@[t as int].name);
            }
        }
        map.record(schema.name(), schema.max_version());
        assert(map@ =~= newest_entries(registry@).take(t + 1));
        t += 1;
    }
    assert(map@ =~= newest_entries(registry@));
    map
}

/// Decodes `x`, the bare value that a writer of this build encoded in
/// unversioned mode, as a value of kind `kind`. Every node is read as its
/// type's newest version, so no migration step runs.
pub fn decode_unversioned<F: Fn(&str, u32, Value) -> Result<Value, String>>(
    registry: &Registry,
    steps: &F,
    kind: &FieldKind,
    x: &Value,
) -> (r: Result<Value, DecodeError>)
    requires
        steps_callable(registry@, *steps),
        steps_deterministic(*steps),
    ensures
        decoded_view(r) == decoded_unversioned(registry@, *steps, *kind, x@),
{
    let context = DecodeContext::with_versions(newest_versions(registry));
    decode_value(registry, steps, &context, kind, x)
}

} // verus!
