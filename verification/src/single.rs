//! The envelope of a single type: a record of `version`, then `value`, or
//! the list of the two where the format writes no names. It serves one
//! standalone value whose fields hold no versioned values, and it is read
//! member by member, so the version must come first.

use vstd::prelude::*;
use crate::decode::{decode_node, decoded_node};
use crate::envelope::is_version;
use crate::error::{DecodeError, DecodeErrorView, EnvelopeFault};
use crate::migration::{decoded_view, steps_callable, steps_deterministic};
use crate::registry::Registry;
use crate::schema::SchemaView;
use crate::value::{items_view, members_view, Value, ValueView};
use crate::versions::{DecodeContext, VersionMap};

verus! {

/// The envelope of a single type around a value of version `v`.
pub open spec fn single_envelope_of(v: u32, payload: ValueView) -> ValueView {
    ValueView::Record(seq![("version"@, ValueView::UInt(v as u64)), ("value"@, payload)])
}

/// What was read of the first `n` members of an envelope of a single type:
/// the version, and where the value stands. The members are read in order.
/// The first that is a second `version`, a `version` that is no version, a
/// second `value`, a `value` before any `version`, or neither of the two, is
/// the fault.
pub open spec fn single_scanned(members: Seq<(Seq<char>, ValueView)>, n: nat) -> Result<
    (Option<u32>, Option<int>),
    EnvelopeFault,
>
    decreases n,
{
    if n == 0 {
        Ok((None, None))
    } else {
        match single_scanned(members, (n - 1) as nat) {
            Ok(slots) => {
                let member = members[n - 1];
                if member.0 == "version"@ {
                    if slots.0 is Some {
                        Err(EnvelopeFault::DuplicateVersion)
                    } else if is_version(member.1) {
                        Ok((Some(member.1->UInt_0 as u32), slots.1))
                    } else {
                        Err(EnvelopeFault::BadVersion)
                    }
                } else if member.0 == "value"@ {
                    if slots.1 is Some {
                        Err(EnvelopeFault::DuplicateValue)
                    } else if slots.0 is None {
                        Err(EnvelopeFault::ValueBeforeVersion)
                    } else {
                        Ok((slots.0, Some(n - 1)))
                    }
                } else {
                    Err(EnvelopeFault::UnexpectedMember)
                }
            },
            Err(fault) => Err(fault),
        }
    }
}

/// What an envelope of a single type holds: the version and the value.
///
/// A record is read member by member. A list is the version, then the value,
/// and nothing else.
pub open spec fn single_opened(x: ValueView) -> Result<(u32, ValueView), EnvelopeFault> {
    match x {
        ValueView::List(items) => if items.len() == 0 {
            Err(EnvelopeFault::MissingVersion)
        } else if !is_version(items[0]) {
            Err(EnvelopeFault::BadVersion)
        } else if items.len() == 1 {
            Err(EnvelopeFault::MissingValue)
        } else if items.len() > 2 {
            Err(EnvelopeFault::UnexpectedMember)
        } else {
            Ok((items[0]->UInt_0 as u32, items[1]))
        },
        ValueView::Record(members) => match single_scanned(members, members.len()) {
            Ok(slots) => match slots.1 {
                Some(j) => match slots.0 {
                    Some(v) => Ok((v, members[j].1)),
                    None => Err(EnvelopeFault::ValueBeforeVersion),
                },
                None => Err(EnvelopeFault::MissingValue),
            },
            Err(fault) => Err(fault),
        },
        _ => Err(EnvelopeFault::NotAnEnvelope),
    }
}

/// What the envelope of a single type `x` decodes to as a node of type `t`.
/// The version map of the call holds the one entry that the envelope gives.
pub open spec fn decoded_single<F: Fn(&str, u32, Value) -> Result<Value, String>>(
    types: Seq<SchemaView>,
    steps: F,
    t: int,
    x: ValueView,
) -> Result<ValueView, DecodeErrorView> {
    match single_opened(x) {
        Ok(parts) => decoded_node(types, steps, Some(seq![(types[t].name, parts.0)]), t, parts.1),
        Err(fault) => Err(DecodeErrorView::EnvelopeMalformed(fault)),
    }
}

/// Wraps `x`, a value of type `t` in the shape of its newest version, in the
/// envelope of a single type.
pub fn encode_single(registry: &Registry, t: usize, x: &Value) -> (document: Value)
    requires
        t < registry@.len(),
    ensures
        document@ == single_envelope_of(registry@[t as int].max_version(), x@),
{
    let max = registry.schema(t).max_version();
    let mut members: Vec<(String, Value)> = Vec::new();
    members.push(("version".to_owned(), Value::UInt(max as u64)));
    members.push(("value".to_owned(), x.deep_clone()));
    let document = Value::Record(members);
    proof {
        assert(members_view(members@) =~= single_envelope_of(max, x@)->Record_0);
    }
    document
}

/// A fault among the first `n` members of an envelope of a single type is the
/// fault of the whole envelope.
proof fn lemma_single_fault(members: Seq<(Seq<char>, ValueView)>, n: nat, m: nat)
    requires
        n <= m,
        single_scanned(members, n) is Err,
    ensures
        single_scanned(members, m) == single_scanned(members, n),
    decreases m,
{
    if n < m {
        lemma_single_fault(members, n, (m - 1) as nat);
    }
}

/// Opens an envelope of a single type: gives the version and the value.
pub fn open_single(x: &Value) -> (r: Result<(u32, &Value), EnvelopeFault>)
    ensures
        match r {
            Ok(parts) => single_opened(x@) == Ok::<(u32, ValueView), EnvelopeFault>((parts.0, parts.1@)),
            Err(fault) => single_opened(x@) == Err::<(u32, ValueView), EnvelopeFault>(fault),
        },
{
    match x {
        Value::Record(members) => {
            let version_key = "version".to_owned();
            let value_key = "value".to_owned();
            let ghost names = members_view(members@);
            let mut version: Option<u32> = None;
            let mut value_at: Option<usize> = None;
            let mut i: usize = 0;
            while i < members.len()
                invariant
                    x@ == ValueView::Record(names),
                    names == members_view(members@),
                    version_key@ == "version"@,
                    value_key@ == "value"@,
                    i <= members.len(),
                    value_at is Some ==> value_at->Some_0 < i,
                    single_scanned(names, i as nat) == Ok::<(Option<u32>, Option<int>), EnvelopeFault>(
                        (
                            version,
                            match value_at {
                                Some(k) => Some(k as int),
                                None => None,
                            },
                        ),
                    ),
                decreases members.len() - i,
            {
                assert(names[i as int] == (members[i as int].0@, members[i as int].1@));
                if members[i].0 == version_key {
                    if version.is_some() {
                        proof {
                            lemma_single_fault(names, (i + 1) as nat, members.len() as nat);
                        }
                        return Err(EnvelopeFault::DuplicateVersion);
                    }
                    match &members[i].1 {
                        Value::UInt(n) => {
                            if *n > 0xffff_ffff {
                                proof {
                                    lemma_single_fault(names, (i + 1) as nat, members.len() as nat);
                                }
                                return Err(EnvelopeFault::BadVersion);
                            }
                            version = Some(*n as u32);
                        },
                        _ => {
                            proof {
                                lemma_single_fault(names, (i + 1) as nat, members.len() as nat);
                            }
                            return Err(EnvelopeFault::BadVersion);
                        },
                    }
                } else if members[i].0 == value_key {
                    if value_at.is_some() {
                        proof {
                            lemma_single_fault(names, (i + 1) as nat, members.len() as nat);
                        }
                        return Err(EnvelopeFault::DuplicateValue);
                    }
                    if version.is_none() {
                        proof {
                            lemma_single_fault(names, (i + 1) as nat, members.len() as nat);
                        }
                        return Err(EnvelopeFault::ValueBeforeVersion);
                    }
                    value_at = Some(i);
                } else {
                    proof {
                        lemma_single_fault(names, (i + 1) as nat, members.len() as nat);
                    }
                    return Err(EnvelopeFault::UnexpectedMember);
                }
                i += 1;
            }
            match value_at {
                Some(j) => match version {
                    Some(v) => {
                        assert(names[j as int].1 == members[j as int].1@);
                        Ok((v, &members[j].1))
                    },
                    None => Err(EnvelopeFault::ValueBeforeVersion),
                },
                None => Err(EnvelopeFault::MissingValue),
            }
        },
        Value::List(items) => {
            if items.len() == 0 {
                return Err(EnvelopeFault::MissingVersion);
            }
            assert(items_view(items@)[0] == items[0]@);
            let version: u32 = match &items[0] {
                Value::UInt(n) => {
                    if *n > 0xffff_ffff {
                        return Err(EnvelopeFault::BadVersion);
                    }
                    *n as u32
                },
                _ => {
                    return Err(EnvelopeFault::BadVersion);
                },
            };
            if items.len() == 1 {
                return Err(EnvelopeFault::MissingValue);
            }
            if items.len() > 2 {
                return Err(EnvelopeFault::UnexpectedMember);
            }
            assert(items_view(items@)[1] == items[1]@);
            Ok((version, &items[1]))
        },
        _ => Err(EnvelopeFault::NotAnEnvelope),
    }
}

/// Decodes the envelope of a single type `x` as a node of type `t`.
pub fn decode_single<F: Fn(&str, u32, Value) -> Result<Value, String>>(
    registry: &Registry,
    steps: &F,
    t: usize,
    x: &Value,
) -> (r: Result<Value, DecodeError>)
    requires
        t < registry@.len(),
        steps_callable(registry@, *steps),
        steps_deterministic(*steps),
    ensures
        decoded_view(r) == decoded_single(registry@, *steps, t as int, x@),
{
    match open_single(x) {
        Ok(parts) => {
            let mut map = VersionMap::new();
            map.record(registry.schema(t).name(), parts.0);
            assert(map@ =~= seq![(registry@[t as int].name, parts.0)]);
            let context = DecodeContext::with_versions(map);
            decode_node(registry, steps, &context, t, parts.1)
        },
        Err(fault) => Err(DecodeError::EnvelopeMalformed(fault)),
    }
}

} // verus!
