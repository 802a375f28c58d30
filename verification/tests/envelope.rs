// Envelopes: what encoding writes, and what decoding accepts and refuses.

use serde_migrate::encode::{encode, envelope, harvest, versions_record, Mode};
use serde_migrate::envelope::{decode, newest_versions, open_envelope, read_versions};
use serde_migrate::error::{DecodeError, EnvelopeFault};
use serde_migrate::registry::Registry;
use serde_migrate::schema::{versioned, FieldKind, FieldSpec};
use serde_migrate::single::{decode_single, encode_single, open_single};
use serde_migrate::value::Value;
use serde_migrate::versions::{version_to_read, DecodeContext, VersionMap};

fn plain(name: &str) -> FieldSpec {
    FieldSpec::new(name.to_string(), FieldKind::Plain)
}

fn record(members: Vec<(&str, Value)>) -> Value {
    Value::Record(members.into_iter().map(|(name, x)| (name.to_string(), x)).collect())
}

fn no_steps(name: &str, from: u32, _snapshot: Value) -> Result<Value, String> {
    Err(format!("no step from version {} of {}", from, name))
}

// Type 0 is `Inner { x }` with one version, type 1 is
// `Outer { inner: Inner, old until 2, new since 2 }`.
fn registry() -> Registry {
    let inner = versioned("app::Inner".to_string(), vec![plain("x")]).unwrap();
    let outer = versioned(
        "app::Outer".to_string(),
        vec![
            FieldSpec::new("inner".to_string(), FieldKind::Versioned(0)),
            plain("old").until(2),
            plain("new").since(2),
        ],
    )
    .unwrap();
    Registry::new(vec![inner, outer]).unwrap()
}

fn outer_value() -> Value {
    record(vec![("inner", record(vec![("x", Value::UInt(1))])), ("new", Value::UInt(2))])
}

#[test]
fn version_map_records_in_order_and_replaces_in_place() {
    let mut map = VersionMap::new();
    assert_eq!(map.len(), 0);
    assert_eq!(map.get(&"a".to_string()), None);
    map.record(&"a".to_string(), 1);
    map.record(&"b".to_string(), 2);
    map.record(&"a".to_string(), 3);
    assert_eq!(map.len(), 2);
    assert_eq!(map.name_at(0), "a");
    assert_eq!(map.version_at(0), 3);
    assert_eq!(map.name_at(1), "b");
    assert_eq!(map.version_at(1), 2);
    assert_eq!(map.get(&"a".to_string()), Some(3));
    assert_eq!(map.get(&"b".to_string()), Some(2));
    assert_eq!(map.get(&"c".to_string()), None);
}

#[test]
fn context_gives_version_one_where_it_knows_none() {
    let empty = DecodeContext::empty();
    assert_eq!(empty.version_of(&"a".to_string()), 1);
    let mut map = VersionMap::new();
    map.record(&"a".to_string(), 7);
    map.record(&"z".to_string(), 0);
    let context = DecodeContext::with_versions(map);
    assert_eq!(context.version_of(&"a".to_string()), 7);
    assert_eq!(context.version_of(&"z".to_string()), 0);
    assert_eq!(context.version_of(&"b".to_string()), 1);
}

#[test]
fn versioned_mode_writes_versions_then_value() {
    let registry = registry();
    let x = outer_value();
    let bytes = encode(&registry, &FieldKind::Versioned(1), &x, Mode::Versioned);
    let expected = record(vec![
        ("versions", record(vec![("app::Outer", Value::UInt(2)), ("app::Inner", Value::UInt(1))])),
        ("value", outer_value()),
    ]);
    assert_eq!(bytes, expected);
}

#[test]
fn unversioned_mode_writes_the_value_member_alone() {
    let registry = registry();
    let x = outer_value();
    let bare = encode(&registry, &FieldKind::Versioned(1), &x, Mode::Unversioned);
    assert_eq!(bare, x);
    let wrapped = encode(&registry, &FieldKind::Versioned(1), &x, Mode::Versioned);
    assert_eq!(wrapped.member(&"value".to_string()), Some(&bare));
    match &wrapped {
        Value::Record(members) => assert_eq!(members.len(), 2),
        _ => panic!("no record"),
    }
}

#[test]
fn dry_pass_does_not_depend_on_field_values() {
    let registry = registry();
    let kind = FieldKind::Versioned(1);
    let mut one = VersionMap::new();
    harvest(&registry, &kind, &outer_value(), &mut one);
    let other_value =
        record(vec![("inner", record(vec![("x", Value::Text("other".to_string()))])), ("new", Value::Null)]);
    let mut other = VersionMap::new();
    harvest(&registry, &kind, &other_value, &mut other);
    assert_eq!(one, other);
    assert_eq!(one.len(), 2);
}

#[test]
fn dry_pass_of_a_plain_value_finds_nothing() {
    let registry = registry();
    let mut map = VersionMap::new();
    harvest(&registry, &FieldKind::Plain, &outer_value(), &mut map);
    assert_eq!(map.len(), 0);
    assert_eq!(
        envelope(&map, Value::UInt(5)),
        record(vec![("versions", record(vec![])), ("value", Value::UInt(5))])
    );
}

#[test]
fn dry_pass_skips_an_absent_optional_and_walks_every_item() {
    let inner = versioned("Inner".to_string(), vec![plain("x").until(3)]).unwrap();
    let holder = versioned(
        "Holder".to_string(),
        vec![
            FieldSpec::new("maybe".to_string(), FieldKind::Optional(Box::new(FieldKind::Versioned(0)))),
            FieldSpec::new("items".to_string(), FieldKind::List(Box::new(FieldKind::Versioned(0)))),
        ],
    )
    .unwrap();
    let registry = Registry::new(vec![inner, holder]).unwrap();
    let kind = FieldKind::Versioned(1);
    let mut map = VersionMap::new();
    harvest(&registry, &kind, &record(vec![("maybe", Value::Null), ("items", Value::List(vec![]))]), &mut map);
    assert_eq!(map.len(), 1);
    assert_eq!(map.get(&"Holder".to_string()), Some(1));
    let mut map = VersionMap::new();
    harvest(
        &registry,
        &kind,
        &record(vec![("maybe", Value::Null), ("items", Value::List(vec![record(vec![]), record(vec![])]))]),
        &mut map,
    );
    assert_eq!(map.len(), 2);
    assert_eq!(map.get(&"Inner".to_string()), Some(3));
}

#[test]
fn versions_member_is_read_back() {
    let mut map = VersionMap::new();
    map.record(&"a".to_string(), 1);
    map.record(&"b".to_string(), 4000000000);
    let written = versions_record(&map);
    assert_eq!(written, record(vec![("a", Value::UInt(1)), ("b", Value::UInt(4000000000))]));
    assert_eq!(read_versions(&written), Some(map));
}

#[test]
fn versions_member_must_be_a_map_of_versions() {
    assert_eq!(read_versions(&Value::UInt(1)), None);
    assert_eq!(read_versions(&record(vec![("a", Value::Text("1".to_string()))])), None);
    assert_eq!(read_versions(&record(vec![("a", Value::UInt(1 << 32))])), None);
    assert_eq!(read_versions(&record(vec![("a", Value::UInt(1)), ("a", Value::UInt(1))])), None);
    assert!(read_versions(&record(vec![("a", Value::UInt(u32::MAX as u64))])).is_some());
}

#[test]
fn envelope_members_come_in_any_order() {
    let x = record(vec![("value", Value::UInt(9)), ("versions", record(vec![("a", Value::UInt(2))]))]);
    let (map, payload) = open_envelope(&x).unwrap().unwrap();
    assert_eq!(map.get(&"a".to_string()), Some(2));
    assert_eq!(payload, &Value::UInt(9));
}

#[test]
fn a_value_without_versions_is_no_envelope() {
    assert_eq!(open_envelope(&Value::UInt(1)), Ok(None));
    assert_eq!(open_envelope(&record(vec![("a", Value::UInt(1))])), Ok(None));
    assert_eq!(open_envelope(&record(vec![("value", Value::UInt(1))])), Ok(None));
    assert_eq!(open_envelope(&Value::List(vec![])), Ok(None));
}

#[test]
fn envelope_without_value_is_refused() {
    let x = record(vec![("versions", record(vec![]))]);
    assert_eq!(open_envelope(&x), Err(EnvelopeFault::MissingValue));
    let registry = registry();
    assert_eq!(
        decode(&registry, &no_steps, &FieldKind::Plain, &x),
        Err(DecodeError::EnvelopeMalformed(EnvelopeFault::MissingValue))
    );
    assert_eq!(EnvelopeFault::MissingValue.message(), "missing field `value`");
}

#[test]
fn envelope_with_repeated_members_is_refused() {
    let twice_versions = record(vec![
        ("versions", record(vec![])),
        ("value", Value::UInt(1)),
        ("versions", record(vec![])),
    ]);
    assert_eq!(open_envelope(&twice_versions), Err(EnvelopeFault::DuplicateVersions));
    let twice_value = record(vec![("value", Value::UInt(1)), ("versions", record(vec![])), ("value", Value::UInt(1))]);
    assert_eq!(open_envelope(&twice_value), Err(EnvelopeFault::DuplicateValue));
}

#[test]
fn envelope_with_another_member_is_refused() {
    let x = record(vec![("versions", record(vec![])), ("value", Value::UInt(1)), ("extra", Value::Null)]);
    assert_eq!(open_envelope(&x), Err(EnvelopeFault::UnexpectedMember));
}

#[test]
fn envelope_with_bad_versions_is_refused() {
    let x = record(vec![("versions", Value::List(vec![])), ("value", Value::UInt(1))]);
    assert_eq!(open_envelope(&x), Err(EnvelopeFault::BadVersions));
}

#[test]
fn newest_versions_names_every_type() {
    let registry = registry();
    let map = newest_versions(&registry);
    assert_eq!(map.len(), 2);
    assert_eq!(map.name_at(0), "app::Inner");
    assert_eq!(map.version_at(0), 1);
    assert_eq!(map.name_at(1), "app::Outer");
    assert_eq!(map.version_at(1), 2);
}

#[test]
fn single_envelope_is_version_then_value() {
    let registry = registry();
    let x = outer_value();
    let bytes = encode_single(&registry, 1, &x);
    assert_eq!(bytes, record(vec![("version", Value::UInt(2)), ("value", outer_value())]));
    assert_eq!(open_single(&bytes), Ok((2, &x)));
    assert_eq!(decode_single(&registry, &no_steps, 1, &bytes), Ok(x));
}

#[test]
fn single_envelope_needs_the_version_first() {
    let x = record(vec![("value", Value::UInt(1)), ("version", Value::UInt(1))]);
    assert_eq!(open_single(&x), Err(EnvelopeFault::ValueBeforeVersion));
    let registry = registry();
    assert_eq!(
        decode_single(&registry, &no_steps, 0, &x),
        Err(DecodeError::EnvelopeMalformed(EnvelopeFault::ValueBeforeVersion))
    );
    assert_eq!(
        EnvelopeFault::ValueBeforeVersion.message(),
        "Version must come before the value in a versioned struct"
    );
}

#[test]
fn single_envelope_faults() {
    assert_eq!(open_single(&Value::UInt(1)), Err(EnvelopeFault::NotAnEnvelope));
    assert_eq!(open_single(&record(vec![])), Err(EnvelopeFault::MissingValue));
    assert_eq!(open_single(&record(vec![("version", Value::UInt(1))])), Err(EnvelopeFault::MissingValue));
    assert_eq!(
        open_single(&record(vec![("version", Value::UInt(1)), ("version", Value::UInt(1))])),
        Err(EnvelopeFault::DuplicateVersion)
    );
    assert_eq!(
        open_single(&record(vec![("version", Value::UInt(1)), ("value", Value::Null), ("value", Value::Null)])),
        Err(EnvelopeFault::DuplicateValue)
    );
    assert_eq!(
        open_single(&record(vec![("version", Value::Text("1".to_string())), ("value", Value::Null)])),
        Err(EnvelopeFault::BadVersion)
    );
    assert_eq!(
        open_single(&record(vec![("version", Value::UInt(1 << 32)), ("value", Value::Null)])),
        Err(EnvelopeFault::BadVersion)
    );
    assert_eq!(
        open_single(&record(vec![("version", Value::UInt(1)), ("other", Value::Null)])),
        Err(EnvelopeFault::UnexpectedMember)
    );
}

#[test]
fn single_envelope_reads_nested_types_as_version_one() {
    let registry = registry();
    let x = record(vec![
        ("version", Value::UInt(2)),
        ("value", record(vec![("inner", record(vec![("x", Value::UInt(1))])), ("new", Value::UInt(2))])),
    ]);
    assert_eq!(decode_single(&registry, &no_steps, 1, &x), Ok(outer_value()));
}

#[test]
fn every_fault_has_its_words() {
    let faults = [
        (EnvelopeFault::MissingValue, "missing field `value`"),
        (EnvelopeFault::DuplicateVersions, "duplicate field `versions`"),
        (EnvelopeFault::DuplicateValue, "duplicate field `value`"),
        (EnvelopeFault::UnexpectedMember, "unknown field in a versioned struct"),
        (EnvelopeFault::BadVersions, "`versions` must map each type name to one version number"),
        (EnvelopeFault::NotAnEnvelope, "expected a versioned struct"),
        (EnvelopeFault::MissingVersion, "missing field `version`"),
        (EnvelopeFault::BadVersion, "`version` must be a version number"),
        (EnvelopeFault::DuplicateVersion, "duplicate field `version`"),
        (EnvelopeFault::ValueBeforeVersion, "Version must come before the value in a versioned struct"),
    ];
    for (fault, words) in faults {
        assert_eq!(fault.message(), words);
    }
}

#[test]
fn single_envelope_without_names_is_version_then_value() {
    let registry = registry();
    let x = Value::List(vec![Value::UInt(2), outer_value()]);
    assert_eq!(open_single(&x), Ok((2, &outer_value())));
    assert_eq!(decode_single(&registry, &no_steps, 1, &x), Ok(outer_value()));
    assert_eq!(open_single(&Value::List(vec![])), Err(EnvelopeFault::MissingVersion));
    assert_eq!(open_single(&Value::List(vec![Value::UInt(2)])), Err(EnvelopeFault::MissingValue));
    assert_eq!(open_single(&Value::List(vec![Value::Null, Value::UInt(2)])), Err(EnvelopeFault::BadVersion));
    assert_eq!(open_single(&Value::List(vec![Value::UInt(1 << 32), Value::Null])), Err(EnvelopeFault::BadVersion));
    assert_eq!(
        open_single(&Value::List(vec![Value::UInt(2), Value::Null, Value::Null])),
        Err(EnvelopeFault::UnexpectedMember)
    );
    assert_eq!(
        decode_single(&registry, &no_steps, 1, &Value::List(vec![Value::UInt(3), outer_value()])),
        Err(DecodeError::UnknownVersion { name: "app::Outer".to_string(), version: 3 })
    );
}

#[test]
fn outside_a_decode_call_the_newest_version_is_read() {
    let name = "a".to_string();
    assert_eq!(version_to_read(None, &name, 3), 3);
    assert_eq!(version_to_read(None, &name, 1), 1);
    let empty = DecodeContext::empty();
    assert_eq!(version_to_read(Some(&empty), &name, 3), 1);
    let mut map = VersionMap::new();
    map.record(&name, 2);
    let context = DecodeContext::with_versions(map);
    assert_eq!(version_to_read(Some(&context), &name, 3), 2);
    assert_eq!(version_to_read(Some(&context), &"b".to_string(), 3), 1);
}
