// Schemas and registries: what is accepted, what is refused, and which
// fields each version has.

use serde_migrate::registry::{check_kind, Registry, RegistryError};
use serde_migrate::schema::{versioned, FieldKind, FieldSpec, SchemaError};

fn plain(name: &str) -> FieldSpec {
    FieldSpec::new(name.to_string(), FieldKind::Plain)
}

#[test]
fn field_defaults_to_every_version() {
    let field = plain("a");
    assert_eq!(field.start, 1);
    assert_eq!(field.end, None);
    assert_eq!(field.highest(), 1);
    assert!(field.present_at(1));
    assert!(field.present_at(u32::MAX));
    assert!(!field.present_at(0));
}

#[test]
fn field_interval_is_half_open() {
    let field = plain("b").since(2).until(4);
    assert_eq!(field.start, 2);
    assert_eq!(field.end, Some(4));
    assert_eq!(field.highest(), 4);
    assert!(!field.present_at(1));
    assert!(field.present_at(2));
    assert!(field.present_at(3));
    assert!(!field.present_at(4));
}

#[test]
fn no_version_declared_gives_one_version() {
    let schema = versioned("Plain".to_string(), vec![plain("a"), plain("b")]).unwrap();
    assert_eq!(schema.name(), "Plain");
    assert_eq!(schema.max_version(), 1);
    assert_eq!(schema.field_count(), 2);
    assert_eq!(schema.snapshot(1), vec![0, 1]);
    assert!(schema.has_version(1));
    assert!(!schema.has_version(0));
    assert!(!schema.has_version(2));
}

#[test]
fn no_field_gives_one_version() {
    let schema = versioned("Unit".to_string(), vec![]).unwrap();
    assert_eq!(schema.max_version(), 1);
    assert_eq!(schema.snapshot(1), Vec::<usize>::new());
}

#[test]
fn max_version_is_the_greatest_number_mentioned() {
    let schema = versioned(
        "T".to_string(),
        vec![plain("a"), plain("b").since(2).until(5), plain("c").since(3), plain("d").until(4)],
    )
    .unwrap();
    assert_eq!(schema.max_version(), 5);
    assert!(schema.has_version(5));
    assert!(!schema.has_version(6));
}

#[test]
fn snapshots_follow_the_intervals() {
    let schema = versioned(
        "Deep3".to_string(),
        vec![plain("older_field").until(2), plain("old_field").until(3), plain("new_field").since(3)],
    )
    .unwrap();
    assert_eq!(schema.max_version(), 3);
    assert_eq!(schema.snapshot(1), vec![0, 1]);
    assert_eq!(schema.snapshot(2), vec![1]);
    assert_eq!(schema.snapshot(3), vec![2]);
    assert_eq!(schema.snapshot(4), vec![2]);
    assert_eq!(schema.snapshot(0), Vec::<usize>::new());
    assert_eq!(schema.field(1).name, "old_field");
}

#[test]
fn consecutive_snapshots_may_be_the_same() {
    let schema = versioned("T".to_string(), vec![plain("a"), plain("b").since(3)]).unwrap();
    assert_eq!(schema.snapshot(1), schema.snapshot(2));
    assert_eq!(schema.snapshot(3), vec![0, 1]);
}

#[test]
fn end_below_start_is_in_no_version() {
    let schema = versioned("T".to_string(), vec![plain("a"), plain("b").since(4).until(2)]).unwrap();
    assert_eq!(schema.max_version(), 4);
    for v in 1..=4 {
        assert_eq!(schema.snapshot(v), vec![0]);
    }
}

#[test]
fn version_zero_is_refused() {
    let e = versioned("T".to_string(), vec![plain("a"), plain("b").since(0)]).unwrap_err();
    assert_eq!(e, SchemaError::ZeroVersion { field: 1 });
    assert_eq!(e.field(), 1);
    assert_eq!(e.message(), "Version numbers start at 1");
    let e = versioned("T".to_string(), vec![plain("a").until(0)]).unwrap_err();
    assert_eq!(e, SchemaError::ZeroVersion { field: 0 });
}

#[test]
fn removal_in_version_one_is_refused() {
    let e = versioned("T".to_string(), vec![plain("a").until(1)]).unwrap_err();
    assert_eq!(e, SchemaError::RemovedInFirstVersion { field: 0 });
    assert_eq!(e.message(), "Cannot remove fields in the first version");
    let e = versioned("T".to_string(), vec![plain("a").since(3).until(1)]).unwrap_err();
    assert_eq!(e, SchemaError::RemovedInFirstVersion { field: 0 });
}

#[test]
fn empty_interval_is_refused() {
    let e = versioned("T".to_string(), vec![plain("a"), plain("b"), plain("c").since(2).until(2)]).unwrap_err();
    assert_eq!(e, SchemaError::EmptyInterval { field: 2 });
    assert_eq!(e.message(), "Cannot remove field in the same version it was added");
}

#[test]
fn name_is_used_again_once_its_field_has_ended() {
    let schema = versioned("T".to_string(), vec![plain("a").until(2), plain("b"), plain("a").since(2)]).unwrap();
    assert_eq!(schema.max_version(), 2);
    assert_eq!(schema.snapshot(1), vec![0, 1]);
    assert_eq!(schema.snapshot(2), vec![1, 2]);
    let schema = versioned(
        "T".to_string(),
        vec![
            FieldSpec::new("x".to_string(), FieldKind::Versioned(0)).since(3),
            plain("x").until(2),
            plain("x").since(2).until(3),
        ],
    )
    .unwrap();
    assert_eq!(schema.max_version(), 3);
    assert_eq!(schema.snapshot(1), vec![1]);
    assert_eq!(schema.snapshot(2), vec![2]);
    assert_eq!(schema.snapshot(3), vec![0]);
}

#[test]
fn name_in_an_empty_interval_clashes_with_nothing() {
    let schema = versioned("T".to_string(), vec![plain("a"), plain("a").since(4).until(2)]).unwrap();
    assert_eq!(schema.snapshot(3), vec![0]);
    assert_eq!(schema.snapshot(4), vec![0]);
}

#[test]
fn two_fields_of_one_name_in_one_version_are_refused() {
    let e = versioned("T".to_string(), vec![plain("a"), plain("b"), plain("a")]).unwrap_err();
    assert_eq!(e, SchemaError::DuplicateField { field: 2 });
    assert_eq!(e.message(), "Cannot declare two fields of the same name in one version");
    let e = versioned("T".to_string(), vec![plain("a").until(3), plain("a").since(2)]).unwrap_err();
    assert_eq!(e, SchemaError::DuplicateField { field: 1 });
    let e = versioned("T".to_string(), vec![plain("a").since(5), plain("a").since(2).until(6)]).unwrap_err();
    assert_eq!(e, SchemaError::DuplicateField { field: 1 });
    let e = versioned("T".to_string(), vec![plain("a").since(2).until(4), plain("b"), plain("a").since(3).until(7)])
        .unwrap_err();
    assert_eq!(e, SchemaError::DuplicateField { field: 2 });
}

#[test]
fn fields_overlap_where_a_version_has_both() {
    assert!(plain("a").overlaps(&plain("b")));
    assert!(plain("a").until(3).overlaps(&plain("b").since(2)));
    assert!(plain("a").since(2).overlaps(&plain("b").until(3)));
    assert!(!plain("a").until(2).overlaps(&plain("b").since(2)));
    assert!(!plain("a").since(2).overlaps(&plain("b").until(2)));
    assert!(!plain("a").since(2).until(4).overlaps(&plain("b").since(4).until(9)));
    assert!(!plain("a").overlaps(&plain("b").since(4).until(2)));
    assert!(plain("a").since(u32::MAX).overlaps(&plain("b")));
}

#[test]
fn first_field_at_fault_is_reported() {
    let e = versioned(
        "T".to_string(),
        vec![plain("a"), plain("b").since(2).until(2), plain("c").since(0), plain("a")],
    )
    .unwrap_err();
    assert_eq!(e, SchemaError::EmptyInterval { field: 1 });
}

#[test]
fn rules_are_tried_in_order() {
    let e = versioned("T".to_string(), vec![plain("a").since(0).until(1)]).unwrap_err();
    assert_eq!(e, SchemaError::ZeroVersion { field: 0 });
    let e = versioned("T".to_string(), vec![plain("a"), plain("a").since(1).until(1)]).unwrap_err();
    assert_eq!(e, SchemaError::RemovedInFirstVersion { field: 1 });
}

#[test]
fn registry_finds_types_by_index_and_name() {
    let a = versioned("A".to_string(), vec![plain("a")]).unwrap();
    let b = versioned(
        "B".to_string(),
        vec![FieldSpec::new("a".to_string(), FieldKind::Versioned(0)), plain("b").since(2)],
    )
    .unwrap();
    let registry = Registry::new(vec![a, b]).unwrap();
    assert_eq!(registry.len(), 2);
    assert_eq!(registry.schema(1).name(), "B");
    assert_eq!(registry.schema(1).max_version(), 2);
    assert_eq!(registry.find(&"B".to_string()), Some(1));
    assert_eq!(registry.find(&"C".to_string()), None);
}

#[test]
fn registry_accepts_a_type_that_holds_itself() {
    let tree = versioned(
        "Tree".to_string(),
        vec![FieldSpec::new("children".to_string(), FieldKind::List(Box::new(FieldKind::Versioned(0))))],
    )
    .unwrap();
    assert!(Registry::new(vec![tree]).is_ok());
}

#[test]
fn registry_refuses_a_repeated_name() {
    let a = versioned("A".to_string(), vec![plain("a")]).unwrap();
    let b = versioned("B".to_string(), vec![plain("a")]).unwrap();
    let again = versioned("A".to_string(), vec![plain("x").since(2)]).unwrap();
    assert_eq!(Registry::new(vec![a, b, again]).unwrap_err(), RegistryError::DuplicateType { index: 2 });
}

#[test]
fn registry_refuses_a_missing_type() {
    let a = versioned(
        "A".to_string(),
        vec![
            plain("a"),
            FieldSpec::new("b".to_string(), FieldKind::Optional(Box::new(FieldKind::Versioned(1)))),
            FieldSpec::new("c".to_string(), FieldKind::Versioned(7)),
        ],
    )
    .unwrap();
    assert_eq!(Registry::new(vec![a]).unwrap_err(), RegistryError::UnknownType { index: 0, field: 1 });
}

#[test]
fn kinds_are_checked_against_the_number_of_types() {
    assert!(check_kind(&FieldKind::Plain, 0));
    assert!(check_kind(&FieldKind::Versioned(1), 2));
    assert!(!check_kind(&FieldKind::Versioned(2), 2));
    assert!(!check_kind(&FieldKind::List(Box::new(FieldKind::Optional(Box::new(FieldKind::Versioned(2))))), 2));
}
