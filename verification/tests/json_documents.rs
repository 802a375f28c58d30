// Versioned values that travel as JSON text.

use serde_migrate::encode::{encode, Mode};
use serde_migrate::envelope::{decode, decode_unversioned};
use serde_migrate::registry::Registry;
use serde_migrate::schema::{versioned, FieldKind, FieldSpec};
use serde_migrate::single::{decode_single, encode_single};
use serde_migrate::value::Value;

fn from_json(json: &serde_json::Value) -> Value {
    match json {
        serde_json::Value::Null => Value::Null,
        serde_json::Value::Bool(b) => Value::Bool(*b),
        serde_json::Value::Number(n) => Value::UInt(n.as_u64().unwrap()),
        serde_json::Value::String(s) => Value::Text(s.clone()),
        serde_json::Value::Array(items) => Value::List(items.iter().map(from_json).collect()),
        serde_json::Value::Object(members) => {
            Value::Record(members.iter().map(|(name, x)| (name.clone(), from_json(x))).collect())
        }
    }
}

fn to_json(x: &Value) -> serde_json::Value {
    match x {
        Value::Null => serde_json::Value::Null,
        Value::Bool(b) => serde_json::Value::Bool(*b),
        Value::UInt(n) => serde_json::Value::from(*n),
        Value::Int(n) => serde_json::Value::from(*n),
        Value::Real(bits) => serde_json::Value::from(f64::from_bits(*bits)),
        Value::Text(s) => serde_json::Value::from(s.clone()),
        Value::List(items) => serde_json::Value::Array(items.iter().map(to_json).collect()),
        Value::Record(members) => {
            let mut object = serde_json::Map::new();
            for (name, x) in members {
                object.insert(name.clone(), to_json(x));
            }
            serde_json::Value::Object(object)
        }
    }
}

fn parse(text: &str) -> Value {
    from_json(&serde_json::from_str::<serde_json::Value>(text).unwrap())
}

fn pretty(x: &Value) -> String {
    serde_json::to_string_pretty(&to_json(x)).unwrap()
}

fn plain(name: &str) -> FieldSpec {
    FieldSpec::new(name.to_string(), FieldKind::Plain)
}

fn node(name: &str, t: usize) -> FieldSpec {
    FieldSpec::new(name.to_string(), FieldKind::Versioned(t))
}

fn record(members: Vec<(&str, Value)>) -> Value {
    Value::Record(members.into_iter().map(|(name, x)| (name.to_string(), x)).collect())
}

fn uint(x: &Value, name: &str) -> u64 {
    match x.member(&name.to_string()) {
        Some(Value::UInt(n)) => *n,
        _ => panic!("no number called {}", name),
    }
}

fn text(x: &Value, name: &str) -> String {
    match x.member(&name.to_string()) {
        Some(Value::Text(s)) => s.clone(),
        _ => panic!("no text called {}", name),
    }
}

// `MyStruct { old_field until 2, new_field since 2 }`, with fields of any kind.
fn my_struct_of(kind: fn() -> FieldKind) -> Registry {
    let my_struct = versioned(
        "MyStruct".to_string(),
        vec![
            FieldSpec::new("old_field".to_string(), kind()).until(2),
            FieldSpec::new("new_field".to_string(), kind()).since(2),
        ],
    )
    .unwrap();
    Registry::new(vec![my_struct]).unwrap()
}

fn my_struct_steps(_name: &str, _from: u32, snapshot: Value) -> Result<Value, String> {
    let old = snapshot.member(&"old_field".to_string()).ok_or("no old_field".to_string())?;
    Ok(record(vec![("new_field", old.deep_clone())]))
}

#[test]
fn test1_noop() {
    let registry = my_struct_of(|| FieldKind::Plain);
    assert_eq!(registry.schema(0).max_version(), 2);
    assert_eq!(registry.schema(0).snapshot(1), vec![0]);
    assert_eq!(registry.schema(0).snapshot(2), vec![1]);
    let old = parse(r#"{ "old_field": 5 }"#);
    let new = decode(&registry, &my_struct_steps, &FieldKind::Versioned(0), &old).unwrap();
    assert_eq!(new, parse(r#"{ "new_field": 5 }"#));
}

#[test]
fn noop() {
    let registry = my_struct_of(|| FieldKind::Plain);
    let old = parse(r#"{ "version": 1, "value": { "old_field": 5 } }"#);
    let new = decode_single(&registry, &my_struct_steps, 0, &old).unwrap();
    assert_eq!(new, parse(r#"{ "new_field": 5 }"#));
    assert_eq!(encode_single(&registry, 0, &new), parse(r#"{ "version": 2, "value": { "new_field": 5 } }"#));
}

#[test]
fn test_simple_generics_noop() {
    let registry = my_struct_of(|| FieldKind::List(Box::new(FieldKind::Plain)));
    assert_eq!(registry.schema(0).max_version(), 2);
    let old = parse(r#"{ "old_field": [1, 2, 3] }"#);
    let new = decode(&registry, &my_struct_steps, &FieldKind::Versioned(0), &old).unwrap();
    assert_eq!(new, parse(r#"{ "new_field": [1, 2, 3] }"#));
}

// Type 0 is `A { a, b until 2 }`, type 1 is `Awrap { a: [A], c since 2 }`.
fn awrap_registry() -> Registry {
    let a = versioned("test2::A".to_string(), vec![plain("a"), plain("b").until(2)]).unwrap();
    let awrap = versioned(
        "test2::Awrap".to_string(),
        vec![
            FieldSpec::new("a".to_string(), FieldKind::List(Box::new(FieldKind::Versioned(0)))),
            plain("c").since(2),
        ],
    )
    .unwrap();
    Registry::new(vec![a, awrap]).unwrap()
}

fn awrap_steps(name: &str, from: u32, snapshot: Value) -> Result<Value, String> {
    match (name, from) {
        ("test2::A", 1) => Ok(record(vec![("a", Value::UInt(uint(&snapshot, "a") + uint(&snapshot, "b")))])),
        ("test2::Awrap", 1) => {
            let a = snapshot.member(&"a".to_string()).unwrap().deep_clone();
            Ok(record(vec![("a", a), ("c", Value::UInt(0))]))
        }
        _ => Err(format!("no step from version {} of {}", from, name)),
    }
}

#[test]
fn test2_test_roundtrip() {
    println!("Hello, world!");
    let registry = awrap_registry();
    let kind = FieldKind::Versioned(0);
    let orig = record(vec![("a", Value::UInt(123))]);
    let json = pretty(&encode(&registry, &kind, &orig, Mode::Versioned));
    let decoded = decode(&registry, &awrap_steps, &kind, &parse(&json)).unwrap();
    assert_eq!(orig, decoded);
    println!("{}", json);

    let decoded2 = decode(
        &registry,
        &awrap_steps,
        &kind,
        &parse(r#"{ "versions": { "test2::A": 1 }, "value": { "a": 121, "b": 2 } }"#),
    )
    .unwrap();
    assert_eq!(orig, decoded2);

    let json = pretty(&encode_single(&registry, 0, &orig));
    let decoded = decode_single(&registry, &awrap_steps, 0, &parse(&json)).unwrap();
    assert_eq!(orig, decoded);

    let decoded2 =
        decode_single(&registry, &awrap_steps, 0, &parse(r#"{ "version": 1, "value": { "a": 121, "b": 2 } }"#))
            .unwrap();
    assert_eq!(orig, decoded2);

    let kind = FieldKind::Versioned(1);
    let orig = record(vec![
        ("a", Value::List(vec![record(vec![("a", Value::UInt(123))]), record(vec![("a", Value::UInt(456))])])),
        ("c", Value::UInt(789)),
    ]);
    let json = pretty(&encode(&registry, &kind, &orig, Mode::Unversioned));
    println!("Decoding json: {}", json);
    let decoded = decode_unversioned(&registry, &awrap_steps, &kind, &parse(&json)).unwrap();
    println!("{:?}", decoded);
    assert_eq!(orig, decoded);

    let json = pretty(&encode(&registry, &kind, &orig, Mode::Versioned));
    let decoded = decode(&registry, &awrap_steps, &kind, &parse(&json)).unwrap();
    assert_eq!(orig, decoded);
}

// Type 0 is `A { a }`, type 1 is `A2 { a, b in [2, 3), c since 3 }`.
fn a2_registry() -> Registry {
    let a = versioned("test3::A".to_string(), vec![plain("a")]).unwrap();
    let a2 = versioned(
        "test3::A2".to_string(),
        vec![plain("a"), plain("b").since(2).until(3), plain("c").since(3)],
    )
    .unwrap();
    Registry::new(vec![a, a2]).unwrap()
}

fn a2_steps(name: &str, from: u32, snapshot: Value) -> Result<Value, String> {
    match (name, from) {
        ("test3::A2", 1) => {
            Ok(record(vec![("a", Value::UInt(uint(&snapshot, "a"))), ("b", Value::Text("321".to_string()))]))
        }
        ("test3::A2", 2) => {
            let c: u64 = text(&snapshot, "b").parse().map_err(|_| "b is no number".to_string())?;
            Ok(record(vec![("a", Value::UInt(uint(&snapshot, "a"))), ("c", Value::UInt(c))]))
        }
        _ => Err(format!("no step from version {} of {}", from, name)),
    }
}

#[test]
fn test_migration() {
    let registry = a2_registry();
    let orig = record(vec![("a", Value::UInt(123))]);
    let json = pretty(&encode(&registry, &FieldKind::Versioned(0), &orig, Mode::Versioned));
    let decoded = decode(&registry, &a2_steps, &FieldKind::Versioned(0), &parse(&json)).unwrap();
    assert_eq!(orig, decoded);
    println!("{}", json);

    let decoded2 = decode(&registry, &a2_steps, &FieldKind::Versioned(1), &parse(&json)).unwrap();
    assert_eq!(decoded2, record(vec![("a", Value::UInt(uint(&orig, "a"))), ("c", Value::UInt(321))]));
}

// `MyStruct { v: Deep1 }`, `Deep1 { v: Option<Deep2> }`, `Deep2 { v: Deep3 }` behind a
// wrapper that JSON does not show, and
// `Deep3 { older_field until 2, old_field until 3, new_field since 3 }`.
fn deep_registry() -> Registry {
    let my_struct = versioned("test_deep::MyStruct".to_string(), vec![node("v", 1)]).unwrap();
    let deep1 = versioned(
        "test_deep::Deep1".to_string(),
        vec![FieldSpec::new("v".to_string(), FieldKind::Optional(Box::new(FieldKind::Versioned(2))))],
    )
    .unwrap();
    let deep2 = versioned("test_deep::Deep2".to_string(), vec![node("v", 3)]).unwrap();
    let deep3 = versioned(
        "test_deep::Deep3".to_string(),
        vec![plain("older_field").until(2), plain("old_field").until(3), plain("new_field").since(3)],
    )
    .unwrap();
    Registry::new(vec![my_struct, deep1, deep2, deep3]).unwrap()
}

fn deep_steps(name: &str, from: u32, snapshot: Value) -> Result<Value, String> {
    match (name, from) {
        ("test_deep::Deep3", 1) => Ok(record(vec![("old_field", Value::UInt(uint(&snapshot, "old_field")))])),
        ("test_deep::Deep3", 2) => Ok(record(vec![("new_field", Value::UInt(uint(&snapshot, "old_field")))])),
        _ => Err(format!("no step from version {} of {}", from, name)),
    }
}

#[test]
fn test_deep() {
    let registry = deep_registry();
    let kind = FieldKind::Versioned(0);
    let orig = record(vec![(
        "v",
        record(vec![("v", record(vec![("v", record(vec![("new_field", Value::UInt(999))]))]))]),
    )]);
    let json = pretty(&encode(&registry, &kind, &orig, Mode::Versioned));
    assert!(json.contains("new_field"));
    assert!(json.contains("test_deep::MyStruct"));
    assert!(json.contains("test_deep::Deep1"));
    assert!(json.contains("test_deep::Deep2"));
    assert!(json.contains("test_deep::Deep3"));
    println!("{}", json);
    let decoded = decode(&registry, &deep_steps, &kind, &parse(&json)).unwrap();
    assert_eq!(orig, decoded);

    let decoded = decode(
        &registry,
        &deep_steps,
        &kind,
        &parse(
            r#"{ "versions": { "test_deep::MyStruct": 1, "test_deep::Deep1": 1, "test_deep::Deep2": 1, "test_deep::Deep3": 2 }, "value": { "v": { "v": { "v": { "old_field": 999, "older_field": 555 }}}}}"#,
        ),
    )
    .unwrap();
    assert_eq!(orig, decoded);
}

// `A { a, b since 2 }`, read from what a writer without versions wrote.
fn unversioned_registry() -> Registry {
    let a = versioned("test_from_unversioned::A".to_string(), vec![plain("a"), plain("b").since(2)]).unwrap();
    Registry::new(vec![a]).unwrap()
}

fn unversioned_steps(_name: &str, _from: u32, snapshot: Value) -> Result<Value, String> {
    let a = uint(&snapshot, "a");
    Ok(record(vec![("a", Value::UInt(a)), ("b", Value::UInt(a * 2))]))
}

#[test]
fn test_from_unversioned() {
    let registry = unversioned_registry();
    let orig = record(vec![("a", Value::UInt(123))]);
    let json = pretty(&encode(&registry, &FieldKind::Plain, &orig, Mode::Versioned));

    println!("Decoding json: {}", json);
    let decoded = decode(&registry, &unversioned_steps, &FieldKind::Versioned(0), &parse(&json)).unwrap();
    assert_eq!(decoded, record(vec![("a", Value::UInt(123)), ("b", Value::UInt(246))]));

    let bare = pretty(&encode(&registry, &FieldKind::Plain, &orig, Mode::Unversioned));
    let decoded = decode(&registry, &unversioned_steps, &FieldKind::Versioned(0), &parse(&bare)).unwrap();
    assert_eq!(decoded, record(vec![("a", Value::UInt(123)), ("b", Value::UInt(246))]));
}

// A type whose one written field goes by another name on the wire, and whose
// other field is not written at all.
#[derive(PartialEq, Debug)]
struct MyStruct {
    kept: u32,
    skipped: Option<u32>,
}

impl MyStruct {
    fn to_value(&self) -> Value {
        record(vec![("KEPT", Value::UInt(self.kept as u64))])
    }

    fn from_value(x: &Value) -> MyStruct {
        MyStruct { kept: uint(x, "KEPT") as u32, skipped: None }
    }
}

#[test]
fn test_serde_attrs() {
    let my_struct = versioned("test_serde_attrs::MyStruct".to_string(), vec![plain("KEPT")]).unwrap();
    let registry = Registry::new(vec![my_struct]).unwrap();
    let kind = FieldKind::Versioned(0);
    let orig = MyStruct { kept: 999, skipped: Some(555) };
    let json = pretty(&encode(&registry, &kind, &orig.to_value(), Mode::Versioned));
    println!("{}", json);

    assert!(json.contains("\"KEPT\""));

    let decoded = MyStruct::from_value(&decode(&registry, &my_struct_steps, &kind, &parse(&json)).unwrap());
    assert_eq!(MyStruct { kept: 999, skipped: None }, decoded);
}

// `Reading { x: number until 2, x: text since 2 }`: the field keeps its name
// and changes what it holds.
#[test]
fn field_changes_what_it_holds() {
    let reading = versioned("Reading".to_string(), vec![plain("x").until(2), plain("x").since(2)]).unwrap();
    let registry = Registry::new(vec![reading]).unwrap();
    let kind = FieldKind::Versioned(0);
    let to_text = |_: &str, _: u32, snapshot: Value| -> Result<Value, String> {
        Ok(record(vec![("x", Value::Text(uint(&snapshot, "x").to_string()))]))
    };
    let new = decode(&registry, &to_text, &kind, &parse(r#"{ "versions": { "Reading": 1 }, "value": { "x": 42 } }"#));
    assert_eq!(new, Ok(parse(r#"{ "x": "42" }"#)));
    let json = pretty(&encode(&registry, &kind, &parse(r#"{ "x": "42" }"#), Mode::Versioned));
    assert_eq!(parse(&json), parse(r#"{ "versions": { "Reading": 2 }, "value": { "x": "42" } }"#));
    assert_eq!(decode(&registry, &to_text, &kind, &parse(&json)), Ok(parse(r#"{ "x": "42" }"#)));
}
