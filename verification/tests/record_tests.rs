use model_store::order::{place_of, Place};
use model_store::{Error, Field, Record, Thing, Value};

fn text(s: &str) -> Value {
    Value::Text(s.to_string())
}

fn names(record: &Record) -> Vec<String> {
    record.fields().iter().map(|f| f.name.clone()).collect()
}

#[test]
fn a_new_record_is_empty_and_has_no_identifier() {
    let r = Record::new();
    assert_eq!(r.len(), 0);
    assert!(r.id().is_none());
    assert!(r.get("name").is_none());
    assert!(!r.contains("name"));
}

#[test]
fn fields_are_kept_in_the_order_of_their_names() {
    let mut r = Record::new();
    for name in ["name", "age", "zip", "Name", "", "ab", "a", "\u{e9}t\u{e9}", "z"] {
        assert!(r.put(name, text(name)).is_none());
    }
    let mut expected: Vec<String> =
        ["name", "age", "zip", "Name", "", "ab", "a", "\u{e9}t\u{e9}", "z"]
            .iter()
            .map(|s| s.to_string())
            .collect();
    expected.sort();
    assert_eq!(names(&r), expected);
    assert_eq!(r.len(), 9);
    for name in expected {
        assert_eq!(r.get(&name), Some(&text(&name)));
    }
}

#[test]
fn put_replaces_and_hands_back_the_previous_value() {
    let mut r = Record::new();
    assert_eq!(r.put("name", text("alice")), None);
    assert_eq!(r.put("name", text("bob")), Some(text("alice")));
    assert_eq!(r.len(), 1);
    assert_eq!(r.get("name"), Some(&text("bob")));
}

#[test]
fn take_removes_the_field() {
    let mut r = Record::new();
    r.put("a", Value::Int(1));
    r.put("b", Value::Int(2));
    r.put("c", Value::Int(3));
    assert_eq!(r.take("b"), Some(Value::Int(2)));
    assert_eq!(r.take("b"), None);
    assert_eq!(names(&r), vec!["a", "c"]);
    assert_eq!(r.get("a"), Some(&Value::Int(1)));
    assert_eq!(r.get("c"), Some(&Value::Int(3)));
}

#[test]
fn a_field_written_is_the_field_read_back() {
    let mut r = Record::new();
    r.put("other", Value::Bool(false));
    let before = r.duplicate();
    r.put("name", text("alice"));
    assert_eq!(r.get("other"), Some(&Value::Bool(false)));
    assert_eq!(r.take_text("name").unwrap(), "alice");
    assert_eq!(r, before);
}

#[test]
fn a_missing_property_is_named() {
    let mut r = Record::new();
    r.put("name", text("alice"));
    assert!(matches!(r.take_val("age"), Err(Error::XPropertyNotFound(ref n)) if n == "age"));
    assert!(matches!(r.take_text("title"), Err(Error::XPropertyNotFound(ref n)) if n == "title"));
    assert!(matches!(r.take_int("age"), Err(Error::XPropertyNotFound(ref n)) if n == "age"));
    assert!(matches!(r.take_bool("on"), Err(Error::XPropertyNotFound(ref n)) if n == "on"));
    assert_eq!(r.len(), 1);
}

#[test]
fn a_value_of_another_type_names_the_expected_type() {
    let mut r = Record::new();
    r.put("a", Value::Int(1));
    r.put("b", text("x"));
    r.put("c", Value::Null);
    assert!(matches!(r.take_text("a"), Err(Error::XValueNotOfType("String"))));
    assert!(matches!(r.take_int("b"), Err(Error::XValueNotOfType("i64"))));
    assert!(matches!(r.take_bool("c"), Err(Error::XValueNotOfType("bool"))));
    assert_eq!(r.len(), 0);
}

#[test]
fn typed_fields_are_read_as_their_type() {
    let mut r = Record::new();
    r.put("n", Value::Int(-42));
    r.put("s", text("hello"));
    r.put("b", Value::Bool(true));
    assert_eq!(r.take_int("n").unwrap(), -42);
    assert_eq!(r.take_text("s").unwrap(), "hello");
    assert!(r.take_bool("b").unwrap());
    assert_eq!(r.len(), 0);
}

#[test]
fn conversions_of_single_values() {
    assert_eq!(text("x").into_text().unwrap(), "x");
    assert_eq!(Value::Int(7).into_int().unwrap(), 7);
    assert!(!Value::Bool(false).into_bool().unwrap());
    let id = Thing { tb: "user".to_string(), id: "k1".to_string() };
    assert_eq!(Value::Id(id.duplicate()).into_thing().unwrap(), id);
    assert!(matches!(Value::Null.into_text(), Err(Error::XValueNotOfType("String"))));
    assert!(matches!(text("7").into_int(), Err(Error::XValueNotOfType("i64"))));
    assert!(matches!(Value::Int(1).into_bool(), Err(Error::XValueNotOfType("bool"))));
    assert!(matches!(text("user:k1").into_thing(), Err(Error::XValueNotOfType("Thing"))));
    assert!(matches!(
        Value::List(vec![text("x")]).into_text(),
        Err(Error::XValueNotOfType("String"))
    ));
}

#[test]
fn the_identifier_is_set_and_cleared_apart_from_the_fields() {
    let mut r = Record::new();
    r.put("name", text("alice"));
    r.set_id(Some(Thing { tb: "user".to_string(), id: "k1".to_string() }));
    assert_eq!(r.id().unwrap().to_text(), "user:k1");
    assert_eq!(r.get("name"), Some(&text("alice")));
    r.set_id(None);
    assert!(r.id().is_none());
    assert_eq!(r.len(), 1);
}

#[test]
fn a_copy_holds_the_same() {
    let mut r = Record::new();
    r.put("list", Value::List(vec![Value::Int(1), Value::List(vec![text("deep")]), Value::Null]));
    r.put("id2", Value::Id(Thing { tb: "t".to_string(), id: "1".to_string() }));
    r.put("f", Value::Float(2.5f64.to_bits()));
    r.put(
        "o",
        Value::Object(vec![
            Field { name: "z".to_string(), value: Value::List(vec![]) },
            Field { name: "a".to_string(), value: Value::Object(vec![]) },
        ]),
    );
    r.set_id(Some(Thing { tb: "user".to_string(), id: "k".to_string() }));
    let copy = r.duplicate();
    assert_eq!(copy, r);
    assert_eq!(
        Value::List(vec![Value::Int(1), text("a")]).duplicate(),
        Value::List(vec![Value::Int(1), text("a")])
    );
}

#[test]
fn names_are_ordered_as_rust_orders_strings() {
    let samples = ["", "a", "ab", "b", "B", "a b", "\u{e9}", "z\u{1F600}", "zz", "Z", "10", "9"];
    for a in samples {
        for b in samples {
            let expected = if a < b {
                Place::Before
            } else if a == b {
                Place::Same
            } else {
                Place::After
            };
            assert_eq!(place_of(a, b), expected, "{:?} against {:?}", a, b);
        }
    }
}
