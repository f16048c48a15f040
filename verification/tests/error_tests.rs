use model_store::{Error, Result};

fn io_failure() -> std::io::Error {
    std::io::Error::new(std::io::ErrorKind::NotFound, "gone")
}

fn json_failure() -> serde_json::Error {
    serde_json::from_str::<serde_json::Value>("{").unwrap_err()
}

#[test]
fn modql_error_is_lifted_into_its_variant() {
    let e: Error = modql::Error::JsonValNotOfType("String").into();
    assert!(matches!(e, Error::Modql(modql::Error::JsonValNotOfType("String"))));
}

#[test]
fn serde_error_is_lifted_into_its_variant() {
    let inner = json_failure();
    let line = inner.line();
    let column = inner.column();
    let e = Error::from(inner);
    match e {
        Error::JsonSerde(kept) => {
            assert_eq!(kept.line(), line);
            assert_eq!(kept.column(), column);
        }
        other => panic!("wrong variant: {}", other.to_text()),
    }
}

#[test]
fn surreal_error_is_lifted_into_its_variant() {
    let e = Error::from(surrealdb::err::Error::Thrown("boom".to_string()));
    match e {
        Error::Surreal(surrealdb::err::Error::Thrown(msg)) => assert_eq!(msg, "boom"),
        other => panic!("wrong variant: {}", other.to_text()),
    }
}

#[test]
fn io_error_is_lifted_into_its_variant() {
    let e = Error::from(io_failure());
    match e {
        Error::IO(kept) => assert_eq!(kept.kind(), std::io::ErrorKind::NotFound),
        other => panic!("wrong variant: {}", other.to_text()),
    }
}

fn read_number(text: &str) -> Result<i64> {
    let v: serde_json::Value = serde_json::from_str(text)?;
    Ok(v.as_i64().unwrap_or(0))
}

#[test]
fn question_mark_lifts_without_conversion_code() {
    assert_eq!(read_number("42").unwrap(), 42);
    assert!(matches!(read_number("{"), Err(Error::JsonSerde(_))));
}

#[test]
fn text_of_plain_variants_is_the_debug_form() {
    assert_eq!(Error::CtxFail.to_text(), "CtxFail");
    assert_eq!(Error::XValueNotOfType("String").to_text(), "XValueNotOfType(\"String\")");
    assert_eq!(
        Error::XPropertyNotFound("na\"me".to_string()).to_text(),
        "XPropertyNotFound(\"na\\\"me\")"
    );
    assert_eq!(
        Error::StoreFailToCreate("nothing returned".to_string()).to_text(),
        "StoreFailToCreate(\"nothing returned\")"
    );
    assert_eq!(
        Error::ModqlOperatorNotSupported("Contains".to_string()).to_text(),
        "ModqlOperatorNotSupported(\"Contains\")"
    );
}

#[test]
fn text_of_wrapping_variants_is_the_debug_form() {
    let all = vec![
        Error::Modql(modql::Error::JsonValNotOfType("bool")),
        Error::JsonSerde(json_failure()),
        Error::Surreal(surrealdb::err::Error::QueryEmpty),
        Error::IO(io_failure()),
        Error::CtxFail,
        Error::XPropertyNotFound("id".to_string()),
    ];
    for e in all {
        assert_eq!(e.to_text(), format!("{:?}", e));
    }
    assert_eq!(
        Error::Modql(modql::Error::JsonValNotOfType("bool")).to_text(),
        "Modql(JsonValNotOfType(\"bool\"))"
    );
    assert_eq!(Error::Surreal(surrealdb::err::Error::QueryEmpty).to_text(), "Surreal(QueryEmpty)");
}
