use gcloud_reader::entry::{assemble_entry, entry_from_value};
use gcloud_reader::json::{StringField, TableField};
use gcloud_reader::{DecodeProblem, FieldName, LogSeverity};

fn record(fields: &[(&str, serde_json::Value)]) -> serde_json::Value {
    let mut m = serde_json::Map::new();
    for (k, v) in fields {
        m.insert((*k).to_string(), v.clone());
    }
    serde_json::Value::Object(m)
}

fn text(s: &str) -> serde_json::Value {
    serde_json::Value::String(s.to_string())
}

#[test]
fn full_record_decodes() {
    let mut labels = serde_json::Map::new();
    labels.insert("k".to_string(), text("v"));
    let v = record(&[
        ("timestamp", text("t1")),
        ("severity", text("notice")),
        ("logName", text("a")),
        ("textPayload", text("hi")),
        ("labels", serde_json::Value::Object(labels)),
    ]);
    let e = entry_from_value(v).expect("the record is well-formed");
    assert_eq!(e.timestamp, "t1");
    assert_eq!(e.severity, LogSeverity::Notice);
    assert_eq!(e.log_name, "a");
    assert_eq!(e.text_payload, "hi");
    assert_eq!(e.labels.get("k"), Some(&text("v")));
}

#[test]
fn optional_fields_default() {
    let v = record(&[
        ("timestamp", text("t1")),
        ("severity", text("info")),
        ("logName", text("a")),
    ]);
    let e = entry_from_value(v).expect("the record is well-formed");
    assert_eq!(e.text_payload, "");
    assert!(e.labels.is_empty());
}

#[test]
fn unknown_keys_are_ignored() {
    let v = record(&[
        ("timestamp", text("t1")),
        ("severity", text("info")),
        ("logName", text("a")),
        ("resource", text("ignored")),
    ]);
    assert!(entry_from_value(v).is_ok());
}

#[test]
fn non_object_is_rejected() {
    let r = entry_from_value(serde_json::Value::Bool(true));
    assert!(matches!(r, Err(DecodeProblem::NotAnObject)));
}

#[test]
fn missing_timestamp_is_named() {
    let v = record(&[("severity", text("info")), ("logName", text("a"))]);
    assert!(matches!(
        entry_from_value(v),
        Err(DecodeProblem::MissingField(FieldName::Timestamp))
    ));
}

#[test]
fn missing_severity_is_named() {
    let v = record(&[("timestamp", text("t1")), ("logName", text("a"))]);
    assert!(matches!(
        entry_from_value(v),
        Err(DecodeProblem::MissingField(FieldName::Severity))
    ));
}

#[test]
fn missing_log_name_is_named() {
    let v = record(&[("timestamp", text("t1")), ("severity", text("info"))]);
    assert!(matches!(
        entry_from_value(v),
        Err(DecodeProblem::MissingField(FieldName::LogName))
    ));
}

#[test]
fn invalid_severity_cites_the_text() {
    let v = record(&[
        ("timestamp", text("t1")),
        ("severity", text("bogus")),
        ("logName", text("a")),
    ]);
    match entry_from_value(v) {
        Err(DecodeProblem::InvalidSeverity(t)) => assert_eq!(t, "bogus"),
        other => panic!("unexpected: {:?}", other),
    }
}

#[test]
fn alert_text_is_invalid() {
    let v = record(&[
        ("timestamp", text("t1")),
        ("severity", text("alert")),
        ("logName", text("a")),
    ]);
    match entry_from_value(v) {
        Err(DecodeProblem::InvalidSeverity(t)) => assert_eq!(t, "alert"),
        other => panic!("unexpected: {:?}", other),
    }
}

#[test]
fn wrong_shape_timestamp_is_named() {
    let v = record(&[
        ("timestamp", serde_json::Value::Bool(true)),
        ("severity", text("info")),
        ("logName", text("a")),
    ]);
    assert!(matches!(
        entry_from_value(v),
        Err(DecodeProblem::WrongType(FieldName::Timestamp))
    ));
}

#[test]
fn wrong_shape_text_payload_is_named() {
    let v = record(&[
        ("timestamp", text("t1")),
        ("severity", text("info")),
        ("logName", text("a")),
        ("textPayload", serde_json::Value::Null),
    ]);
    assert!(matches!(
        entry_from_value(v),
        Err(DecodeProblem::WrongType(FieldName::TextPayload))
    ));
}

#[test]
fn wrong_shape_labels_is_named() {
    let v = record(&[
        ("timestamp", text("t1")),
        ("severity", text("info")),
        ("logName", text("a")),
        ("labels", text("not a table")),
    ]);
    assert!(matches!(
        entry_from_value(v),
        Err(DecodeProblem::WrongType(FieldName::Labels))
    ));
}

#[test]
fn problems_are_reported_in_schema_order() {
    let r = assemble_entry(
        StringField::Missing,
        StringField::Missing,
        StringField::Missing,
        StringField::Missing,
        TableField::Missing,
    );
    assert!(matches!(
        r,
        Err(DecodeProblem::MissingField(FieldName::Timestamp))
    ));
}
