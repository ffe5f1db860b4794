//! The decoded log record, and how one is assembled out of a JSON value.
//!
//! The wire schema uses camelCase keys: `textPayload` (optional string),
//! `timestamp` (required string), `severity` (required string, matched
//! case-insensitively), `logName` (required string), `labels` (optional
//! object with no fixed schema).

use vstd::prelude::*;
use vstd::utf8::encode_utf8;

use crate::json::{
    empty_table, get_string_field, get_table_field, object_shaped, string_field_of, table_field_of,
    table_size, value_is_object, StringField, TableField,
};
use crate::severity::{lemma_alert_unreachable, text_severity, LogSeverity};

verus! {

/// One decoded log record.
#[derive(Debug)]
pub struct LogEntry {
    /// The record's free-form text; empty when the wire form had none.
    pub text_payload: String,
    /// When the record was emitted; kept opaque, never parsed further.
    pub timestamp: String,
    /// How severe the record is.
    pub severity: LogSeverity,
    /// Which log the record belongs to.
    pub log_name: String,
    /// Arbitrary key-value annotations; empty when the wire form had none.
    pub labels: serde_json::Map<String, serde_json::Value>,
}

/// A field of the wire schema, named so an error can point at it.
#[derive(Debug, Clone, Copy, PartialEq, Eq, Structural)]
pub enum FieldName {
    Timestamp,
    Severity,
    LogName,
    TextPayload,
    Labels,
}

/// Why one element could not be decoded into a record.
#[derive(Debug)]
pub enum DecodeProblem {
    /// The element is not well-formed JSON; the message says where.
    Syntax(String),
    /// The element is a JSON value, but not an object.
    NotAnObject,
    /// A required field is absent.
    MissingField(FieldName),
    /// A field is present but holds a value of the wrong shape.
    WrongType(FieldName),
    /// The severity field holds this text, which names no severity.
    InvalidSeverity(String),
}

/// The first problem with the given field values, checked in schema order;
/// nothing when they make a well-formed record.
pub open spec fn field_problem(
    timestamp: StringField,
    severity: StringField,
    log_name: StringField,
    text_payload: StringField,
    labels: TableField,
) -> Option<DecodeProblem> {
    if timestamp is Missing {
        Some(DecodeProblem::MissingField(FieldName::Timestamp))
    } else if timestamp is WrongType {
        Some(DecodeProblem::WrongType(FieldName::Timestamp))
    } else if severity is Missing {
        Some(DecodeProblem::MissingField(FieldName::Severity))
    } else if severity is WrongType {
        Some(DecodeProblem::WrongType(FieldName::Severity))
    } else if text_severity(encode_utf8(severity->Text_0@)) is None {
        Some(DecodeProblem::InvalidSeverity(severity->Text_0))
    } else if log_name is Missing {
        Some(DecodeProblem::MissingField(FieldName::LogName))
    } else if log_name is WrongType {
        Some(DecodeProblem::WrongType(FieldName::LogName))
    } else if text_payload is WrongType {
        Some(DecodeProblem::WrongType(FieldName::TextPayload))
    } else if labels is WrongType {
        Some(DecodeProblem::WrongType(FieldName::Labels))
    } else {
        None
    }
}

/// Builds a record out of the five extracted fields, or reports the first
/// problem with them, in schema order.
pub fn assemble_entry(
    timestamp: StringField,
    severity: StringField,
    log_name: StringField,
    text_payload: StringField,
    labels: TableField,
) -> (r: Result<LogEntry, DecodeProblem>)
    ensures
        field_problem(timestamp, severity, log_name, text_payload, labels) matches Some(p)
            ==> r == Err::<LogEntry, DecodeProblem>(p),
        field_problem(timestamp, severity, log_name, text_payload, labels) is None ==> (r matches Ok(
            e,
        ) && e.timestamp == timestamp->Text_0 && Some(e.severity) == text_severity(
            encode_utf8(severity->Text_0@),
        ) && e.log_name == log_name->Text_0 && (text_payload matches StringField::Text(p)
            ==> e.text_payload == p) && (text_payload is Missing ==> e.text_payload@.len() == 0) && (
        labels matches TableField::Table(m) ==> e.labels == m) && (labels is Missing ==> table_size(
            e.labels,
        ) == 0)),
        r matches Ok(e) ==> e.severity != LogSeverity::Alert,
{
    let ts = match timestamp {
        StringField::Missing => {
            return Err(DecodeProblem::MissingField(FieldName::Timestamp));
        },
        StringField::WrongType => {
            return Err(DecodeProblem::WrongType(FieldName::Timestamp));
        },
        StringField::Text(s) => s,
    };
    let sev_text = match severity {
        StringField::Missing => {
            return Err(DecodeProblem::MissingField(FieldName::Severity));
        },
        StringField::WrongType => {
            return Err(DecodeProblem::WrongType(FieldName::Severity));
        },
        StringField::Text(s) => s,
    };
    let sev = match LogSeverity::from_text(sev_text.as_str()) {
        Some(s) => s,
        None => {
            return Err(DecodeProblem::InvalidSeverity(sev_text));
        },
    };
    let ln = match log_name {
        StringField::Missing => {
            return Err(DecodeProblem::MissingField(FieldName::LogName));
        },
        StringField::WrongType => {
            return Err(DecodeProblem::WrongType(FieldName::LogName));
        },
        StringField::Text(s) => s,
    };
    let tp = match text_payload {
        StringField::Missing => String::new(),
        StringField::WrongType => {
            return Err(DecodeProblem::WrongType(FieldName::TextPayload));
        },
        StringField::Text(s) => s,
    };
    let lb = match labels {
        TableField::Missing => empty_table(),
        TableField::WrongType => {
            return Err(DecodeProblem::WrongType(FieldName::Labels));
        },
        TableField::Table(m) => m,
    };
    proof {
        lemma_alert_unreachable(encode_utf8(sev_text@));
    }
    Ok(LogEntry { text_payload: tp, timestamp: ts, severity: sev, log_name: ln, labels: lb })
}

/// Decodes one JSON value into a record.
///
/// The value must be an object; `timestamp`, `severity` and `logName` must
/// be present strings, the severity text must name a severity;
/// `textPayload` defaults to the empty string and `labels` to the empty
/// table. The first problem found, in that order, is reported.
pub fn entry_from_value(v: serde_json::Value) -> (r: Result<LogEntry, DecodeProblem>)
    ensures
        r matches Ok(e) ==> e.severity != LogSeverity::Alert,
        r matches Err(p) ==> !(p is Syntax),
        !object_shaped(v) ==> r == Err::<LogEntry, DecodeProblem>(DecodeProblem::NotAnObject),
        object_shaped(v) ==> ({
            let ts = string_field_of(v, "timestamp"@);
            let sv = string_field_of(v, "severity"@);
            let ln = string_field_of(v, "logName"@);
            let tp = string_field_of(v, "textPayload"@);
            let lb = table_field_of(v, "labels"@);
            &&& (field_problem(ts, sv, ln, tp, lb) matches Some(p) ==> r == Err::<
                LogEntry,
                DecodeProblem,
            >(p))
            &&& (field_problem(ts, sv, ln, tp, lb) is None ==> (r matches Ok(e) && e.timestamp
                == ts->Text_0 && Some(e.severity) == text_severity(encode_utf8(sv->Text_0@))
                && e.log_name == ln->Text_0 && (tp matches StringField::Text(p) ==> e.text_payload
                == p) && (tp is Missing ==> e.text_payload@.len() == 0) && (lb matches
                TableField::Table(m) ==> e.labels == m) && (lb is Missing ==> table_size(e.labels)
                == 0)))
        }),
{
    if !value_is_object(&v) {
        return Err(DecodeProblem::NotAnObject);
    }
    let timestamp = get_string_field(&v, "timestamp");
    let severity = get_string_field(&v, "severity");
    let log_name = get_string_field(&v, "logName");
    let text_payload = get_string_field(&v, "textPayload");
    let labels = get_table_field(&v, "labels");
    assemble_entry(timestamp, severity, log_name, text_payload, labels)
}

} // verus!
