use gcloud_reader::{
    ByteSource, DecodeProblem, IterState, LogEntryIter, LogError, LogSeverity, ReadFailure,
    SliceSource,
};

fn reader(input: &str) -> LogEntryIter<SliceSource> {
    LogEntryIter::new(SliceSource::new(input.as_bytes().to_vec()))
}

#[test]
fn single_record_is_decoded() {
    let mut r = reader(r#"[{"timestamp":"t1","severity":"INFO","logName":"a","textPayload":"hi"}]"#);
    match r.next_entry() {
        Some(Ok(e)) => {
            assert_eq!(e.severity, LogSeverity::Info);
            assert_eq!(e.text_payload, "hi");
            assert_eq!(e.timestamp, "t1");
            assert_eq!(e.log_name, "a");
            assert!(e.labels.is_empty());
        }
        other => panic!("unexpected: {:?}", other),
    }
    assert!(r.next_entry().is_none());
    assert_eq!(r.state, IterState::Finished);
}

#[test]
fn junk_before_array_is_skipped() {
    let mut r = reader(r#"{"junk":1}[{"timestamp":"t1","severity":"warning","logName":"a"}]"#);
    match r.next_entry() {
        Some(Ok(e)) => {
            assert_eq!(e.severity, LogSeverity::Warning);
            assert_eq!(e.text_payload, "");
            assert_eq!(e.timestamp, "t1");
        }
        other => panic!("unexpected: {:?}", other),
    }
    assert!(r.next_entry().is_none());
}

#[test]
fn leading_bytes_never_in_records() {
    let junk = r#"{"timestamp":"zz","severity":"error","logName":"zz"}"#;
    let body = r#"[{"timestamp":"t1","severity":"info","logName":"a"}]"#;
    let mut r = reader(&format!("{junk}{body}"));
    match r.next_entry() {
        Some(Ok(e)) => {
            assert_eq!(e.timestamp, "t1");
            assert_eq!(e.log_name, "a");
            assert_eq!(e.severity, LogSeverity::Info);
        }
        other => panic!("unexpected: {:?}", other),
    }
    assert!(r.next_entry().is_none());
}

#[test]
fn invalid_severity_is_a_decode_error() {
    let mut r = reader(r#"[{"timestamp":"t1","severity":"bogus","logName":"a"}]"#);
    match r.next_entry() {
        Some(Err(LogError::Decode(DecodeProblem::InvalidSeverity(t)))) => {
            assert_eq!(t, "bogus");
        }
        other => panic!("unexpected: {:?}", other),
    }
    assert_eq!(r.state, IterState::Finished);
    assert!(r.next_entry().is_none());
}

#[test]
fn truncated_after_open_fails() {
    let mut r = reader("[");
    assert!(matches!(r.next_entry(), Some(Err(LogError::Truncated))));
    assert_eq!(r.state, IterState::Finished);
    assert!(r.next_entry().is_none());
}

#[test]
fn empty_array_yields_nothing() {
    let mut r = reader("[]");
    assert!(r.next_entry().is_none());
    assert_eq!(r.state, IterState::Finished);
    assert!(r.next_entry().is_none());
}

#[test]
fn empty_array_with_whitespace_yields_nothing() {
    let mut r = reader("  [ \n\t ]  ");
    assert!(r.next_entry().is_none());
    assert_eq!(r.state, IterState::Finished);
}

#[test]
fn truncated_mid_object_fails() {
    let mut r = reader(r#"[{"timestamp":"t"#);
    assert!(matches!(r.next_entry(), Some(Err(LogError::Truncated))));
    assert_eq!(r.state, IterState::Finished);
}

#[test]
fn missing_close_fails() {
    let mut r = reader(r#"[{"timestamp":"t1","severity":"info","logName":"a"}"#);
    assert!(matches!(r.next_entry(), Some(Ok(_))));
    assert!(matches!(r.next_entry(), Some(Err(LogError::Truncated))));
    assert_eq!(r.state, IterState::Finished);
}

#[test]
fn malformed_element_is_a_syntax_error() {
    let mut r = reader("[nonsense]");
    assert!(matches!(
        r.next_entry(),
        Some(Err(LogError::Decode(DecodeProblem::Syntax(_))))
    ));
    assert_eq!(r.state, IterState::Finished);
}

#[test]
fn non_object_element_is_rejected() {
    let mut r = reader("[5]");
    assert!(matches!(
        r.next_entry(),
        Some(Err(LogError::Decode(DecodeProblem::NotAnObject)))
    ));
}

#[test]
fn three_records_in_order() {
    let mut r = reader(
        r#"[{"timestamp":"t1","severity":"info","logName":"a"},
            {"timestamp":"t2","severity":"error","logName":"a"},
            {"timestamp":"t3","severity":"debug","logName":"a"}]"#,
    );
    let mut stamps: Vec<String> = Vec::new();
    while let Some(item) = r.next_entry() {
        stamps.push(item.expect("all three records are well-formed").timestamp);
    }
    assert_eq!(stamps, vec!["t1", "t2", "t3"]);
    assert_eq!(r.state, IterState::Finished);
}

#[test]
fn no_array_means_empty_sequence() {
    let mut r = reader("no array anywhere");
    assert!(r.next_entry().is_none());
    assert_eq!(r.state, IterState::Finished);
}

#[test]
fn buffer_stays_bounded_over_many_records() {
    let mut body = String::from("[");
    for i in 0..2000 {
        if i > 0 {
            body.push(',');
        }
        body.push_str(&format!(
            r#"{{"timestamp":"t{i}","severity":"info","logName":"a","textPayload":"p{i}"}}"#
        ));
    }
    body.push(']');
    let total = body.len();
    let mut r = reader(&body);
    let mut count = 0;
    while let Some(item) = r.next_entry() {
        item.expect("every record is well-formed");
        count += 1;
        assert!(r.buffer.len() < 3 * 4096, "buffer grew to {}", r.buffer.len());
    }
    assert_eq!(count, 2000);
    assert!(total > 10 * 4096, "input must dwarf the buffer bound");
}

#[test]
fn one_huge_element_is_compacted_away() {
    let payload = "x".repeat(100_000);
    let body = format!(
        r#"[{{"timestamp":"t1","severity":"info","logName":"a","textPayload":"{payload}"}}]"#
    );
    let mut r = reader(&body);
    match r.next_entry() {
        Some(Ok(e)) => assert_eq!(e.text_payload.len(), 100_000),
        other => panic!("unexpected: {:?}", other),
    }
    assert!(r.buffer.len() < 2 * 4096, "buffer kept {} bytes", r.buffer.len());
    assert!(r.next_entry().is_none());
}

#[test]
fn stream_exposure_reproduces_the_byte_sequence() {
    let tail: &[u8] = b"tail bytes first";
    let rest: &[u8] = b" then the source, byte for byte";
    let mut full = Vec::new();
    full.extend_from_slice(b"consumed");
    full.extend_from_slice(tail);
    let mut r = LogEntryIter {
        buffer: full,
        buffer_offset: 8,
        inner: SliceSource::new(rest.to_vec()),
        state: IterState::Started,
        read_budget: usize::MAX,
    };
    let mut seen: Vec<u8> = Vec::new();
    loop {
        let chunk = r.read_exposed(7).expect("an in-memory source never fails");
        if chunk.is_empty() {
            break;
        }
        seen.extend_from_slice(&chunk);
    }
    let mut expected = tail.to_vec();
    expected.extend_from_slice(rest);
    assert_eq!(seen, expected);
}

#[test]
fn exhausted_read_budget_is_a_read_error() {
    let mut r = LogEntryIter {
        buffer: Vec::new(),
        buffer_offset: 0,
        inner: SliceSource::new(vec![b'x'; 10000]),
        state: IterState::NotStarted,
        read_budget: 0,
    };
    match r.next_entry() {
        Some(Err(LogError::Read(f))) => assert_eq!(f.message, "read budget exhausted"),
        other => panic!("unexpected: {:?}", other),
    }
}

struct FailingSource;

impl ByteSource for FailingSource {
    fn read_chunk(&mut self, _max: usize) -> Result<Vec<u8>, ReadFailure> {
        Err(ReadFailure { message: String::from("boom") })
    }
}

#[test]
fn source_failure_surfaces_as_read_error() {
    let mut r = LogEntryIter::new(FailingSource);
    match r.next_entry() {
        Some(Err(LogError::Read(f))) => assert_eq!(f.message, "boom"),
        other => panic!("unexpected: {:?}", other),
    }
    assert_eq!(r.state, IterState::Finished);
}
