use gcloud_reader::LogSeverity;

#[test]
fn decodes_each_name_exactly() {
    assert_eq!(LogSeverity::from_text("default"), Some(LogSeverity::Default));
    assert_eq!(LogSeverity::from_text("debug"), Some(LogSeverity::Debug));
    assert_eq!(LogSeverity::from_text("info"), Some(LogSeverity::Info));
    assert_eq!(LogSeverity::from_text("notice"), Some(LogSeverity::Notice));
    assert_eq!(LogSeverity::from_text("warning"), Some(LogSeverity::Warning));
    assert_eq!(LogSeverity::from_text("error"), Some(LogSeverity::Error));
    assert_eq!(LogSeverity::from_text("critical"), Some(LogSeverity::Critical));
    assert_eq!(LogSeverity::from_text("emergency"), Some(LogSeverity::Emergency));
}

#[test]
fn decoding_ignores_ascii_case() {
    assert_eq!(LogSeverity::from_text("DEFAULT"), Some(LogSeverity::Default));
    assert_eq!(LogSeverity::from_text("Debug"), Some(LogSeverity::Debug));
    assert_eq!(LogSeverity::from_text("iNfO"), Some(LogSeverity::Info));
    assert_eq!(LogSeverity::from_text("NOTICE"), Some(LogSeverity::Notice));
    assert_eq!(LogSeverity::from_text("Warning"), Some(LogSeverity::Warning));
    assert_eq!(LogSeverity::from_text("ERROR"), Some(LogSeverity::Error));
    assert_eq!(LogSeverity::from_text("CriTicAl"), Some(LogSeverity::Critical));
    assert_eq!(LogSeverity::from_text("EmErGeNcY"), Some(LogSeverity::Emergency));
}

#[test]
fn alert_never_decodes() {
    assert_eq!(LogSeverity::from_text("alert"), None);
    assert_eq!(LogSeverity::from_text("Alert"), None);
    assert_eq!(LogSeverity::from_text("ALERT"), None);
}

#[test]
fn unrecognized_text_fails() {
    assert_eq!(LogSeverity::from_text("bogus"), None);
    assert_eq!(LogSeverity::from_text(""), None);
    assert_eq!(LogSeverity::from_text("warn"), None);
    assert_eq!(LogSeverity::from_text("infos"), None);
    assert_eq!(LogSeverity::from_text(" info"), None);
    assert_eq!(LogSeverity::from_text("in fo"), None);
}
