use text_language_server::buffer::Buffer;
use text_language_server::numeric::parse_i64;
use text_language_server::protocol::{Position, Range};
use text_language_server::store::DocumentStore;
use text_language_server::transform::{
    code_action_applies, execute_transform, ActionKind, CommandMeta, EpochToUTC, Source,
    Transform, TransformOutcome, Unescape,
};

fn span(l1: u32, c1: u32, l2: u32, c2: u32) -> Range {
    Range::new(Position::new(l1, c1), Position::new(l2, c2))
}

#[test]
fn parse_i64_accepts_integer_literals() {
    assert_eq!(parse_i64(&Buffer::from_str("0")), Some(0));
    assert_eq!(parse_i64(&Buffer::from_str("42")), Some(42));
    assert_eq!(parse_i64(&Buffer::from_str("+42")), Some(42));
    assert_eq!(parse_i64(&Buffer::from_str("-42")), Some(-42));
    assert_eq!(
        parse_i64(&Buffer::from_str("9223372036854775807")),
        Some(i64::MAX)
    );
    assert_eq!(
        parse_i64(&Buffer::from_str("-9223372036854775808")),
        Some(i64::MIN)
    );
}

#[test]
fn parse_i64_rejects_everything_else() {
    assert_eq!(parse_i64(&Buffer::from_str("")), None);
    assert_eq!(parse_i64(&Buffer::from_str("-")), None);
    assert_eq!(parse_i64(&Buffer::from_str("+")), None);
    assert_eq!(parse_i64(&Buffer::from_str(" 42")), None);
    assert_eq!(parse_i64(&Buffer::from_str("42 ")), None);
    assert_eq!(parse_i64(&Buffer::from_str("4a2")), None);
    assert_eq!(parse_i64(&Buffer::from_str("12.5")), None);
    assert_eq!(parse_i64(&Buffer::from_str("9223372036854775808")), None);
    assert_eq!(parse_i64(&Buffer::from_str("-9223372036854775809")), None);
    assert_eq!(parse_i64(&Buffer::from_str("99999999999999999999")), None);
}

#[test]
fn unescape_transform_rewrites_escapes() {
    let out = Unescape.transform(&Buffer::from_str("\\n"));
    assert_eq!(out.as_deref(), Some("\n"));
    let out = Unescape.transform(&Buffer::from_str("a\\tb\\u{1F60A}"));
    assert_eq!(out.as_deref(), Some("a\tb\u{1F60A}"));
}

#[test]
fn unescape_transform_rejects_malformed_escape() {
    assert_eq!(Unescape.transform(&Buffer::from_str("dangling\\")), None);
}

#[test]
fn epoch_transform_formats_utc() {
    let out = EpochToUTC.transform(&Buffer::from_str("0"));
    assert_eq!(out.as_deref(), Some("1970-01-01T00:00:00Z"));
    let out = EpochToUTC.transform(&Buffer::from_str("1431648000"));
    assert_eq!(out.as_deref(), Some("2015-05-15T00:00:00Z"));
    let out = EpochToUTC.transform(&Buffer::from_str("-1"));
    assert_eq!(out.as_deref(), Some("1969-12-31T23:59:59Z"));
}

#[test]
fn epoch_transform_rejects_non_timestamps() {
    assert_eq!(EpochToUTC.transform(&Buffer::from_str("not a number")), None);
    // A timestamp outside the representable date range.
    assert_eq!(
        EpochToUTC.transform(&Buffer::from_str("9223372036854775807")),
        None
    );
}

#[test]
fn command_names_are_stable() {
    assert_eq!(Unescape.command_name(), "text-language-server.unescape");
    assert_eq!(Unescape.command_display_name(), "Unescape");
    assert_eq!(EpochToUTC.command_name(), "text-language-server.epoch-to-utc");
    assert_eq!(EpochToUTC.command_display_name(), "Epoch to UTC");
    assert_eq!(Source(Unescape).command_name(), "text-language-server.unescape");
}

#[test]
fn conditions_inspect_the_selection() {
    let text = Buffer::from_str("plain 1699999999 \\n");
    assert!(Unescape.code_action_condition(&text, span(0, 0, 0, 19)));
    assert!(!Unescape.code_action_condition(&text, span(0, 0, 0, 16)));
    assert!(EpochToUTC.code_action_condition(&text, span(0, 6, 0, 16)));
    assert!(!EpochToUTC.code_action_condition(&text, span(0, 0, 0, 16)));
    // The source variant looks only at the zero range.
    assert!(Source(Unescape).code_action_condition(&text, span(0, 0, 0, 0)));
    assert!(!Source(Unescape).code_action_condition(&text, span(0, 0, 0, 1)));
}

#[test]
fn code_action_applies_checks_filter_document_and_condition() {
    let mut store = DocumentStore::new();
    let uri = String::from("file:///doc");
    store.open(uri.clone(), "escaped \\n text");
    let all = span(0, 0, 0, 15);
    assert!(code_action_applies(&Unescape, &store, &uri, all, &None));
    assert!(code_action_applies(
        &Unescape,
        &store,
        &uri,
        all,
        &Some(vec![ActionKind::QuickFix])
    ));
    assert!(!code_action_applies(
        &Source(Unescape),
        &store,
        &uri,
        all,
        &Some(vec![ActionKind::QuickFix])
    ));
    assert!(!code_action_applies(
        &Unescape,
        &store,
        &uri,
        all,
        &Some(vec![])
    ));
    let absent = String::from("file:///absent");
    assert!(!code_action_applies(&Unescape, &store, &absent, all, &None));
    // Condition false: nothing to unescape in the selection.
    assert!(!code_action_applies(
        &Unescape,
        &store,
        &uri,
        span(0, 0, 0, 7),
        &None
    ));
}

#[test]
fn execute_transform_produces_the_edit() {
    let mut store = DocumentStore::new();
    let uri = String::from("file:///doc");
    store.open(uri.clone(), "keep \\n here");
    match execute_transform(&Unescape, &store, &uri, Some(span(0, 5, 0, 7))) {
        TransformOutcome::Edit { range, new_text } => {
            assert_eq!(range, span(0, 5, 0, 7));
            assert_eq!(new_text, "\n");
        }
        other => panic!("expected an edit, got {:?}", outcome_name(&other)),
    }
}

#[test]
fn execute_transform_without_range_takes_whole_document() {
    let mut store = DocumentStore::new();
    let uri = String::from("file:///doc");
    store.open(uri.clone(), "1431648000");
    match execute_transform(&EpochToUTC, &store, &uri, None) {
        TransformOutcome::Edit { range, new_text } => {
            assert_eq!(range, span(0, 0, 0, 10));
            assert_eq!(new_text, "2015-05-15T00:00:00Z");
        }
        other => panic!("expected an edit, got {:?}", outcome_name(&other)),
    }
}

#[test]
fn execute_transform_reports_missing_document_and_no_change() {
    let mut store = DocumentStore::new();
    let uri = String::from("file:///doc");
    assert!(matches!(
        execute_transform(&Unescape, &store, &uri, None),
        TransformOutcome::NotOpen
    ));
    store.open(uri.clone(), "nothing to do");
    assert!(matches!(
        execute_transform(&EpochToUTC, &store, &uri, None),
        TransformOutcome::NoChange
    ));
}

fn outcome_name(o: &TransformOutcome) -> &'static str {
    match o {
        TransformOutcome::NotOpen => "NotOpen",
        TransformOutcome::NoChange => "NoChange",
        TransformOutcome::Edit { .. } => "Edit",
    }
}
