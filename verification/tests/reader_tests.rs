use macro_input::convert::ConvError;
use macro_input::reader::{process_event, read_input, Observed, ReadEvent, Step};
use macro_input::serial::read_two_serialized;

fn line(s: &str) -> ReadEvent {
    ReadEvent::Line(s.to_string())
}

#[test]
fn valid_line_returns_after_one_attempt() {
    let report = read_input::<i64>("Enter a number", vec![line("42\n")]);
    assert_eq!(report.value, Some(42));
    assert_eq!(report.attempts, 1);
    assert_eq!(report.observed.len(), 0);
    assert_eq!(report.transcript, vec!["Enter a number (i64): ".to_string()]);
}

#[test]
fn malformed_lines_never_return_a_value() {
    let report = read_input::<i64>("Enter a number", vec![line("abc"), line("x1")]);
    assert_eq!(report.value, None);
    assert_eq!(report.attempts, 2);
    assert_eq!(report.observed.len(), 2);
    assert!(report.transcript[1].contains("abc"));
    assert!(report.transcript[3].contains("x1"));
}

#[test]
fn same_value_directly_or_after_retries() {
    let direct = read_input::<i64>("Enter a number", vec![line("7")]);
    let retried = read_input::<i64>(
        "Enter a number",
        vec![line("abc"), line("!!"), line("7")],
    );
    assert_eq!(direct.value, retried.value);
    assert_eq!(direct.attempts, 1);
    assert_eq!(retried.attempts, 3);
    assert_eq!(direct.observed.len(), 0);
    assert_eq!(retried.observed.len(), 2);
}

#[test]
fn serialized_transcripts_never_interleave() {
    let (first, second, combined) = read_two_serialized::<i64, i64>(
        "First",
        vec![line("oops"), line("1")],
        "Second",
        vec![line("2")],
    );
    assert_eq!(first.value, Some(1));
    assert_eq!(second.value, Some(2));
    let mut expected = first.transcript.clone();
    expected.extend(second.transcript.clone());
    assert_eq!(combined, expected);
    // The first caller's whole prompt-retry sequence stands before the
    // second caller's first write.
    assert_eq!(combined[0], "First (i64): ");
    assert_eq!(combined[combined.len() - 1], "Second (i64): ");
}

#[test]
fn integer_scenario_rejects_twice_then_returns() {
    let report = read_input::<i64>(
        "Enter a number",
        vec![line("abc"), line("12.5"), line("7")],
    );
    assert_eq!(report.value, Some(7));
    assert_eq!(report.attempts, 3);
    assert_eq!(report.observed.len(), 2);
    assert!(matches!(
        report.observed[0],
        Observed::Conversion(ConvError::InvalidDigit)
    ));
    assert!(matches!(
        report.observed[1],
        Observed::Conversion(ConvError::InvalidDigit)
    ));
    assert_eq!(
        report.transcript[1],
        "Invalid input 'abc'. Expected type: i64. Error: invalid digit found in string"
    );
}

#[test]
fn empty_stream_is_fatal_not_a_loop() {
    let report = read_input::<i64>("Enter a number", vec![]);
    assert_eq!(report.value, None);
    assert_eq!(report.attempts, 0);
    assert_eq!(report.observed.len(), 0);
    assert_eq!(report.transcript, vec!["Enter a number (i64): ".to_string()]);
}

#[test]
fn text_target_accepts_any_nonempty_line_at_once() {
    let report = read_input::<String>("Your name", vec![line("  Ada Lovelace \n")]);
    assert_eq!(report.value, Some("Ada Lovelace".to_string()));
    assert_eq!(report.attempts, 1);
    assert_eq!(report.observed.len(), 0);
}

#[test]
fn succeeds_on_third_attempt_after_two_bad_lines() {
    let report = read_input::<i64>("Enter a number", vec![line("no"), line("nope"), line("5")]);
    assert_eq!(report.value, Some(5));
    assert_eq!(report.attempts, 3);
    assert_eq!(report.observed.len(), 2);
}

#[test]
fn read_failures_are_retried_and_observed() {
    let report = read_input::<i64>(
        "Enter a number",
        vec![ReadEvent::Failure("broken pipe".to_string()), line("3")],
    );
    assert_eq!(report.value, Some(3));
    assert_eq!(report.attempts, 2);
    assert_eq!(report.transcript[1], "Failed to read line: broken pipe");
    assert!(matches!(&report.observed[0], Observed::Read(m) if m == "broken pipe"));
}

#[test]
fn lines_are_trimmed_before_conversion() {
    let report = read_input::<i64>("Enter a number", vec![line("   -8  \r\n")]);
    assert_eq!(report.value, Some(-8));
}

#[test]
fn overflow_line_is_rejected_with_its_message() {
    let report = read_input::<i64>(
        "Enter a number",
        vec![line("9223372036854775808"), line("1")],
    );
    assert_eq!(report.value, Some(1));
    assert!(report.transcript[1].contains("number too large to fit in target type"));
    assert!(matches!(
        report.observed[0],
        Observed::Conversion(ConvError::PosOverflow)
    ));
}

#[test]
fn single_step_decides_like_the_loop() {
    match process_event::<i64>(&line(" 11 ")) {
        Step::Done(v) => assert_eq!(v, 11),
        _ => panic!("a convertible line must end the loop"),
    }
    match process_event::<i64>(&line("eleven")) {
        Step::RetryConversion { diagnostic, error } => {
            assert!(diagnostic.contains("eleven"));
            assert_eq!(error, ConvError::InvalidDigit);
        }
        _ => panic!("a malformed line must retry"),
    }
}
