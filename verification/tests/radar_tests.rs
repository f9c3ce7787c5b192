use engagement::radar::{ParseFault, RadarMessage, SourceLine, parse_line, radar_step,
    source_stage};

#[test]
fn test_parser() {
    assert!(matches!(parse_line("1000;1001"), RadarMessage::Received(..)));
    assert!(matches!(parse_line("1001;monkey"), RadarMessage::ScanIntError(..)));
}

#[test]
fn radar_test_parser() {
    assert_eq!(parse_line("1000;1001"), RadarMessage::Received(vec![8, 9]));
}

#[test]
fn parser_trims_fields() {
    assert_eq!(parse_line(" 1000 ;\t1001 "), RadarMessage::Received(vec![8, 9]));
}

#[test]
fn parser_single_field() {
    assert_eq!(parse_line("11111111"), RadarMessage::Received(vec![255]));
    assert_eq!(parse_line("0"), RadarMessage::Received(vec![0]));
}

#[test]
fn parser_empty_line_is_empty_field() {
    assert_eq!(parse_line(""), RadarMessage::ScanIntError(ParseFault::EmptyField));
}

#[test]
fn parser_empty_field_inside() {
    assert_eq!(parse_line("1000;;1001"), RadarMessage::ScanIntError(ParseFault::EmptyField));
}

#[test]
fn parser_invalid_digit() {
    assert_eq!(parse_line("1021"), RadarMessage::ScanIntError(ParseFault::InvalidDigit));
}

#[test]
fn parser_overflow() {
    assert_eq!(parse_line("100000000"), RadarMessage::ScanIntError(ParseFault::ValueOverflow));
    assert_eq!(parse_line("0100000000"), RadarMessage::ScanIntError(ParseFault::ValueOverflow));
}

#[test]
fn parser_first_fault_wins() {
    // The second field has an invalid digit, the third overflows: the
    // earlier field decides.
    assert_eq!(
        parse_line("1;1x;100000000"),
        RadarMessage::ScanIntError(ParseFault::InvalidDigit)
    );
    assert_eq!(
        parse_line("1;100000000;1x"),
        RadarMessage::ScanIntError(ParseFault::ValueOverflow)
    );
}

#[test]
fn parser_leading_zeros_fit() {
    assert_eq!(parse_line("0000000011"), RadarMessage::Received(vec![3]));
}

#[test]
fn step_reports_each_line_kind() {
    let (msg, end) = radar_step(Some(&SourceLine::Text(String::from("1;0"))));
    assert_eq!(msg, RadarMessage::Received(vec![1, 0]));
    assert!(!end);

    let (msg, end) = radar_step(Some(&SourceLine::ReadFailure(String::from("disk gone"))));
    assert_eq!(msg, RadarMessage::ScanIOError(String::from("disk gone")));
    assert!(!end);

    let (msg, end) = radar_step(None);
    assert_eq!(msg, RadarMessage::EndOfData);
    assert!(end);
}

#[test]
fn source_stage_appends_single_sentinel() {
    let lines = vec![
        SourceLine::Text(String::from("1")),
        SourceLine::ReadFailure(String::from("oops")),
        SourceLine::Text(String::from("bad!")),
    ];
    let stream = source_stage(&lines);
    assert_eq!(stream.len(), 4);
    assert!(matches!(stream[0], RadarMessage::Received(..)));
    assert!(matches!(stream[1], RadarMessage::ScanIOError(..)));
    assert!(matches!(stream[2], RadarMessage::ScanIntError(..)));
    assert!(matches!(stream[3], RadarMessage::EndOfData));
}
