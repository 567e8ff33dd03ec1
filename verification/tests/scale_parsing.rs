use serde_scala::{IntError, ParseScaleError, Pitch, Scale};

#[test]
fn parses_twelve_edo_example() {
    let mut text = String::from("!\n12-note equal division of octave\n12\n!\n");
    for i in 1..=12 {
        text.push_str(&format!("{}00.00000\n", i));
    }
    let scale: Scale = text.parse().unwrap();
    assert_eq!(scale.name, "12-note equal division of octave");
    assert_eq!(scale.pitches.len(), 12);
    assert_eq!(scale.pitches[11], Pitch::Cents(120_000_000));
    // the 100-cents step is one fractional semitone
    match scale.pitches[0] {
        Pitch::Cents(units) => {
            let note_offset = units as f64 / 100_000.0 / 100.0;
            assert_eq!(note_offset, 1.0);
        },
        _ => panic!("expected a cents pitch"),
    }
}

#[test]
fn wrong_pitch_count_reports_actual_count() {
    let text = "my scale\n3\n1.0\n2.0\n";
    let e = text.parse::<Scale>().unwrap_err();
    assert_eq!(e, ParseScaleError::WrongPitchCount(2));
}

#[test]
fn missing_note_count() {
    let text = "only a description\n! a comment\n";
    let e = text.parse::<Scale>().unwrap_err();
    assert_eq!(e, ParseScaleError::MissingNoteCount);
}

#[test]
fn missing_description() {
    let text = "! nothing but comments\n!\n";
    let e = text.parse::<Scale>().unwrap_err();
    assert_eq!(e, ParseScaleError::MissingDescription);
    let e2 = "".parse::<Scale>().unwrap_err();
    assert_eq!(e2, ParseScaleError::MissingDescription);
}

#[test]
fn pitch_line_comments_are_stripped() {
    let with_comment = "fifth\n1\n3/2 ! perfect fifth\n".parse::<Scale>().unwrap();
    let plain = "fifth\n1\n3/2\n".parse::<Scale>().unwrap();
    assert_eq!(with_comment.pitches, plain.pitches);
    assert_eq!(with_comment.pitches[0], Pitch::Ratio(3, 2));
}

#[test]
fn blank_and_comment_lines_are_skipped() {
    let text = "\n! header comment\n\nmy scale\n\n! before the count\n 2 \n!\n3/2\n2/1\n";
    let scale: Scale = text.parse().unwrap();
    assert_eq!(scale.name, "my scale");
    assert_eq!(scale.pitches, vec![Pitch::Ratio(3, 2), Pitch::Ratio(2, 1)]);
}

#[test]
fn description_is_kept_verbatim() {
    let text = "  spaced   name \n1\n2/1\n";
    let scale: Scale = text.parse().unwrap();
    assert_eq!(scale.name, "  spaced   name ");
}

#[test]
fn crlf_line_endings_are_accepted() {
    let text = "my scale\r\n1\r\n3/2\r\n";
    let scale: Scale = text.parse().unwrap();
    assert_eq!(scale.name, "my scale");
    assert_eq!(scale.pitches, vec![Pitch::Ratio(3, 2)]);
}

#[test]
fn bad_count_line_is_an_integer_error() {
    let e = "name\nnot a number\n".parse::<Scale>().unwrap_err();
    assert_eq!(e, ParseScaleError::ParseInt(IntError::InvalidDigit));
}

#[test]
fn pitch_error_propagates_with_scale_taxonomy() {
    let e = "name\n1\n1/0\n".parse::<Scale>().unwrap_err();
    assert_eq!(e, ParseScaleError::ParseInt(IntError::Zero));
}

#[test]
fn whitespace_in_count_and_pitch_lines_is_removed() {
    let text = "name\n\t 1 \n\t3 / 2\t\n";
    let scale: Scale = text.parse().unwrap();
    assert_eq!(scale.pitches, vec![Pitch::Ratio(3, 2)]);
}
