use serde_scala::{Pitch, Scale};

#[test]
fn cents_format_has_five_places() {
    assert_eq!(Pitch::Cents(70_000_000).format(), "700.00000");
    assert_eq!(Pitch::Cents(70_195_500).format(), "701.95500");
    assert_eq!(Pitch::Cents(0).format(), "0.00000");
    assert_eq!(Pitch::Cents(-50).format(), "-0.00050");
    assert_eq!(Pitch::Cents(-1_250_000).format(), "-12.50000");
}

#[test]
fn ratio_format_prints_stored_parts() {
    assert_eq!(Pitch::Ratio(3, 2).format(), "3/2");
    // formatting never reduces; only parsing does
    assert_eq!(Pitch::Ratio(4, 2).format(), "4/2");
    assert_eq!(Pitch::Ratio(0, 1).format(), "0/1");
}

#[test]
fn scale_format_emits_the_fixed_layout() {
    let scale = Scale::new(
        String::from("a fifth and an octave"),
        vec![Pitch::Ratio(3, 2), Pitch::Cents(120_000_000)],
    );
    let text = scale.format();
    assert_eq!(
        text,
        "! Generated scale:\na fifth and an octave\n2\n!\n3/2\n1200.00000\n"
    );
}

#[test]
fn format_then_parse_returns_the_scale() {
    let scale = Scale::new(
        String::from("round trip"),
        vec![
            Pitch::Cents(10_000_000),
            Pitch::Cents(-12_345),
            Pitch::Ratio(3, 2),
            Pitch::Ratio(2, 1),
        ],
    );
    let back: Scale = scale.format().parse().unwrap();
    assert_eq!(back, scale);
}

#[test]
fn format_then_parse_reduces_unreduced_ratios() {
    let scale = Scale::new(String::from("unreduced"), vec![Pitch::Ratio(6, 4)]);
    let back: Scale = scale.format().parse().unwrap();
    assert_eq!(back.name, "unreduced");
    // numerically the same value, now in lowest terms
    assert_eq!(back.pitches, vec![Pitch::Ratio(3, 2)]);
}
