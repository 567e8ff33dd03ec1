use vstd::prelude::*;

verus! {

/// Why a piece of integer text was rejected.
#[derive(Debug, Clone, Copy, PartialEq, Eq, Structural)]
pub enum IntError {
    /// The text was empty.
    Empty,
    /// A character was not a decimal digit (after an optional leading `+`).
    InvalidDigit,
    /// The value does not fit in the target integer type.
    Overflow,
    /// The value parsed to zero where a nonzero value is required
    /// (a ratio's denominator).
    Zero,
}

/// Why a piece of decimal (cents) text was rejected.
#[derive(Debug, Clone, Copy, PartialEq, Eq, Structural)]
pub enum FloatError {
    /// The text does not follow the decimal-number grammar.
    Invalid,
    /// The value, rounded to five decimal places, falls outside the
    /// representable fixed-point range.
    OutOfRange,
}

/// Failure of parsing one pitch line.
#[derive(Debug, Clone, Copy, PartialEq, Eq, Structural)]
pub enum ParsePitchError {
    /// The line looked like a cents value (it contains `.`) but its text
    /// was not an acceptable decimal number.
    ParseFloat(FloatError),
    /// The line looked like a ratio or a bare integer but a part of it
    /// was not an acceptable unsigned integer.
    ParseInt(IntError),
}

/// Failure of parsing a whole scale text.
#[derive(Debug, Clone, Copy, PartialEq, Eq, Structural)]
pub enum ParseScaleError {
    /// A pitch line failed as a cents value.
    ParseFloat(FloatError),
    /// A pitch line or the note-count line failed as an integer.
    ParseInt(IntError),
    /// No description line was found.
    MissingDescription,
    /// No note-count line was found after the description.
    MissingNoteCount,
    /// The declared note count differs from the number of pitch lines;
    /// the payload is the number of pitch lines actually present.
    WrongPitchCount(usize),
}

impl From<ParsePitchError> for ParseScaleError {
    /// A pitch failure surfaces unchanged in the scale-level taxonomy.
    fn from(value: ParsePitchError) -> (r: ParseScaleError)
        ensures
            r == pitch_error_to_scale_error(value),
    {
        match value {
            ParsePitchError::ParseFloat(err) => ParseScaleError::ParseFloat(err),
            ParsePitchError::ParseInt(err) => ParseScaleError::ParseInt(err),
        }
    }
}

impl vstd::std_specs::convert::FromSpecImpl<ParsePitchError> for ParseScaleError {
    open spec fn obeys_from_spec() -> bool {
        true
    }

    open spec fn from_spec(value: ParsePitchError) -> ParseScaleError {
        pitch_error_to_scale_error(value)
    }
}

/// The scale-level error that a failed pitch line surfaces as.
pub open spec fn pitch_error_to_scale_error(e: ParsePitchError) -> ParseScaleError {
    match e {
        ParsePitchError::ParseFloat(err) => ParseScaleError::ParseFloat(err),
        ParsePitchError::ParseInt(err) => ParseScaleError::ParseInt(err),
    }
}


#[verifier::external_type_specification]
#[verifier::external_body]
pub struct ExIoError(std::io::Error);

#[verifier::external_type_specification]
#[verifier::external_body]
pub struct ExFromUtf8Error(std::string::FromUtf8Error);

/// Failure of bringing a scale from an outside text source: the
/// transport failed, the bytes were not text, or the text was not a
/// scale.
#[derive(Debug)]
pub enum SerdeScalaError {
    /// The source or sink reported an input/output failure.
    IO(std::io::Error),
    /// The bytes were not valid UTF-8.
    FromUtf8(std::string::FromUtf8Error),
    /// The text did not parse as a scale.
    ParseScale(ParseScaleError),
}

impl From<std::io::Error> for SerdeScalaError {
    /// Wraps a transport failure.
    fn from(value: std::io::Error) -> (r: SerdeScalaError)
        ensures
            r is IO,
    {
        SerdeScalaError::IO(value)
    }
}

impl vstd::std_specs::convert::FromSpecImpl<std::io::Error> for SerdeScalaError {
    open spec fn obeys_from_spec() -> bool {
        true
    }

    open spec fn from_spec(value: std::io::Error) -> SerdeScalaError {
        SerdeScalaError::IO(value)
    }
}

impl From<std::string::FromUtf8Error> for SerdeScalaError {
    /// Wraps a decoding failure.
    fn from(value: std::string::FromUtf8Error) -> (r: SerdeScalaError)
        ensures
            r is FromUtf8,
    {
        SerdeScalaError::FromUtf8(value)
    }
}

impl vstd::std_specs::convert::FromSpecImpl<std::string::FromUtf8Error> for SerdeScalaError {
    open spec fn obeys_from_spec() -> bool {
        true
    }

    open spec fn from_spec(value: std::string::FromUtf8Error) -> SerdeScalaError {
        SerdeScalaError::FromUtf8(value)
    }
}

impl From<ParseScaleError> for SerdeScalaError {
    /// Wraps a parse failure.
    fn from(value: ParseScaleError) -> (r: SerdeScalaError)
        ensures
            r == SerdeScalaError::ParseScale(value),
    {
        SerdeScalaError::ParseScale(value)
    }
}

impl vstd::std_specs::convert::FromSpecImpl<ParseScaleError> for SerdeScalaError {
    open spec fn obeys_from_spec() -> bool {
        true
    }

    open spec fn from_spec(value: ParseScaleError) -> SerdeScalaError {
        SerdeScalaError::ParseScale(value)
    }
}

} // verus!
