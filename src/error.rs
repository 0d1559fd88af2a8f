//! Errors of a training or prediction run.
use vstd::prelude::*;
use vstd::string::to_string_from_display_ensures;

use crate::text::{decimal_string, decimal_text};

verus! {

/// Declares `std::io::Error` so that an error of a failed read or write can
/// be carried in `TrainError::Io`; nothing is assumed of its contents.
#[verifier::external_type_specification]
#[verifier::external_body]
pub struct ExIoError(std::io::Error);

/// Why a run stopped.
#[derive(Debug)]
pub enum TrainError {
    /// A file could not be read or written.
    Io(std::io::Error),
    /// The dataset text holds no non-blank line, so no column labels.
    MissingHeader,
    /// The line at this index (counted from zero, blank lines included) has
    /// fewer than two fields.
    MissingField { line: usize },
    /// A field on the line at this index is not a number.
    NotANumber { line: usize },
    /// The training ratio is not a decimal number in `(0, 1]`.
    BadRatio,
    /// No row was left for training.
    EmptyTrainSet,
    /// Every training row has the same input, so the inputs cannot be scaled.
    NoInputVariance,
    /// Any other failure, described in words.
    Custom(String),
}

impl From<std::io::Error> for TrainError {
    fn from(f: std::io::Error) -> (r: Self)
        ensures
            r == TrainError::Io(f),
    {
        TrainError::Io(f)
    }
}

impl vstd::std_specs::convert::FromSpecImpl<std::io::Error> for TrainError {
    open spec fn obeys_from_spec() -> bool {
        true
    }

    open spec fn from_spec(f: std::io::Error) -> TrainError {
        TrainError::Io(f)
    }
}

impl TrainError {
    /// A description of the error for a person to read.
    pub fn message(&self) -> (r: String)
        ensures
            self is Io ==> to_string_from_display_ensures::<std::io::Error>(&self->Io_0, r),
            self is MissingHeader ==> r@ == "Input has no header line"@,
            self is MissingField ==> r@ == "Missing field on line "@ + decimal_text(
                (self->MissingField_line + 1) as nat,
            ),
            self is NotANumber ==> r@ == "Field is not a number on line "@ + decimal_text(
                (self->NotANumber_line + 1) as nat,
            ),
            self is BadRatio ==> r@ == "Training ratio must be a decimal in (0, 1]"@,
            self is EmptyTrainSet ==> r@ == "Training set is empty"@,
            self is NoInputVariance ==> r@ == "All training inputs are identical"@,
            self is Custom ==> r@ == "Custom Error: "@ + debug_quoted(self->Custom_0@),
    {
        match self {
            TrainError::Io(e) => e.to_string(),
            TrainError::MissingHeader => "Input has no header line".to_string(),
            TrainError::MissingField { line } => {
                let mut s = "Missing field on line ".to_string();
                let n = decimal_string(*line as u128 + 1);
                s.append(n.as_str());
                s
            },
            TrainError::NotANumber { line } => {
                let mut s = "Field is not a number on line ".to_string();
                let n = decimal_string(*line as u128 + 1);
                s.append(n.as_str());
                s
            },
            TrainError::BadRatio => "Training ratio must be a decimal in (0, 1]".to_string(),
            TrainError::EmptyTrainSet => "Training set is empty".to_string(),
            TrainError::NoInputVariance => "All training inputs are identical".to_string(),
            TrainError::Custom(text) => {
                let mut s = "Custom Error: ".to_string();
                let q = debug_text(text.as_str());
                s.append(q.as_str());
                s
            },
        }
    }
}

/// Printable ASCII other than `"` and `\`: the characters that the `Debug`
/// form of a string keeps as they are.
pub open spec fn plain_ascii(s: Seq<char>) -> bool {
    forall|i: int|
        0 <= i < s.len() ==> {
            let u = #[trigger] s[i] as u32;
            0x20 <= u <= 0x7e && s[i] != '"' && s[i] != '\\'
        }
}

/// What the `Debug` impl of `str` writes for a text.
pub uninterp spec fn debug_quoted(s: Seq<char>) -> Seq<char>;

/// Relies on the `Debug` impl of `str`: the text between double quotes,
/// each character written as `char::escape_debug` gives it, so that a text
/// of plain ASCII stands unchanged between the quotes.
#[verifier::external_body]
fn debug_text(s: &str) -> (r: String)
    ensures
        r@ == debug_quoted(s@),
        plain_ascii(s@) ==> r@ == seq!['"'] + s@ + seq!['"'],
{
    format!("{:?}", s)
}

} // verus!
