use vstd::prelude::*;

verus! {

/// The structural failures the pipeline can report.
///
/// Every variant marks a contract violation in label content: none is
/// transient, none is retried, and any one of them aborts the whole
/// utterance.
#[derive(Clone, Copy, PartialEq, Eq, Structural, Debug)]
pub enum EngineError {
    /// A required context field's delimiters were absent from a label string.
    LabelParse,
    /// Mora segmentation grouped three or more phonemes into one mora.
    TooLongMora,
    /// The accent index field of a phrase could not be read as an integer.
    InvalidMora,
}

impl EngineError {
    /// A short description of the failure.
    pub fn message(&self) -> (r: &'static str)
        ensures
            r@ == self.spec_message(),
    {
        match self {
            EngineError::LabelParse => "FullContextLabelError::LabelParse",
            EngineError::TooLongMora => "FullContextLabelError::TooLongMora",
            EngineError::InvalidMora => "FullContextLabelError::InvalidMora",
        }
    }

    pub open spec fn spec_message(&self) -> Seq<char> {
        match self {
            EngineError::LabelParse => "FullContextLabelError::LabelParse"@,
            EngineError::TooLongMora => "FullContextLabelError::TooLongMora"@,
            EngineError::InvalidMora => "FullContextLabelError::InvalidMora"@,
        }
    }
}

} // verus!
