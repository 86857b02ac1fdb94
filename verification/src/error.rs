use vstd::prelude::*;
use vstd::string::*;

verus! {

/// Why an operation of the handler did not succeed.
#[derive(Debug, Clone, PartialEq, Eq)]
pub enum IndicatorError {
    /// The augmented record could not be handed on; holds the channel's reason.
    ResponseSendError(String),
    /// The record has no double field of the configured name; holds that name.
    InvalidFieldType(String),
    /// The record has no tag of the configured name; holds that name.
    MissingTickerField(String),
    /// A required configuration option was not given; holds its name.
    MissingOption(String),
    /// A configuration option was given with an unusable value; holds its name.
    InvalidOption(String),
    /// Records were offered as a batch.
    UnsupportedOperation,
    /// The bytes offered for a restore are no snapshot that fits the configuration.
    MalformedSnapshot,
    /// The operation needs a configuration and none has been accepted yet.
    NotConfigured,
    /// The handler has been stopped.
    Stopped,
}

/// An error with its texts as character sequences.
pub enum ErrorView {
    ResponseSendError(Seq<char>),
    InvalidFieldType(Seq<char>),
    MissingTickerField(Seq<char>),
    MissingOption(Seq<char>),
    InvalidOption(Seq<char>),
    UnsupportedOperation,
    MalformedSnapshot,
    NotConfigured,
    Stopped,
}

impl View for IndicatorError {
    type V = ErrorView;

    open spec fn view(&self) -> ErrorView {
        match *self {
            IndicatorError::ResponseSendError(s) => ErrorView::ResponseSendError(s@),
            IndicatorError::InvalidFieldType(s) => ErrorView::InvalidFieldType(s@),
            IndicatorError::MissingTickerField(s) => ErrorView::MissingTickerField(s@),
            IndicatorError::MissingOption(s) => ErrorView::MissingOption(s@),
            IndicatorError::InvalidOption(s) => ErrorView::InvalidOption(s@),
            IndicatorError::UnsupportedOperation => ErrorView::UnsupportedOperation,
            IndicatorError::MalformedSnapshot => ErrorView::MalformedSnapshot,
            IndicatorError::NotConfigured => ErrorView::NotConfigured,
            IndicatorError::Stopped => ErrorView::Stopped,
        }
    }
}

/// The sentence that describes an error to a person.
pub open spec fn message_text(e: ErrorView) -> Seq<char> {
    match e {
        ErrorView::ResponseSendError(s) => "Failed to send response: "@ + s,
        ErrorView::InvalidFieldType(s) => "Invalid field type: expected double, got "@ + s,
        ErrorView::MissingTickerField(s) => "Missing ticker field: "@ + s,
        ErrorView::MissingOption(s) => "Missing option: "@ + s,
        ErrorView::InvalidOption(s) => "Invalid option: "@ + s,
        ErrorView::UnsupportedOperation => "Batching is not supported"@,
        ErrorView::MalformedSnapshot => "Snapshot is malformed"@,
        ErrorView::NotConfigured => "Handler is not configured"@,
        ErrorView::Stopped => "Handler is stopped"@,
    }
}

impl IndicatorError {
    /// The sentence that describes this error to a person.
    pub fn message(&self) -> (r: String)
        ensures
            r@ == message_text(self@),
    {
        match self {
            IndicatorError::ResponseSendError(s) => String::from_str(
                "Failed to send response: ",
            ).concat(s.as_str()),
            IndicatorError::InvalidFieldType(s) => String::from_str(
                "Invalid field type: expected double, got ",
            ).concat(s.as_str()),
            IndicatorError::MissingTickerField(s) => String::from_str(
                "Missing ticker field: ",
            ).concat(s.as_str()),
            IndicatorError::MissingOption(s) => String::from_str("Missing option: ").concat(
                s.as_str(),
            ),
            IndicatorError::InvalidOption(s) => String::from_str("Invalid option: ").concat(
                s.as_str(),
            ),
            IndicatorError::UnsupportedOperation => String::from_str("Batching is not supported"),
            IndicatorError::MalformedSnapshot => String::from_str("Snapshot is malformed"),
            IndicatorError::NotConfigured => String::from_str("Handler is not configured"),
            IndicatorError::Stopped => String::from_str("Handler is stopped"),
        }
    }
}

} // verus!
