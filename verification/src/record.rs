//! The snippet record and the transcoder's error type.

use vstd::prelude::*;

verus! {

/// Mathematical view of a snippet record: its three fields as character
/// sequences.
pub ghost struct RecordView {
    pub trigger: Seq<char>,
    pub replacement: Seq<char>,
    pub options: Seq<char>,
}

/// A snippet: a trigger/replacement/options triple representing one
/// text-expansion rule.  The `options` field is an opaque configuration
/// string whose content is not interpreted.
pub struct SnippetRecord {
    pub trigger: String,
    pub replacement: String,
    pub options: String,
}

impl View for SnippetRecord {
    type V = RecordView;

    open spec fn view(&self) -> RecordView {
        RecordView {
            trigger: self.trigger@,
            replacement: self.replacement@,
            options: self.options@,
        }
    }
}

/// Reserved error kind with no current producer; kept as an extension point
/// for a future validation layer.  Nothing in the library constructs it.
#[derive(Debug)]
pub enum SnippyError {
    Reserved,
}

/// Relies on `std::io::Error` only as an opaque payload: the type wraps the
/// operating system's report of a failed read or write.
#[verifier::external_type_specification]
#[verifier::external_body]
pub struct ExIoError(std::io::Error);

/// Relies on `json::Error` only as an opaque payload: the type carries the
/// JSON parser's report of malformed input, with position and context.
#[verifier::external_type_specification]
#[verifier::external_body]
pub struct ExJsonError(json::Error);

/// The transcoder's error type: an I/O failure, a JSON parse failure, a
/// structural failure (the `snippets` member missing or not a string), or a
/// reserved kind with no current producer.
#[derive(Debug)]
pub enum SnippetsError {
    IOError(std::io::Error),
    JsonError(json::Error),
    BadJsonFormat,
    SnippyError(SnippyError),
}

/// Relies on the `std::fmt::Display` rendering of `std::io::Error`: the
/// result is the fixed prefix followed by the system's error message.
#[verifier::external_body]
fn io_error_message(e: &std::io::Error) -> (r: String)
    ensures
        r@.len() >= "IO Error: "@.len(),
        r@.subrange(0, "IO Error: "@.len() as int) == "IO Error: "@,
{
    format!("IO Error: {e}")
}

/// Relies on the `std::fmt::Display` rendering of `json::Error`: the
/// result is the fixed prefix followed by the parser's error message.
#[verifier::external_body]
fn json_error_message(e: &json::Error) -> (r: String)
    ensures
        r@.len() >= "Json Error: "@.len(),
        r@.subrange(0, "Json Error: "@.len() as int) == "Json Error: "@,
{
    format!("Json Error: {e}")
}

impl SnippetsError {
    /// The error's display text: a fixed message for the structural and
    /// reserved kinds, and a fixed prefix followed by the underlying
    /// error's own message for the wrapped kinds.
    pub fn message(&self) -> (r: String)
        ensures
            (match self {
                SnippetsError::IOError(_) => r@.len() >= "IO Error: "@.len() && r@.subrange(
                    0,
                    "IO Error: "@.len() as int,
                ) == "IO Error: "@,
                SnippetsError::JsonError(_) => r@.len() >= "Json Error: "@.len() && r@.subrange(
                    0,
                    "Json Error: "@.len() as int,
                ) == "Json Error: "@,
                SnippetsError::BadJsonFormat => r@ == "Could not find the snippets..."@,
                SnippetsError::SnippyError(_) => r@ == "Snippy Error..."@,
            }),
    {
        match self {
            SnippetsError::IOError(e) => io_error_message(e),
            SnippetsError::JsonError(e) => json_error_message(e),
            SnippetsError::BadJsonFormat => "Could not find the snippets...".to_owned(),
            SnippetsError::SnippyError(_) => "Snippy Error...".to_owned(),
        }
    }
}

impl From<std::io::Error> for SnippetsError {
    fn from(value: std::io::Error) -> (r: Self) {
        SnippetsError::IOError(value)
    }
}

impl vstd::std_specs::convert::FromSpecImpl<std::io::Error> for SnippetsError {
    open spec fn obeys_from_spec() -> bool {
        true
    }

    open spec fn from_spec(value: std::io::Error) -> Self {
        SnippetsError::IOError(value)
    }
}

impl From<json::Error> for SnippetsError {
    fn from(value: json::Error) -> (r: Self) {
        SnippetsError::JsonError(value)
    }
}

impl vstd::std_specs::convert::FromSpecImpl<json::Error> for SnippetsError {
    open spec fn obeys_from_spec() -> bool {
        true
    }

    open spec fn from_spec(value: json::Error) -> Self {
        SnippetsError::JsonError(value)
    }
}

impl From<SnippyError> for SnippetsError {
    fn from(value: SnippyError) -> (r: Self) {
        SnippetsError::SnippyError(value)
    }
}

impl vstd::std_specs::convert::FromSpecImpl<SnippyError> for SnippetsError {
    open spec fn obeys_from_spec() -> bool {
        true
    }

    open spec fn from_spec(value: SnippyError) -> Self {
        SnippetsError::SnippyError(value)
    }
}

} // verus!
