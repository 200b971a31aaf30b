//! What can go wrong while scanning.

use vstd::prelude::*;
use vstd::string::StringExecFns;

verus! {

/// `std::io::Error`, the cause of a failed read. Nothing is known of what it holds.
#[verifier::external_type_specification]
#[verifier::external_body]
pub struct ExIoError(std::io::Error);

/// `std::string::FromUtf8Error`, the cause of a failed decoding. Nothing is known of
/// what it holds.
#[verifier::external_type_specification]
#[verifier::external_body]
pub struct ExFromUtf8Error(std::string::FromUtf8Error);

/// Why a scan failed.
#[derive(Debug)]
pub enum Error {
    /// The byte source could not be read.
    IoError(std::io::Error),
    /// The bytes of a token or of a line are no valid UTF-8.
    EncodingError(std::string::FromUtf8Error),
    /// A token is not written as the requested type asks; the text says which token
    /// and which type.
    ParseError(String),
    /// The input ended where a value was required.
    Eof,
}

/// `Display` of `std::io::Error`: the text that the platform gives for the failure.
/// Nothing is claimed of it.
#[verifier::external_body]
fn io_cause(cause: &std::io::Error) -> String {
    format!("{}", cause)
}

/// `Display` of `std::string::FromUtf8Error`: the text that says where the bytes stop
/// being valid. Nothing is claimed of it.
#[verifier::external_body]
fn encoding_cause(cause: &std::string::FromUtf8Error) -> String {
    format!("{}", cause)
}

/// A line of report: the label, the detail and a newline.
pub open spec fn report_line(label: Seq<char>, detail: Seq<char>) -> Seq<char> {
    label + detail + "\n"@
}

/// Builds a line of report.
pub fn report(label: &str, detail: &str) -> (r: String)
    ensures
        r@ == report_line(label@, detail@),
{
    let mut line: String = String::from_str(label);
    line.append(detail);
    line.append("\n");
    line
}

impl Error {
    /// The error as one line of text for a person: the stage that failed, and the
    /// cause or the description.
    pub fn message(&self) -> (r: String)
        ensures
            match self {
                Error::IoError(_) => exists|cause: Seq<char>|
                    r@ == #[trigger] report_line("IO Error: "@, cause),
                Error::EncodingError(_) => exists|cause: Seq<char>|
                    r@ == #[trigger] report_line("Encoding Error: "@, cause),
                Error::ParseError(description) => r@ == report_line("Parse Error: "@, description@),
                Error::Eof => r@ == report_line("EOF"@, Seq::<char>::empty()),
            },
    {
        match self {
            Error::IoError(cause) => {
                let detail = io_cause(cause);
                let line = report("IO Error: ", detail.as_str());
                assert(line@ == report_line("IO Error: "@, detail@));
                line
            },
            Error::EncodingError(cause) => {
                let detail = encoding_cause(cause);
                let line = report("Encoding Error: ", detail.as_str());
                assert(line@ == report_line("Encoding Error: "@, detail@));
                line
            },
            Error::ParseError(description) => report("Parse Error: ", description.as_str()),
            Error::Eof => {
                let line = report("EOF", "");
                proof {
                    reveal_strlit("");
                    assert(""@ =~= Seq::<char>::empty());
                }
                line
            },
        }
    }
}

} // verus!
