//! Errors of the memory engine.
use vstd::prelude::*;

verus! {

#[verifier::external_type_specification]
#[verifier::external_body]
pub struct ExIoError(std::io::Error);

#[verifier::external_type_specification]
#[verifier::external_body]
pub struct ExJsonError(serde_json::Error);

/// Why a memory-engine operation failed.
#[derive(Debug)]
pub enum MemoryEngineError {
    Validation(String),
    Storage(String),
    IncompatibleSchema { expected: String, actual: String },
    TaskNotFound(String),
    Io(std::io::Error),
    Json(serde_json::Error),
}

/// `std::io::Error`'s `Display` text. For an operating-system error it is
/// the system's own description, which depends on the machine and its
/// locale, so nothing is stated of it.
#[verifier::external_body]
fn io_error_text(e: &std::io::Error) -> String {
    e.to_string()
}

/// What `serde_json::Error`'s `Display` writes: its message, with the line
/// and column where it has them. It depends on the error alone.
pub uninterp spec fn json_error_display(e: serde_json::Error) -> Seq<char>;

/// `serde_json::Error`'s `Display` text.
#[verifier::external_body]
fn json_error_text(e: &serde_json::Error) -> (r: String)
    ensures
        r@ == json_error_display(*e),
{
    e.to_string()
}

/// The text of the error message for `label` and `detail`: `label: detail`.
pub open spec fn labelled(label: Seq<char>, detail: Seq<char>) -> Seq<char> {
    label + ": "@ + detail
}

fn labelled_text(label: &str, detail: &str) -> (r: String)
    ensures
        r@ == labelled(label@, detail@),
{
    let mut s = String::new();
    s.append(label);
    s.append(": ");
    s.append(detail);
    s
}

impl MemoryEngineError {
    /// The human-readable message of the error.
    pub fn message(&self) -> (r: String)
        ensures
            match self {
                MemoryEngineError::Validation(m) => r@ == labelled("validation error"@, m@),
                MemoryEngineError::Storage(m) => r@ == labelled("storage error"@, m@),
                MemoryEngineError::IncompatibleSchema { expected, actual } => r@
                    == "incompatible schema version: expected "@ + expected@ + ", got "@ + actual@,
                MemoryEngineError::TaskNotFound(m) => r@ == labelled("task not found"@, m@),
                MemoryEngineError::Io(_) => exists|t: Seq<char>| r@ == labelled("io error"@, t),
                MemoryEngineError::Json(e) => r@ == labelled("json error"@, json_error_display(*e)),
            },
    {
        match self {
            MemoryEngineError::Validation(m) => labelled_text("validation error", m.as_str()),
            MemoryEngineError::Storage(m) => labelled_text("storage error", m.as_str()),
            MemoryEngineError::IncompatibleSchema { expected, actual } => {
                let mut s = String::new();
                s.append("incompatible schema version: expected ");
                s.append(expected.as_str());
                s.append(", got ");
                s.append(actual.as_str());
                s
            },
            MemoryEngineError::TaskNotFound(m) => labelled_text("task not found", m.as_str()),
            MemoryEngineError::Io(e) => {
                let t = io_error_text(e);
                labelled_text("io error", t.as_str())
            },
            MemoryEngineError::Json(e) => {
                let t = json_error_text(e);
                labelled_text("json error", t.as_str())
            },
        }
    }
}

/// A validation error carrying `message`.
pub fn validation(message: &str) -> (r: MemoryEngineError)
    ensures
        r matches MemoryEngineError::Validation(m) && m@ == message@,
{
    MemoryEngineError::Validation(message.to_owned())
}

} // verus!
