//! The diagnostics of the command-line tool itself, apart from those of the compiler.
use crate::diagnostic::{Diagnostic, Severity};
use vstd::prelude::*;
use vstd::string::*;

verus! {

fn join(a: &str, b: &str) -> (r: String)
    ensures
        r@ == a@ + b@,
{
    let mut out = String::from_str(a);
    out.append(b);
    out
}

/// A source file could not be read; `path` is the path as it is displayed.
pub fn failed_to_read_file(path: &str) -> (d: Diagnostic)
    ensures
        d@.severity == Severity::Error,
        d@.message == "failed to read file: "@ + path@,
        d@.help == Some("Try checking the file path and permissions."@),
        d@.labels is None,
        d@.scope is None,
        d@.number is None,
{
    Diagnostic::error(join("failed to read file: ", path))
        .with_help(String::from_str("Try checking the file path and permissions."))
}

/// No connection could be made to the server at `server`; `details` is the text of
/// the connection error.
pub fn failed_to_connect_backend(server: &str, details: &str) -> (d: Diagnostic)
    ensures
        d@.severity == Severity::Error,
        d@.message == "failed to connect to Aegis server: "@ + server@,
        d@.help == Some("Ensure the server is running and the endpoint is correct. Details: "@ + details@),
        d@.labels is None,
        d@.scope is None,
        d@.number is None,
{
    Diagnostic::error(join("failed to connect to Aegis server: ", server))
        .with_help(join("Ensure the server is running and the endpoint is correct. Details: ", details))
}

/// The server refused the schema; `details` is the text of its answer.
pub fn failed_to_publish_schema(details: &str) -> (d: Diagnostic)
    ensures
        d@.severity == Severity::Error,
        d@.message == "failed to publish schema to Aegis server"@,
        d@.help == Some("The server rejected the schema. Details: "@ + details@),
        d@.labels is None,
        d@.scope is None,
        d@.number is None,
{
    Diagnostic::error(String::from_str("failed to publish schema to Aegis server"))
        .with_help(join("The server rejected the schema. Details: ", details))
}

} // verus!
