//! Per-plugin error taxonomy.
//!
//! Every kind is fatal to the one plugin it concerns and recoverable for the
//! run as a whole: the host reports it and continues with the next plugin.

use vstd::prelude::*;

verus! {

/// A malformed header line or an unknown type token.
#[derive(Debug, PartialEq, Eq)]
pub enum ParseError {
    /// The line does not match the header grammar.
    Malformed,
    /// The line is shaped like a header but a type position holds this
    /// token, which names no scalar type.
    UnknownType(String),
}

/// Everything that can go wrong between reading a plugin source file and
/// rendering its result.
#[derive(Debug, PartialEq, Eq)]
pub enum PluginError {
    /// The header line could not be parsed.
    Parse(ParseError),
    /// The external compiler did not succeed; carries its raw exit code
    /// (`None` when the subprocess was terminated without one).
    Compile { exit_code: Option<i32> },
    /// The built library could not be loaded, or the entry symbol could not
    /// be resolved; carries the loader's message.
    Load(String),
    /// The signature declares more arguments than the invoker implements;
    /// carries the declared arity. A capability limit, never silently
    /// truncated.
    UnsupportedArity(usize),
    /// The foreign call aborted abnormally at runtime; carries the captured
    /// message, when one was available.
    Invocation(String),
}

/// Decide whether an external-compiler run succeeded. Success is solely
/// exit code zero; any other outcome is a `Compile` error carrying the raw
/// code for diagnostics.
pub fn check_compile_status(exit_code: Option<i32>) -> (r: Result<(), PluginError>)
    ensures
        r is Ok <==> exit_code == Some(0i32),
        r is Err ==> r == Result::<(), PluginError>::Err(PluginError::Compile { exit_code }),
{
    match exit_code {
        Some(0) => Ok(()),
        _ => Err(PluginError::Compile { exit_code }),
    }
}

} // verus!
