use vstd::prelude::*;

verus! {

/// The typed errors that every public entry point of the engine reports.
///
/// `SqlError` carries the text of a lower-level parser failure; the other
/// variants carry a human-readable description of a domain-rule violation
/// (`General`), a translation-layer structural error (`Internal`), an
/// unsupported statement kind (`NotImplemented`), or an unrecognized
/// meta command (`UnknownCommand`).
#[derive(Debug, Clone, PartialEq)]
pub enum SQLRiteError {
    NotImplemented(String),
    General(String),
    Internal(String),
    UnknownCommand(String),
    SqlError(String),
}

/// The text that `display_text` returns for an error value.
pub open spec fn spec_display_text(e: SQLRiteError) -> Seq<char> {
    match e {
        SQLRiteError::NotImplemented(m) => "Not Implemented error: "@ + m@,
        SQLRiteError::General(m) => "General error: "@ + m@,
        SQLRiteError::Internal(m) => "Internal error: "@ + m@,
        SQLRiteError::UnknownCommand(m) => "Unknown command error: "@ + m@,
        SQLRiteError::SqlError(m) => "SQL error: "@ + m@,
    }
}

impl SQLRiteError {
    /// Renders the error as the single line shown to the user: a fixed
    /// prefix naming the error kind, followed by the carried message.
    pub fn display_text(&self) -> (r: String)
        ensures
            r@ == spec_display_text(*self),
    {
        match self {
            SQLRiteError::NotImplemented(m) => {
                String::from_str("Not Implemented error: ").concat(m.as_str())
            },
            SQLRiteError::General(m) => String::from_str("General error: ").concat(m.as_str()),
            SQLRiteError::Internal(m) => String::from_str("Internal error: ").concat(m.as_str()),
            SQLRiteError::UnknownCommand(m) => {
                String::from_str("Unknown command error: ").concat(m.as_str())
            },
            SQLRiteError::SqlError(m) => String::from_str("SQL error: ").concat(m.as_str()),
        }
    }
}

/// Builds a `General` error from a message.
pub fn sqlrite_error(message: &str) -> (r: SQLRiteError)
    ensures
        r matches SQLRiteError::General(m) && m@ == message@,
{
    SQLRiteError::General(message.to_owned())
}

} // verus!
