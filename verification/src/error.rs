//! Failures of the store.

use crate::ids::{uuid_error_message, uuid_error_text};
use crate::json::{json_error_message, json_error_text};
use vstd::prelude::*;
use vstd::string::StringExecFns;

verus! {

/// A failure of the store.
#[derive(Debug)]
pub enum DbError {
    /// The tables refused a change, or could not be reached.
    Sqlx(String),
    /// A column that should hold JSON does not.
    Json(serde_json::Error),
    /// A column that should hold an identifier does not.
    Uuid(uuid::Error),
    /// The change is not allowed in the present state.
    InvalidState(String),
    /// There is no such row.
    NotFound(String),
}

/// What a failure of the store says.
pub enum DbFailure {
    Sqlx(Seq<char>),
    Json(Seq<char>),
    Uuid(Seq<char>),
    InvalidState(Seq<char>),
    NotFound(Seq<char>),
}

impl View for DbError {
    type V = DbFailure;

    open spec fn view(&self) -> DbFailure {
        match *self {
            DbError::Sqlx(text) => DbFailure::Sqlx(text@),
            DbError::Json(err) => DbFailure::Json(json_error_text(err)),
            DbError::Uuid(err) => DbFailure::Uuid(uuid_error_text(err)),
            DbError::InvalidState(text) => DbFailure::InvalidState(text@),
            DbError::NotFound(text) => DbFailure::NotFound(text@),
        }
    }
}

impl DbFailure {
    /// The failure in words.
    pub open spec fn words(self) -> Seq<char> {
        match self {
            DbFailure::Sqlx(text) => "database error: "@ + text,
            DbFailure::Json(text) => "JSON serialisation error: "@ + text,
            DbFailure::Uuid(text) => "UUID parse error: "@ + text,
            DbFailure::InvalidState(text) => "invalid state: "@ + text,
            DbFailure::NotFound(text) => "not found: "@ + text,
        }
    }
}

impl DbError {
    /// The failure in words.
    pub fn message(&self) -> (text: String)
        ensures
            text@ == self@.words(),
    {
        match self {
            DbError::Sqlx(text) => "database error: ".to_owned().concat(text.as_str()),
            DbError::Json(err) => "JSON serialisation error: ".to_owned().concat(
                json_error_message(err).as_str(),
            ),
            DbError::Uuid(err) => "UUID parse error: ".to_owned().concat(
                uuid_error_message(err).as_str(),
            ),
            DbError::InvalidState(text) => "invalid state: ".to_owned().concat(text.as_str()),
            DbError::NotFound(text) => "not found: ".to_owned().concat(text.as_str()),
        }
    }
}

} // verus!
