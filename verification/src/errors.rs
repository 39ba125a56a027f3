//! The error taxonomy of the subsystem.
//!
//! `InvalidId` is a client-input error, never retried. `Database` covers
//! any failure talking to the document store, `LegacyApiError` any failure
//! of the external legacy service; the two stay distinct so callers can
//! tell an internal failure from an upstream one. `NotFound` is a
//! well-formed current-format id with no matching record.

use vstd::prelude::*;
use vstd::string::StringExecFns;

verus! {

/// A failure while interacting with the document store. The payload
/// describes the underlying store error.
#[derive(Debug)]
pub enum DatabaseError {
    Database(String),
}

/// An error surfaced to the HTTP layer.
#[derive(Debug)]
pub enum ApiError {
    Database(DatabaseError),
    NotFound,
    EmoteProviderError(String),
    InvalidId,
    LegacyApiError(String),
}

/// The wire shape of an error answer: a stable machine-readable tag and a
/// human-readable description.
pub struct ErrorBody<'a> {
    pub error: &'a str,
    pub description: String,
}

impl DatabaseError {
    /// A human-readable account of the store failure.
    pub fn describe(&self) -> (r: String)
        ensures
            self matches DatabaseError::Database(m) && r@ == "Error while interacting with the database: "@
                + m@,
    {
        match self {
            DatabaseError::Database(m) => String::from_str(
                "Error while interacting with the database: ",
            ).concat(m.as_str()),
        }
    }
}

impl ApiError {
    /// The wire form of this error: the tag names the variant, and the
    /// description carries the variant's message.
    pub fn as_api_error(&self) -> (r: ErrorBody<'static>)
        ensures
            match self {
                ApiError::Database(_) => r.error@ == "database_error"@,
                ApiError::NotFound => r.error@ == "not_found"@,
                ApiError::EmoteProviderError(_) => r.error@ == "emote_provider_error"@,
                ApiError::InvalidId => r.error@ == "invalid_id"@,
                ApiError::LegacyApiError(_) => r.error@ == "legacy_api_error"@,
            },
            match self {
                ApiError::Database(e) => r.description@ == "Database Error: "@
                    + "Error while interacting with the database: "@ + e->Database_0@,
                ApiError::NotFound => r.description@ == "Resource not found"@,
                ApiError::EmoteProviderError(m) => r.description@ == "Emote Provider Error: "@ + m@,
                ApiError::InvalidId => r.description@ == "Emote ID is invalid"@,
                ApiError::LegacyApiError(m) => r.description@ == "Legacy API Error: "@ + m@,
            },
    {
        match self {
            ApiError::Database(e) => ErrorBody {
                error: "database_error",
                description: String::from_str("Database Error: ").concat(e.describe().as_str()),
            },
            ApiError::NotFound => ErrorBody {
                error: "not_found",
                description: String::from_str("Resource not found"),
            },
            ApiError::EmoteProviderError(m) => ErrorBody {
                error: "emote_provider_error",
                description: String::from_str("Emote Provider Error: ").concat(m.as_str()),
            },
            ApiError::InvalidId => ErrorBody {
                error: "invalid_id",
                description: String::from_str("Emote ID is invalid"),
            },
            ApiError::LegacyApiError(m) => ErrorBody {
                error: "legacy_api_error",
                description: String::from_str("Legacy API Error: ").concat(m.as_str()),
            },
        }
    }
}

} // verus!
