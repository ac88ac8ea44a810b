use vstd::prelude::*;
use vstd::string::StringExecFns;

verus! {

/// The failure type of the store, `sqlx::Error`, carried as it is.
#[verifier::external_type_specification]
#[verifier::external_body]
pub struct ExStoreFailure(sqlx::Error);

/// The text with which a failure of the store describes itself.
pub uninterp spec fn store_text(failure: sqlx::Error) -> Seq<char>;

/// The text with which a `sqlx::Error` describes itself: `to_string`, which
/// goes through its `Display`. The text is taken to depend on the failure
/// alone; nothing else is claimed of it.
#[verifier::external_body]
fn store_failure_text(failure: &sqlx::Error) -> (text: String)
    ensures
        text@ == store_text(*failure),
{
    failure.to_string()
}

/// What can go wrong while a request is served.
#[derive(Clone, Debug, PartialEq, Eq)]
pub enum ApiError {
    /// Any failure of the store, with the store's own description of it.
    DatabaseError(String),
    /// A configuration problem.
    ConfigError(String),
}

/// What a failed request is answered with.
#[derive(Clone, Debug, PartialEq, Eq)]
pub struct ErrorResponse {
    pub status: u16,
    pub error: String,
}

/// Status of every failed request.
pub const INTERNAL_SERVER_ERROR: u16 = 500;

impl ApiError {
    /// The one way from a failure of the store to an error of the service:
    /// every such failure is a `DatabaseError`, with the store's own text.
    pub fn from_store(failure: &sqlx::Error) -> (error: ApiError)
        ensures
            error is DatabaseError,
            error.text() == "Erreur de base de données: "@ + store_text(*failure),
    {
        ApiError::from_store_text(store_failure_text(failure))
    }

    /// The error that a failure of the store becomes, given the text with
    /// which the store describes the failure.
    pub fn from_store_text(details: String) -> (error: ApiError)
        ensures
            error == ApiError::DatabaseError(details),
            error.text() == "Erreur de base de données: "@ + details@,
    {
        ApiError::DatabaseError(details)
    }

    /// The human-readable text of the error.
    pub open spec fn text(self) -> Seq<char> {
        match self {
            ApiError::DatabaseError(details) => "Erreur de base de données: "@ + details@,
            ApiError::ConfigError(details) => "Erreur de configuration: "@ + details@,
        }
    }

    pub fn message(&self) -> (message: String)
        ensures
            message@ == self.text(),
    {
        match self {
            ApiError::DatabaseError(details) => {
                "Erreur de base de données: ".to_owned().concat(details.as_str())
            },
            ApiError::ConfigError(details) => {
                "Erreur de configuration: ".to_owned().concat(details.as_str())
            },
        }
    }

    /// The one mapping from an error to its answer, shared by all variants.
    pub fn error_response(&self) -> (response: ErrorResponse)
        ensures
            response.status == 500,
            response.error@ == self.text(),
    {
        ErrorResponse { status: INTERNAL_SERVER_ERROR, error: self.message() }
    }
}

} // verus!
