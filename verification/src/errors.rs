//! The failures that the catalog reports, and how each is shown to a caller.
use vstd::prelude::*;
use vstd::string::*;

verus! {

/// A failure of the storage layer.
#[derive(Debug, Clone, PartialEq, Eq)]
pub enum DbError {
    /// A query that must find a row found none.
    RowNotFound,
    /// A row would have repeated a value that its table keeps unique.
    UniqueViolation,
    /// A row would have referred to a row that is not there.
    ForeignKeyViolation,
    /// Any other failure, with the text that the storage layer gave.
    Other(String),
}

/// What a `DbError` is in contracts.
pub enum DbErrorView {
    RowNotFound,
    UniqueViolation,
    ForeignKeyViolation,
    Other(Seq<char>),
}

impl View for DbError {
    type V = DbErrorView;

    open spec fn view(&self) -> DbErrorView {
        match self {
            DbError::RowNotFound => DbErrorView::RowNotFound,
            DbError::UniqueViolation => DbErrorView::UniqueViolation,
            DbError::ForeignKeyViolation => DbErrorView::ForeignKeyViolation,
            DbError::Other(s) => DbErrorView::Other(s@),
        }
    }
}

/// A failure of a request.
#[derive(Debug, Clone, PartialEq, Eq)]
pub enum ApiError {
    /// No identity where one is required, a credential that does not parse,
    /// or a failed login.
    Unauthorized,
    /// No such resource, or one that the caller does not own.
    NotFound,
    /// A request that fails validation, with the reason.
    BadRequest(String),
    /// A failure of the storage layer.
    Db(DbError),
    Internal,
}

/// What an `ApiError` is in contracts.
pub enum ApiErrorView {
    Unauthorized,
    NotFound,
    BadRequest(Seq<char>),
    Db(DbErrorView),
    Internal,
}

impl View for ApiError {
    type V = ApiErrorView;

    open spec fn view(&self) -> ApiErrorView {
        match self {
            ApiError::Unauthorized => ApiErrorView::Unauthorized,
            ApiError::NotFound => ApiErrorView::NotFound,
            ApiError::BadRequest(s) => ApiErrorView::BadRequest(s@),
            ApiError::Db(e) => ApiErrorView::Db(e@),
            ApiError::Internal => ApiErrorView::Internal,
        }
    }
}

/// The HTTP status that stands for an error.
pub open spec fn status_of(e: ApiErrorView) -> u16 {
    match e {
        ApiErrorView::Unauthorized => 401,
        ApiErrorView::NotFound => 404,
        ApiErrorView::BadRequest(_) => 400,
        ApiErrorView::Db(DbErrorView::RowNotFound) => 404,
        ApiErrorView::Db(_) => 500,
        ApiErrorView::Internal => 500,
    }
}

/// The text that a caller is shown for an error. A storage failure shows
/// nothing of the storage layer: it reads as its status does.
pub open spec fn message_of(e: ApiErrorView) -> Seq<char> {
    match e {
        ApiErrorView::Unauthorized => "Unauthorized"@,
        ApiErrorView::NotFound => "Not found"@,
        ApiErrorView::BadRequest(reason) => "Bad request: "@ + reason,
        ApiErrorView::Db(DbErrorView::RowNotFound) => "Not found"@,
        ApiErrorView::Db(_) => "Internal server error"@,
        ApiErrorView::Internal => "Internal server error"@,
    }
}

impl ApiError {
    pub fn status_code(&self) -> (code: u16)
        ensures
            code == status_of(self@),
    {
        match self {
            ApiError::Unauthorized => 401,
            ApiError::NotFound => 404,
            ApiError::BadRequest(_) => 400,
            ApiError::Db(DbError::RowNotFound) => 404,
            ApiError::Db(_) => 500,
            ApiError::Internal => 500,
        }
    }

    pub fn message(&self) -> (text: String)
        ensures
            text@ == message_of(self@),
    {
        match self {
            ApiError::Unauthorized => "Unauthorized".to_owned(),
            ApiError::NotFound => "Not found".to_owned(),
            ApiError::BadRequest(reason) => {
                let mut text = "Bad request: ".to_owned();
                text.append(reason.as_str());
                text
            },
            ApiError::Db(DbError::RowNotFound) => "Not found".to_owned(),
            ApiError::Db(_) => "Internal server error".to_owned(),
            ApiError::Internal => "Internal server error".to_owned(),
        }
    }
}

/// The view of what a request came to: of the answer, or of the failure.
pub open spec fn outcome<T: View>(r: Result<T, ApiError>) -> Result<T::V, ApiErrorView> {
    match r {
        Ok(answer) => Ok(answer@),
        Err(e) => Err(e@),
    }
}

/// The view of what a statement came to: done, or the storage failure.
pub open spec fn stored(r: Result<(), DbError>) -> Result<(), DbErrorView> {
    match r {
        Ok(_) => Ok(()),
        Err(e) => Err(e@),
    }
}

/// A validation failure with the given reason.
pub fn bad_request(reason: &str) -> (e: ApiError)
    ensures
        e@ == ApiErrorView::BadRequest(reason@),
{
    ApiError::BadRequest(reason.to_owned())
}

} // verus!
