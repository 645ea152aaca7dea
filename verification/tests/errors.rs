use command_catalog::errors::{bad_request, ApiError, DbError};

#[test]
fn each_error_has_its_status() {
    assert_eq!(ApiError::Unauthorized.status_code(), 401);
    assert_eq!(ApiError::NotFound.status_code(), 404);
    assert_eq!(ApiError::BadRequest("x".to_string()).status_code(), 400);
    assert_eq!(ApiError::Db(DbError::RowNotFound).status_code(), 404);
    assert_eq!(ApiError::Db(DbError::UniqueViolation).status_code(), 500);
    assert_eq!(ApiError::Db(DbError::ForeignKeyViolation).status_code(), 500);
    assert_eq!(ApiError::Db(DbError::Other("connection reset".to_string())).status_code(), 500);
    assert_eq!(ApiError::Internal.status_code(), 500);
}

#[test]
fn each_error_has_its_message() {
    assert_eq!(ApiError::Unauthorized.message(), "Unauthorized");
    assert_eq!(ApiError::NotFound.message(), "Not found");
    assert_eq!(ApiError::BadRequest("code expired".to_string()).message(), "Bad request: code expired");
    assert_eq!(ApiError::Internal.message(), "Internal server error");
}

#[test]
fn a_storage_failure_shows_nothing_of_the_storage() {
    let failure = ApiError::Db(DbError::Other("relation \"users\" does not exist".to_string()));
    assert_eq!(failure.message(), "Internal server error");
    assert_eq!(ApiError::Db(DbError::UniqueViolation).message(), "Internal server error");
    assert_eq!(ApiError::Db(DbError::ForeignKeyViolation).message(), "Internal server error");
    assert_eq!(ApiError::Db(DbError::RowNotFound).message(), "Not found");
}

#[test]
fn a_bad_request_carries_its_reason() {
    assert_eq!(bad_request("weak"), ApiError::BadRequest("weak".to_string()));
    assert_eq!(bad_request(""), ApiError::BadRequest(String::new()));
}
