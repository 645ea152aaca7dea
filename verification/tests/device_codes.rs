use command_catalog::device::{
    create_device_code, exchange_token, exchange_token_at, generate_code, issue_device_code,
    issue_first_free, DEVICE_CODE_TTL, MAX_CODE_ATTEMPTS,
};
use command_catalog::errors::{ApiError, DbError};
use command_catalog::models::{ApiToken, DeviceCode, ExchangeTokenRequest};
use command_catalog::store::Store;

fn token(id: u128, value: &str) -> ApiToken {
    ApiToken { id, label: "t".to_string(), token: value.to_string(), user_id: None, created_at: 0 }
}

fn store_with_t1() -> Store {
    let mut store = Store::new();
    assert!(store.insert_token(token(1, "secret-of-t1")).is_ok());
    store
}

fn request(code: &str) -> ExchangeTokenRequest {
    ExchangeTokenRequest { code: code.to_string() }
}

fn used() -> ApiError {
    ApiError::BadRequest("code already used".to_string())
}

#[test]
fn a_code_is_six_decimal_digits() {
    for _ in 0..200 {
        let code = generate_code();
        assert_eq!(code.len(), 6);
        assert!(code.chars().all(|c| c.is_ascii_digit()));
    }
}

#[test]
fn codes_vary() {
    let first = generate_code();
    let mut differs = false;
    for _ in 0..50 {
        if generate_code() != first {
            differs = true;
        }
    }
    assert!(differs);
}

#[test]
fn the_window_is_ten_minutes() {
    assert_eq!(DEVICE_CODE_TTL, 600_000_000);
    assert_eq!(MAX_CODE_ATTEMPTS, 1000);
}

#[test]
fn an_issued_code_expires_ten_minutes_later() {
    let mut store = store_with_t1();
    let t1 = token(1, "secret-of-t1");
    let issued = issue_device_code(&mut store, &t1, "123456".to_string(), 1_000).unwrap();
    assert_eq!(issued.code, "123456");
    assert_eq!(issued.expires_at, 600_001_000);
    let row = DeviceCode {
        code: "123456".to_string(),
        token_id: 1,
        expires_at: 600_001_000,
        consumed: false,
    };
    assert_eq!(store.device_codes().len(), 1);
    assert_eq!(store.device_codes()[0], row);
}

#[test]
fn the_digits_of_a_code_are_never_reissued() {
    let mut store = store_with_t1();
    let t1 = token(1, "secret-of-t1");
    assert!(issue_device_code(&mut store, &t1, "123456".to_string(), 0).is_ok());
    assert!(exchange_token_at(&mut store, &request("123456"), 1).is_ok());
    assert_eq!(
        issue_device_code(&mut store, &t1, "123456".to_string(), 2),
        Err(ApiError::Db(DbError::UniqueViolation))
    );
    assert_eq!(store.device_codes().len(), 1);
}

#[test]
fn issue_then_exchange_then_exchange_again() {
    let mut store = store_with_t1();
    let issued = create_device_code(&mut store, Some(b"Bearer secret-of-t1".as_slice())).unwrap();
    let exchanged = exchange_token(&mut store, &request(&issued.code)).unwrap();
    assert_eq!(exchanged.token, "secret-of-t1");
    assert_eq!(exchange_token(&mut store, &request(&issued.code)), Err(used()));
}

#[test]
fn a_device_code_needs_an_identity() {
    let mut store = store_with_t1();
    assert_eq!(create_device_code(&mut store, None), Err(ApiError::Unauthorized));
    assert_eq!(
        create_device_code(&mut store, Some(b"Bearer unknown".as_slice())),
        Err(ApiError::Unauthorized)
    );
    assert_eq!(
        create_device_code(&mut store, Some(b"secret-of-t1".as_slice())),
        Err(ApiError::Unauthorized)
    );
    assert!(store.device_codes().is_empty());
}

#[test]
fn a_created_code_is_fresh_and_bound_to_the_caller() {
    let mut store = store_with_t1();
    let first = create_device_code(&mut store, Some(b"Bearer secret-of-t1".as_slice())).unwrap();
    let second = create_device_code(&mut store, Some(b"Bearer secret-of-t1".as_slice())).unwrap();
    assert_ne!(first.code, second.code);
    assert_eq!(first.code.len(), 6);
    assert!(first.code.chars().all(|c| c.is_ascii_digit()));
    assert!(first.expires_at >= DEVICE_CODE_TTL);
    assert!(second.expires_at >= DEVICE_CODE_TTL);
    assert_eq!(store.device_codes().len(), 2);
    assert_eq!(store.device_codes()[0].token_id, 1);
    assert!(!store.device_codes()[0].consumed);
    assert_eq!(store.device_codes()[0].expires_at, first.expires_at);
}

#[test]
fn an_unknown_code_is_not_found() {
    let mut store = store_with_t1();
    assert_eq!(exchange_token_at(&mut store, &request("000000"), 0), Err(ApiError::NotFound));
    assert_eq!(exchange_token(&mut store, &request("000000")), Err(ApiError::NotFound));
}

#[test]
fn an_expired_code_fails_though_it_was_never_consumed() {
    let mut store = store_with_t1();
    let t1 = token(1, "secret-of-t1");
    let issued = issue_device_code(&mut store, &t1, "123456".to_string(), 0).unwrap();
    let late = issued.expires_at + 1;
    assert_eq!(
        exchange_token_at(&mut store, &request("123456"), late),
        Err(ApiError::BadRequest("code expired".to_string()))
    );
    assert!(!store.device_codes()[0].consumed);
    assert_eq!(
        exchange_token_at(&mut store, &request("123456"), i64::MAX),
        Err(ApiError::BadRequest("code expired".to_string()))
    );
}

#[test]
fn a_code_is_expired_at_the_instant_of_its_expiry() {
    let mut store = store_with_t1();
    let t1 = token(1, "secret-of-t1");
    let issued = issue_device_code(&mut store, &t1, "123456".to_string(), 0).unwrap();
    assert_eq!(
        exchange_token_at(&mut store, &request("123456"), issued.expires_at),
        Err(ApiError::BadRequest("code expired".to_string()))
    );
    assert!(!store.device_codes()[0].consumed);
}

#[test]
fn a_code_is_good_until_just_before_its_expiry() {
    let mut store = store_with_t1();
    let t1 = token(1, "secret-of-t1");
    let issued = issue_device_code(&mut store, &t1, "123456".to_string(), 0).unwrap();
    let exchanged =
        exchange_token_at(&mut store, &request("123456"), issued.expires_at - 1).unwrap();
    assert_eq!(exchanged.token, "secret-of-t1");
    assert!(store.device_codes()[0].consumed);
}

#[test]
fn a_consumed_code_is_used_even_after_its_expiry() {
    let mut store = store_with_t1();
    let t1 = token(1, "secret-of-t1");
    assert!(issue_device_code(&mut store, &t1, "123456".to_string(), 0).is_ok());
    assert!(exchange_token_at(&mut store, &request("123456"), 5).is_ok());
    assert_eq!(exchange_token_at(&mut store, &request("123456"), i64::MAX), Err(used()));
}

#[test]
fn of_many_attempts_exactly_one_succeeds() {
    let mut store = store_with_t1();
    let t1 = token(1, "secret-of-t1");
    assert!(issue_device_code(&mut store, &t1, "123456".to_string(), 0).is_ok());
    let mut successes = 0;
    let mut failures = 0;
    for attempt in 0..25 {
        match exchange_token_at(&mut store, &request("123456"), attempt) {
            Ok(exchanged) => {
                assert_eq!(exchanged.token, "secret-of-t1");
                successes += 1;
            }
            Err(e) => {
                assert_eq!(e, used());
                failures += 1;
            }
        }
    }
    assert_eq!(successes, 1);
    assert_eq!(failures, 24);
}

#[test]
fn a_failed_attempt_changes_nothing() {
    let mut store = store_with_t1();
    let t1 = token(1, "secret-of-t1");
    assert!(issue_device_code(&mut store, &t1, "123456".to_string(), 0).is_ok());
    let before = store.device_codes().clone();
    assert!(exchange_token_at(&mut store, &request("123457"), 0).is_err());
    assert!(exchange_token_at(&mut store, &request("123456"), i64::MAX).is_err());
    assert_eq!(store.device_codes(), &before);
}

#[test]
fn a_code_whose_token_is_gone_reports_the_missing_row() {
    let mut store = Store::new();
    let ghost = token(42, "never stored");
    assert!(issue_device_code(&mut store, &ghost, "123456".to_string(), 0).is_ok());
    assert_eq!(
        exchange_token_at(&mut store, &request("123456"), 0),
        Err(ApiError::Db(DbError::RowNotFound))
    );
    assert!(!store.device_codes()[0].consumed);
}

#[test]
fn one_code_does_not_consume_another() {
    let mut store = store_with_t1();
    assert!(store.insert_token(token(2, "secret-of-t2")).is_ok());
    let t1 = token(1, "secret-of-t1");
    let t2 = token(2, "secret-of-t2");
    assert!(issue_device_code(&mut store, &t1, "111111".to_string(), 0).is_ok());
    assert!(issue_device_code(&mut store, &t2, "222222".to_string(), 0).is_ok());
    assert_eq!(exchange_token_at(&mut store, &request("222222"), 1).unwrap().token, "secret-of-t2");
    assert_eq!(exchange_token_at(&mut store, &request("111111"), 1).unwrap().token, "secret-of-t1");
}

fn candidates(codes: &[&str]) -> Vec<String> {
    codes.iter().map(|c| c.to_string()).collect()
}

#[test]
fn the_first_free_candidate_is_issued() {
    let mut store = store_with_t1();
    let t1 = token(1, "secret-of-t1");
    assert!(issue_device_code(&mut store, &t1, "111111".to_string(), 0).is_ok());
    assert!(issue_device_code(&mut store, &t1, "222222".to_string(), 0).is_ok());
    let drawn = candidates(&["222222", "111111", "333333", "444444"]);
    let issued = issue_first_free(&mut store, &t1, &drawn, 10).unwrap();
    assert_eq!(issued.code, "333333");
    assert_eq!(issued.expires_at, 600_000_010);
    assert_eq!(store.device_codes().len(), 3);
    assert_eq!(store.device_codes()[2].code, "333333");
    assert_eq!(store.device_codes()[2].token_id, 1);
    let again = issue_first_free(&mut store, &t1, &drawn, 10).unwrap();
    assert_eq!(again.code, "444444");
}

#[test]
fn issuing_fails_where_every_candidate_is_taken() {
    let mut store = store_with_t1();
    let t1 = token(1, "secret-of-t1");
    assert!(issue_device_code(&mut store, &t1, "111111".to_string(), 0).is_ok());
    let drawn = candidates(&["111111", "111111"]);
    assert_eq!(issue_first_free(&mut store, &t1, &drawn, 10), Err(ApiError::Internal));
    assert_eq!(issue_first_free(&mut store, &t1, &candidates(&[]), 10), Err(ApiError::Internal));
    assert_eq!(store.device_codes().len(), 1);
}

#[test]
fn issuing_fails_where_the_expiry_does_not_fit() {
    let mut store = store_with_t1();
    let t1 = token(1, "secret-of-t1");
    let drawn = candidates(&["111111"]);
    let late = i64::MAX - DEVICE_CODE_TTL + 1;
    assert_eq!(issue_first_free(&mut store, &t1, &drawn, late), Err(ApiError::Internal));
    assert!(store.device_codes().is_empty());
    let last = issue_first_free(&mut store, &t1, &drawn, i64::MAX - DEVICE_CODE_TTL).unwrap();
    assert_eq!(last.expires_at, i64::MAX);
}

#[test]
fn issuing_on_a_store_without_codes_succeeds() {
    for _ in 0..20 {
        let mut store = store_with_t1();
        assert!(create_device_code(&mut store, Some(b"Bearer secret-of-t1".as_slice())).is_ok());
    }
}
