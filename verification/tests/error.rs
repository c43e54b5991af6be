use sqlm::error::{after_attempt, needs_revalidation, Error, ErrorKind, PostgresError, Step, RETRIES};

fn postgres(code: Option<&str>, routine: Option<&str>, closed: bool) -> ErrorKind {
    ErrorKind::Postgres(PostgresError {
        code: code.map(|c| c.to_string()),
        routine: routine.map(|r| r.to_string()),
        closed,
        message: "db error".to_string(),
    })
}

#[test]
fn an_error_is_known_by_its_code() {
    let duplicate = Error {
        kind: postgres(Some("23505"), Some("_bt_check_unique"), false),
    };
    assert!(duplicate.is_duplicate_key());
    assert!(!duplicate.is_foreign_key());
    assert!(!duplicate.is_row_not_found());
    let foreign = Error {
        kind: postgres(Some("23503"), None, false),
    };
    assert!(foreign.is_foreign_key());
    assert!(!foreign.is_duplicate_key());
    let other = Error {
        kind: postgres(Some("42601"), None, false),
    };
    assert!(!other.is_foreign_key());
    assert!(!other.is_duplicate_key());
    let closed = Error {
        kind: postgres(None, None, true),
    };
    assert!(!closed.is_foreign_key());
    assert!(!closed.is_duplicate_key());
    for kind in [
        ErrorKind::MissingDatabaseUrlEnv,
        ErrorKind::RowNotFound,
        ErrorKind::Build,
        ErrorKind::Pool,
    ] {
        let e = Error { kind };
        assert!(!e.is_duplicate_key());
        assert!(!e.is_foreign_key());
        assert_eq!(e.is_row_not_found(), e.kind == ErrorKind::RowNotFound);
    }
}

#[test]
fn every_error_has_its_message() {
    let message = |kind| Error { kind }.message();
    assert_eq!(message(ErrorKind::MissingDatabaseUrlEnv), "env DATABASE_URL not set");
    assert_eq!(
        message(ErrorKind::RowNotFound),
        "No rows returned, but at least one expected"
    );
    assert_eq!(message(postgres(None, None, false)), "db error");
    assert_eq!(
        message(ErrorKind::Build),
        "failed to build postgres connection pool"
    );
    assert_eq!(
        message(ErrorKind::Pool),
        "failed to acquire postgres connection from pool"
    );
}

#[test]
fn a_query_is_tried_again_on_a_closed_connection() {
    assert_eq!(RETRIES, 5);
    let closed = postgres(None, None, true);
    assert_eq!(after_attempt(1, None), Step::Finish);
    assert_eq!(after_attempt(6, None), Step::Finish);
    assert_eq!(after_attempt(1, Some(&closed)), Step::Retry(2));
    assert_eq!(after_attempt(5, Some(&closed)), Step::Retry(6));
    assert_eq!(after_attempt(6, Some(&closed)), Step::Fail);
    assert_eq!(after_attempt(u32::MAX, Some(&closed)), Step::Fail);
    let open = postgres(Some("23505"), None, false);
    assert_eq!(after_attempt(1, Some(&open)), Step::Fail);
    assert_eq!(after_attempt(1, Some(&ErrorKind::Pool)), Step::Fail);
    assert_eq!(after_attempt(1, Some(&ErrorKind::RowNotFound)), Step::Fail);
    let mut attempt = 1;
    let mut attempts = 1;
    while let Step::Retry(next) = after_attempt(attempt, Some(&closed)) {
        attempt = next;
        attempts += 1;
    }
    assert_eq!(attempts, 6);
}

#[test]
fn a_stale_statement_is_prepared_again() {
    let stale = PostgresError {
        code: Some("0A000".to_string()),
        routine: Some("RevalidateCachedQuery".to_string()),
        closed: false,
        message: "cached plan must not change result type".to_string(),
    };
    assert!(needs_revalidation(&stale));
    let other = PostgresError {
        code: Some("0A000".to_string()),
        routine: Some("revalidatecachedquery".to_string()),
        closed: false,
        message: String::new(),
    };
    assert!(!needs_revalidation(&other));
    let none = PostgresError {
        code: None,
        routine: None,
        closed: true,
        message: String::new(),
    };
    assert!(!needs_revalidation(&none));
}
