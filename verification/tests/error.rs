use modtoggler::error::{AppError, IoErrorKind};
use std::io;

#[test]
fn test_permission_denied_mapping() {
    let io_err = io::Error::new(io::ErrorKind::PermissionDenied, "access denied");
    let app_err = AppError::from(io_err);
    assert!(matches!(app_err, AppError::PermissionDenied(_)));
}

#[test]
fn test_not_found_mapping() {
    let io_err = io::Error::new(io::ErrorKind::NotFound, "no such file");
    let app_err = AppError::from(io_err);
    match app_err {
        AppError::IoError(msg) => assert!(msg.contains("File not found")),
        other => panic!("Expected IoError, got {:?}", other),
    }
}

#[test]
fn test_generic_io_mapping() {
    let io_err = io::Error::new(io::ErrorKind::TimedOut, "timed out");
    let app_err = AppError::from(io_err);
    assert!(matches!(app_err, AppError::IoError(_)));
}

#[test]
fn io_error_messages_keep_the_error_text() {
    match AppError::from(io::Error::new(io::ErrorKind::PermissionDenied, "access denied")) {
        AppError::PermissionDenied(m) => assert_eq!(m, "access denied"),
        other => panic!("unexpected {:?}", other),
    }
    match AppError::from(io::Error::new(io::ErrorKind::NotFound, "no such file")) {
        AppError::IoError(m) => assert_eq!(m, "File not found: no such file"),
        other => panic!("unexpected {:?}", other),
    }
    match AppError::from(io::Error::new(io::ErrorKind::TimedOut, "timed out")) {
        AppError::IoError(m) => assert_eq!(m, "timed out"),
        other => panic!("unexpected {:?}", other),
    }
}

#[test]
fn io_parts_are_classified() {
    match AppError::from_io_parts(IoErrorKind::NotFound, "x".to_string()) {
        AppError::IoError(m) => assert_eq!(m, "File not found: x"),
        other => panic!("unexpected {:?}", other),
    }
    assert!(matches!(
        AppError::from_io_parts(IoErrorKind::PermissionDenied, "y".to_string()),
        AppError::PermissionDenied(_)
    ));
}

#[test]
fn json_errors_become_serialization_errors() {
    let e = serde_json::from_str::<i32>("not json").unwrap_err();
    let text = e.to_string();
    match AppError::from(e) {
        AppError::SerializationError(m) => assert_eq!(m, text),
        other => panic!("unexpected {:?}", other),
    }
}
