use shared_list::errors::{identity_error, AppError, ArgsError};

#[test]
fn args_error_messages() {
    assert_eq!(ArgsError::BadBindAddress.message(), "Bad bind address");
    assert_eq!(
        identity_error(true).message(),
        "Failed to decrypt PKCS #12 archive, incorrect password?"
    );
    assert_eq!(identity_error(false).message(), "Failed to parse PKCS #12 archive");
}

#[test]
fn io_errors_stay_io_errors() {
    let io = std::io::Error::new(std::io::ErrorKind::Other, "disk gone");
    let app = AppError::from(ArgsError::from(io));
    assert!(matches!(app, AppError::IoError(_)));
    assert_eq!(app.message(), "IO error: disk gone");
    let app = AppError::from(ArgsError::BadBindAddress);
    assert!(matches!(app, AppError::ArgsError(ArgsError::BadBindAddress)));
    assert_eq!(app.message(), "error: Bad bind address");
    assert_eq!(AppError::Other("boom".to_string()).message(), "boom");
}
