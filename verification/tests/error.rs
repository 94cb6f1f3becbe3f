use wallet::error::AppError;

#[test]
fn client_errors_keep_their_text_and_server_errors_are_censored() {
    assert_eq!(AppError::InvalidAmount.status(), 400);
    assert_eq!(AppError::InvalidAmount.public_message(), "invalid amount");
    assert_eq!(AppError::CsrfMismatch.status(), 403);
    assert_eq!(AppError::TooManyAttempts.status(), 429);
    assert_eq!(AppError::AssetDoesNotExist.status(), 404);
    assert_eq!(AppError::QuoteUnavailable.status(), 502);
    assert_eq!(AppError::QuoteUnavailable.public_message(), "internal server error");

    let db = AppError::Database("relation \"users\" does not exist".into());
    assert_eq!(db.status(), 500);
    assert_eq!(db.public_message(), "internal server error");
    assert!(db.message().contains("users"));

    let jwt = AppError::Jwt("expired".into());
    assert_eq!(jwt.status(), 401);
    assert_eq!(jwt.public_message(), "token error: expired");
    assert_eq!(
        AppError::Payload("eof".into()).message(),
        "upstream payload does not match the expected shape: eof"
    );
}
