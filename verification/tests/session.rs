use wallet::error::AppError;
use wallet::session::{
    authorize_admin, csrf_token_for, hash_token, random_token, verify_csrf, Credential,
    RefreshToken, SessionRole, UnauthenticatedUser, User,
};

#[test]
fn ensure_generates_and_then_reuses_the_token() {
    let (token, fresh) = csrf_token_for(None).expect("randomness");
    assert!(fresh);
    assert!(!token.is_empty());
    let (again, fresh_again) = csrf_token_for(Some(&token)).expect("kept");
    assert!(!fresh_again);
    assert_eq!(token, again);
}

#[test]
fn verify_accepts_matching_token_and_rejects_the_rest() {
    let (token, _) = csrf_token_for(None).expect("randomness");
    assert!(verify_csrf(Some(&token), &token).is_ok());
    assert_eq!(verify_csrf(Some(&token), "forged-token"), Err(AppError::CsrfMismatch));
    assert_eq!(verify_csrf(None, &token), Err(AppError::CsrfMismatch));
    assert_eq!(verify_csrf(Some(&token), ""), Err(AppError::CsrfMismatch));
}

#[test]
fn tokens_are_unpredictable() {
    let (a, _) = csrf_token_for(None).expect("randomness");
    let (b, _) = csrf_token_for(None).expect("randomness");
    assert_ne!(a, b);
    let t = random_token().expect("randomness");
    assert_eq!(t.len(), 43);
    assert!(t.chars().all(|c| c.is_ascii_alphanumeric() || c == '-' || c == '_'));
}

#[test]
fn refresh_tokens_are_stored_by_their_sha256() {
    let token = RefreshToken::generate().expect("randomness");
    let hash = token.hash();
    assert_eq!(hash.len(), 32);
    assert_eq!(hash, hash_token(token.as_str()));
    assert_ne!(hash, RefreshToken::generate().expect("randomness").hash());
    // SHA-256("abc") starts with ba 78 16 bf.
    assert_eq!(&hash_token("abc")[..4], &[0xba, 0x78, 0x16, 0xbf]);
    assert_eq!(RefreshToken::from_text("abc".into()).hash(), hash_token("abc"));
}

#[test]
fn the_admin_check_takes_the_session_first_then_the_secret() {
    let secret = "s3cr3t";
    assert_eq!(authorize_admin(SessionRole::Admin, Credential::Missing, secret), Ok(()));
    assert_eq!(
        authorize_admin(SessionRole::User, Credential::Text(secret), secret),
        Err(AppError::InvalidCredentials)
    );
    assert_eq!(
        authorize_admin(SessionRole::NoSession, Credential::Missing, secret),
        Err(AppError::MissingAuthorization)
    );
    assert_eq!(
        authorize_admin(SessionRole::NoSession, Credential::Unreadable, secret),
        Err(AppError::InvalidCredentials)
    );
    assert_eq!(
        authorize_admin(SessionRole::NoSession, Credential::Text("nao-e-o-segredo"), secret),
        Err(AppError::InvalidCredentials)
    );
    assert_eq!(authorize_admin(SessionRole::NoSession, Credential::Text(secret), secret), Ok(()));
}

#[test]
fn users_carry_their_identity_and_role() {
    let user = User::new(7, "breno".into(), "admin".into());
    assert_eq!(user.id(), 7);
    assert_eq!(user.username(), "breno");
    assert!(user.is_admin());
    assert!(!User::new(8, "ana".into(), "user".into()).is_admin());
    let pending = UnauthenticatedUser::new("breno".into(), "senha".into());
    assert_eq!((pending.username(), pending.password()), ("breno", "senha"));
}

use wallet::money::Money;
use wallet::session::{
    authenticate_record, login_decision, password_hash_for, password_hash_with_salt, refresh_plan, registration_outcome, rotation_plan,
    session_role, user_from_access_token,
    InsertFailure, PasswordVerdict,
};
use wallet::wallet::UserRecord;

fn row(hash: &str) -> UserRecord {
    UserRecord {
        id: 3,
        username: "breno".into(),
        password_hash: hash.into(),
        balance: Money::new(0, 0).unwrap(),
        role: "user".into(),
    }
}

#[test]
fn logins_distinguish_unknown_users_from_wrong_passwords() {
    assert_eq!(
        login_decision(None, PasswordVerdict::Match).map(|r| r.err()),
        Some(Some(AppError::UserDoesNotExist))
    );
    assert_eq!(
        login_decision(Some(row("h")), PasswordVerdict::Mismatch).map(|r| r.err()),
        Some(Some(AppError::InvalidCredentials))
    );
    let user = login_decision(Some(row("h")), PasswordVerdict::Match).unwrap().unwrap();
    assert_eq!((user.id(), user.username(), user.role()), (3, "breno", "user"));
    assert!(login_decision(Some(row("h")), PasswordVerdict::Unparsable).is_none());
}

#[test]
fn a_generated_hash_verifies_its_password_only() {
    let hash = password_hash_for("senha-de-teste-123").expect("hash");
    assert!(hash.starts_with("$argon2"));
    let ok = authenticate_record(Some(row(&hash)), "senha-de-teste-123").unwrap().unwrap();
    assert_eq!(ok.username(), "breno");
    assert_eq!(
        authenticate_record(Some(row(&hash)), "outra").unwrap().err(),
        Some(AppError::InvalidCredentials)
    );
    assert!(authenticate_record(Some(row("not a phc string")), "x").is_none());
    assert_eq!(
        authenticate_record(None, "x").unwrap().err(),
        Some(AppError::UserDoesNotExist)
    );
}

#[test]
fn registration_maps_the_unique_violation() {
    assert_eq!(
        registration_outcome(Err(InsertFailure::UniqueViolation)).err(),
        Some(AppError::UsernameTaken)
    );
    assert_eq!(
        registration_outcome(Err(InsertFailure::Other("io".into()))).err(),
        Some(AppError::Database("io".into()))
    );
    let user = registration_outcome(Ok(row("h"))).unwrap();
    assert_eq!(user.id(), 3);
}

#[test]
fn the_session_is_rotated_only_without_a_valid_access_token() {
    assert_eq!(rotation_plan(true, Some("tok")), None);
    assert_eq!(rotation_plan(false, None), None);
    assert_eq!(rotation_plan(false, Some("tok")), Some(hash_token("tok")));

    let secret = "segredo-de-teste-com-folga";
    let user = User::new(7, "ana".into(), "user".into());
    let access = user.auth_token(secret, 10).expect("signed");
    assert_eq!(refresh_plan(Some(&access), secret, Some("tok")), None);
    assert_eq!(refresh_plan(Some("not.a.token"), secret, Some("tok")), Some(hash_token("tok")));
    assert_eq!(refresh_plan(None, secret, Some("tok")), Some(hash_token("tok")));
    assert_eq!(refresh_plan(None, secret, None), None);
}

#[test]
fn an_access_token_names_its_user_and_only_its_secret_reads_it() {
    let secret = "segredo-de-teste-com-folga";
    let user = User::new(7, "joão".into(), "admin".into());
    let token = user.auth_token(secret, 10).expect("signed");
    assert_eq!(token.matches('.').count(), 2);
    let back = User::from_auth_token(&token, secret).expect("valid");
    assert_eq!((back.id(), back.username(), back.role()), (7, "joão", "admin"));
    assert_eq!(session_role(Some(&back)), SessionRole::Admin);
    assert_eq!(session_role(None), SessionRole::NoSession);

    assert!(matches!(User::from_auth_token(&token, "outro-segredo-qualquer"), Err(AppError::Jwt(_))));
    let mut tampered = token.clone();
    tampered.push('x');
    assert!(matches!(User::from_auth_token(&tampered, secret), Err(AppError::Jwt(_))));
    assert!(matches!(user.auth_token("curto", 10), Err(AppError::Jwt(_))));
    assert!(matches!(User::from_auth_token(&token, "curto"), Err(AppError::Jwt(_))));
    assert!(matches!(
        user_from_access_token(None, secret),
        Err(AppError::MissingAuthorization)
    ));
    assert_eq!(user_from_access_token(Some(&token), secret).expect("valid").id(), 7);
}

#[test]
fn a_hash_with_a_given_salt_is_repeatable_and_verifies() {
    let salt = [7u8; 16];
    let a = password_hash_with_salt("senha-de-teste-123", &salt).expect("hash");
    let b = password_hash_with_salt("senha-de-teste-123", &salt).expect("hash");
    assert_eq!(a, b);
    assert!(a.starts_with("$argon2id$"));
    let ok = authenticate_record(Some(row(&a)), "senha-de-teste-123").unwrap().unwrap();
    assert_eq!(ok.username(), "breno");
    let other = password_hash_with_salt("senha-de-teste-123", &[8u8; 16]).expect("hash");
    assert_ne!(a, other);
}
