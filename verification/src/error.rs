//! The errors of the application, one enum for all of them.
use vstd::prelude::*;

verus! {

/// Every error the application reports. The variants that come from a
/// database, a template, a token library, an HTTP client or a payload decoder
/// carry that component's message.
#[derive(Debug, PartialEq, Eq)]
pub enum AppError {
    MissingAuthorization,
    InvalidCredentials,
    AssetDoesNotExist,
    UserDoesNotExist,
    UsernameTaken,
    InvalidRegistration,
    InvalidAmount,
    TradeTooSmall,
    TooManyAttempts,
    CsrfMismatch,
    InvalidAssetName,
    NegativeUnitValue,
    InsufficientBalance,
    InsufficientHoldings,
    QuoteUnavailable,
    QuoteSyncTooSoon,
    Database(String),
    Template(String),
    Jwt(String),
    Http(String),
    Payload(String),
}

/// The HTTP status each error answers with: client mistakes are 4xx, a
/// source that failed or answered nonsense is 502, and what is our own
/// fault is 500.
pub open spec fn status_of(e: AppError) -> u16 {
    match e {
        AppError::MissingAuthorization => 400,
        AppError::InvalidCredentials => 401,
        AppError::AssetDoesNotExist => 404,
        AppError::UserDoesNotExist => 404,
        AppError::UsernameTaken => 400,
        AppError::InvalidRegistration => 400,
        AppError::InvalidAmount => 400,
        AppError::TradeTooSmall => 400,
        AppError::TooManyAttempts => 429,
        AppError::CsrfMismatch => 403,
        AppError::InvalidAssetName => 400,
        AppError::NegativeUnitValue => 400,
        AppError::InsufficientBalance => 400,
        AppError::InsufficientHoldings => 400,
        AppError::QuoteUnavailable => 502,
        AppError::QuoteSyncTooSoon => 429,
        AppError::Database(_) => 500,
        AppError::Template(_) => 500,
        AppError::Jwt(_) => 401,
        AppError::Http(_) => 502,
        AppError::Payload(_) => 502,
    }
}

/// The text an error displays.
pub open spec fn message_of(e: AppError) -> Seq<char> {
    match e {
        AppError::MissingAuthorization => "missing authorization header"@,
        AppError::InvalidCredentials => "invalid credentials"@,
        AppError::AssetDoesNotExist => "asset does not exist"@,
        AppError::UserDoesNotExist => "user does not exist"@,
        AppError::UsernameTaken => "username already taken"@,
        AppError::InvalidRegistration => "username or password does not meet the registration requirements"@,
        AppError::InvalidAmount => "invalid amount"@,
        AppError::TradeTooSmall => "trade total is below the supported monetary precision"@,
        AppError::TooManyAttempts => "too many failed attempts, try again later"@,
        AppError::CsrfMismatch => "invalid csrf token"@,
        AppError::InvalidAssetName => "asset name must not be empty"@,
        AppError::NegativeUnitValue => "unit value must not be negative"@,
        AppError::InsufficientBalance => "insufficient balance"@,
        AppError::InsufficientHoldings => "insufficient holdings"@,
        AppError::QuoteUnavailable => "market quote unavailable"@,
        AppError::QuoteSyncTooSoon => "quotes were refreshed recently"@,
        AppError::Database(m) => m@,
        AppError::Template(m) => m@,
        AppError::Jwt(m) => "token error: "@ + m@,
        AppError::Http(m) => m@,
        AppError::Payload(m) => "upstream payload does not match the expected shape: "@ + m@,
    }
}

/// What the client is told: the error's text, except for a server error
/// (5xx), whose detail stays in the server's log.
pub open spec fn public_message_of(e: AppError) -> Seq<char> {
    if status_of(e) >= 500 {
        "internal server error"@
    } else {
        message_of(e)
    }
}

impl AppError {
    /// The HTTP status of the error.
    pub fn status(&self) -> (r: u16)
        ensures
            r == status_of(*self),
    {
        match self {
            AppError::MissingAuthorization => 400,
            AppError::InvalidCredentials => 401,
            AppError::AssetDoesNotExist => 404,
            AppError::UserDoesNotExist => 404,
            AppError::UsernameTaken => 400,
            AppError::InvalidRegistration => 400,
            AppError::InvalidAmount => 400,
            AppError::TradeTooSmall => 400,
            AppError::TooManyAttempts => 429,
            AppError::CsrfMismatch => 403,
            AppError::InvalidAssetName => 400,
            AppError::NegativeUnitValue => 400,
            AppError::InsufficientBalance => 400,
            AppError::InsufficientHoldings => 400,
            AppError::QuoteUnavailable => 502,
            AppError::QuoteSyncTooSoon => 429,
            AppError::Database(_) => 500,
            AppError::Template(_) => 500,
            AppError::Jwt(_) => 401,
            AppError::Http(_) => 502,
            AppError::Payload(_) => 502,
        }
    }

    /// The error's text.
    pub fn message(&self) -> (r: String)
        ensures
            r@ == message_of(*self),
    {
        let fixed: &str = match self {
            AppError::MissingAuthorization => "missing authorization header",
            AppError::InvalidCredentials => "invalid credentials",
            AppError::AssetDoesNotExist => "asset does not exist",
            AppError::UserDoesNotExist => "user does not exist",
            AppError::UsernameTaken => "username already taken",
            AppError::InvalidRegistration => "username or password does not meet the registration requirements",
            AppError::InvalidAmount => "invalid amount",
            AppError::TradeTooSmall => "trade total is below the supported monetary precision",
            AppError::TooManyAttempts => "too many failed attempts, try again later",
            AppError::CsrfMismatch => "invalid csrf token",
            AppError::InvalidAssetName => "asset name must not be empty",
            AppError::NegativeUnitValue => "unit value must not be negative",
            AppError::InsufficientBalance => "insufficient balance",
            AppError::InsufficientHoldings => "insufficient holdings",
            AppError::QuoteUnavailable => "market quote unavailable",
            AppError::QuoteSyncTooSoon => "quotes were refreshed recently",
            AppError::Database(m) => return m.clone(),
            AppError::Template(m) => return m.clone(),
            AppError::Http(m) => return m.clone(),
            AppError::Jwt(m) => {
                let mut out = "token error: ".to_string();
                crate::text::push_str(&mut out, m.as_str());
                return out;
            },
            AppError::Payload(m) => {
                let mut out = "upstream payload does not match the expected shape: ".to_string();
                crate::text::push_str(&mut out, m.as_str());
                return out;
            },
        };
        fixed.to_string()
    }

    /// What the response body says: the text for client errors, a generic
    /// line for server errors.
    pub fn public_message(&self) -> (r: String)
        ensures
            r@ == public_message_of(*self),
    {
        if self.status() >= 500 {
            "internal server error".to_string()
        } else {
            self.message()
        }
    }
}

/// No server error tells the client what went wrong inside.
pub proof fn law_server_errors_are_censored(e: AppError)
    requires
        status_of(e) >= 500,
    ensures
        public_message_of(e) == "internal server error"@,
{
}

} // verus!
