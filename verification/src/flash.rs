//! One-shot feedback messages (flash): what an operation says on the next
//! page, how it travels in its cookie, and which errors become one.
use vstd::prelude::*;
use vstd::string::StringSliceAdditionalSpecFns;
use vstd::utf8::{decode_utf8, encode_utf8, valid_utf8};

use crate::error::AppError;
use crate::i18n::{split_first, Strings};
use crate::session::{base64_url_char, base64_url_decode, base64_url_decoded, base64_url_encode, base64_url_of};
use crate::text::{chars_of, push_char, push_str, string_of};

verus! {

/// Name of the cookie that carries the message from the post to the next
/// page.
pub const FLASH_COOKIE: &'static str = "flash";

/// A feedback message, shown once on the next page.
pub struct Flash {
    pub message: String,
    error: bool,
}

impl Flash {
    /// Whether the message reports a failure.
    pub closed spec fn reports_error(&self) -> bool {
        self.error
    }

    /// The message's text.
    pub closed spec fn text(&self) -> Seq<char> {
        self.message@
    }

    /// A success message.
    pub fn success(message: &str) -> (r: Flash)
        ensures
            r.text() == message@,
            !r.reports_error(),
    {
        Flash { message: message.to_string(), error: false }
    }

    /// An error message.
    pub fn error(message: &str) -> (r: Flash)
        ensures
            r.text() == message@,
            r.reports_error(),
    {
        Flash { message: message.to_string(), error: true }
    }

    pub fn is_error(&self) -> (r: bool)
        ensures
            r == self.reports_error(),
    {
        self.error
    }
}

/// `String::from_utf8`: the text when the bytes are valid UTF-8.
#[verifier::external_body]
pub(crate) fn utf8_string(bytes: Vec<u8>) -> (r: Option<String>)
    ensures
        r is Some <==> valid_utf8(bytes@),
        r matches Some(s) ==> s@ == decode_utf8(bytes@),
{
    String::from_utf8(bytes).ok()
}

/// The cookie value of a flash: its kind (`s` or `e`), a colon, and the
/// message's UTF-8 bytes in URL-safe base64 (accents survive the cookie).
pub open spec fn flash_cookie_text(message: Seq<char>, error: bool) -> Seq<char> {
    seq![if error { 'e' } else { 's' }, ':'] + base64_url_of(encode_utf8(message))
}

/// What a cookie value reads back as: the message and whether it reports an
/// error; nothing for a malformed value.
pub open spec fn flash_cookie_parsed(v: Seq<char>) -> Option<(Seq<char>, bool)> {
    let (kind, rest) = split_first(v, ':');
    match rest {
        None => None,
        Some(encoded) => match base64_url_decoded(encode_utf8(encoded)) {
            None => None,
            Some(bytes) => if !valid_utf8(bytes) {
                None
            } else if kind == seq!['s'] {
                Some((decode_utf8(bytes), false))
            } else if kind == seq!['e'] {
                Some((decode_utf8(bytes), true))
            } else {
                None
            },
        },
    }
}

/// The cookie value of a flash; reading it back gives the same message and
/// kind.
pub fn flash_cookie_value(flash: &Flash) -> (r: String)
    ensures
        r@ == flash_cookie_text(flash.text(), flash.reports_error()),
        flash_cookie_parsed(r@) == Some((flash.text(), flash.reports_error())),
{
    let mut value = String::new();
    if flash.error {
        push_char(&mut value, 'e');
    } else {
        push_char(&mut value, 's');
    }
    push_char(&mut value, ':');
    let bytes = flash.message.as_str().as_bytes();
    let encoded = base64_url_encode(bytes);
    push_str(&mut value, encoded.as_str());
    proof {
        let k = if flash.error { 'e' } else { 's' };
        assert(value@ =~= seq![k, ':'] + encoded@);
        assert forall|i: int| 0 <= i < 1 implies value@[i] != ':' by {}
        crate::i18n::lemma_split_first_at(value@, ':', 1);
        assert(value@.subrange(0, 1) =~= seq![k]);
        assert(value@.subrange(2, value@.len() as int) =~= encoded@);
        assert(flash.text() == flash.message@);
        vstd::utf8::encode_utf8_valid_utf8(flash.message@);
        vstd::utf8::encode_utf8_decode_utf8(flash.message@);
    }
    value
}

/// Reads a flash back from its cookie value; a malformed value gives
/// nothing.
pub fn parse_flash_cookie(value: &str) -> (r: Option<Flash>)
    ensures
        match r {
            Some(f) => flash_cookie_parsed(value@) == Some((f.text(), f.reports_error())),
            None => flash_cookie_parsed(value@) is None,
        },
{
    let cs = chars_of(value);
    let colon = crate::i18n::find_char(&cs, 0, cs.len(), ':');
    proof {
        assert(cs@.subrange(0, cs@.len() as int) =~= cs@);
        crate::i18n::lemma_split_first_at(cs@, ':', colon as int);
    }
    if colon == cs.len() {
        return None;
    }
    let kind = string_of(&cs, 0, colon);
    let encoded = string_of(&cs, colon + 1, cs.len());
    let bytes = match base64_url_decode(encoded.as_str()) {
        Some(b) => b,
        None => return None,
    };
    let message = match utf8_string(bytes) {
        Some(m) => m,
        None => return None,
    };
    proof {
        reveal_strlit("s");
        reveal_strlit("e");
        assert("s"@ =~= seq!['s']);
        assert("e"@ =~= seq!['e']);
    }
    if crate::text::str_eq(kind.as_str(), "s") {
        Some(Flash { message, error: false })
    } else if crate::text::str_eq(kind.as_str(), "e") {
        Some(Flash { message, error: true })
    } else {
        None
    }
}

/// The message of a business error in the request's language; an internal
/// error has none. A wrong password and an unknown user read the same, so
/// the login does not confirm whether an account exists.
pub open spec fn business_message(e: AppError, t: Strings) -> Option<Seq<char>> {
    match e {
        AppError::InvalidAmount => Some(t.flash_invalid_amount@),
        AppError::InsufficientBalance => Some(t.flash_insufficient_balance@),
        AppError::InsufficientHoldings => Some(t.flash_insufficient_holdings@),
        AppError::AssetDoesNotExist => Some(t.flash_asset_missing@),
        AppError::InvalidCredentials => Some(t.flash_bad_credentials@),
        AppError::UserDoesNotExist => Some(t.flash_bad_credentials@),
        AppError::UsernameTaken => Some(t.flash_username_taken@),
        AppError::TooManyAttempts => Some(t.flash_too_many_attempts@),
        AppError::CsrfMismatch => Some(t.flash_csrf@),
        AppError::QuoteUnavailable => Some(t.flash_quotes_unavailable@),
        _ => None,
    }
}

/// A business error becomes an error banner in the request's language;
/// any other error comes back untouched for the internal-error path.
pub fn business_flash(error: AppError, t: &Strings) -> (r: Result<Flash, AppError>)
    ensures
        match business_message(error, *t) {
            Some(m) => r matches Ok(f) && f.text() == m && f.reports_error(),
            None => r == Err::<Flash, AppError>(error),
        },
{
    let message: &str = match &error {
        AppError::InvalidAmount => t.flash_invalid_amount,
        AppError::InsufficientBalance => t.flash_insufficient_balance,
        AppError::InsufficientHoldings => t.flash_insufficient_holdings,
        AppError::AssetDoesNotExist => t.flash_asset_missing,
        AppError::InvalidCredentials => t.flash_bad_credentials,
        AppError::UserDoesNotExist => t.flash_bad_credentials,
        AppError::UsernameTaken => t.flash_username_taken,
        AppError::TooManyAttempts => t.flash_too_many_attempts,
        AppError::CsrfMismatch => t.flash_csrf,
        AppError::QuoteUnavailable => t.flash_quotes_unavailable,
        _ => return Err(error),
    };
    Ok(Flash::error(message))
}

/// Whatever the language, a wrong password and an unknown user get the same
/// message.
pub proof fn law_login_failures_read_the_same(t: Strings)
    ensures
        business_message(AppError::InvalidCredentials, t) == business_message(
            AppError::UserDoesNotExist,
            t,
        ),
{
}

} // verus!
