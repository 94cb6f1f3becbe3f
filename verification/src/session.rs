//! Session secrets: the opaque refresh token and its stored hash, the
//! anti-CSRF token of the double-submit cookie, and the admin credential
//! check. Comparisons of secrets run in constant time.
use vstd::prelude::*;
use vstd::string::StringSliceAdditionalSpecFns;

use base64::engine::general_purpose::URL_SAFE_NO_PAD;
use base64::Engine as _;
use rand::RngCore;
use sha2::{Digest, Sha256};
use subtle::ConstantTimeEq;
use password_auth::VerifyError;
use argon2::password_hash::{PasswordHasher, SaltString};
use argon2::Argon2;
use jwt_simple::prelude::{Claims, HS256Key, MACLike};

use crate::error::AppError;
use crate::wallet::UserRecord;

verus! {

/// The SHA-256 digest of a byte string (`sha2::Sha256::digest`).
pub uninterp spec fn sha256_of(bytes: Seq<u8>) -> Seq<u8>;

/// The URL-safe, unpadded base64 text of a byte string
/// (`URL_SAFE_NO_PAD.encode`).
pub uninterp spec fn base64_url_of(bytes: Seq<u8>) -> Seq<char>;

/// What `URL_SAFE_NO_PAD.decode` gives for a text: the bytes, or nothing
/// for a text that is not canonical unpadded URL-safe base64.
pub uninterp spec fn base64_url_decoded(text: Seq<u8>) -> Option<Seq<u8>>;

/// A character of the URL-safe base64 alphabet.
pub open spec fn base64_url_char(c: char) -> bool {
    ('A' <= c && c <= 'Z') || ('a' <= c && c <= 'z') || ('0' <= c && c <= '9') || c == '-' || c
        == '_'
}

/// `Sha256::digest`: the 32-byte digest.
#[verifier::external_body]
pub(crate) fn sha256(bytes: &[u8]) -> (r: Vec<u8>)
    ensures
        r@ == sha256_of(bytes@),
        r@.len() == 32,
{
    Sha256::digest(bytes).to_vec()
}

/// `URL_SAFE_NO_PAD.encode`: the text uses only the URL-safe alphabet, and
/// decoding it gives the bytes back.
#[verifier::external_body]
pub(crate) fn base64_url_encode(bytes: &[u8]) -> (r: String)
    ensures
        r@ == base64_url_of(bytes@),
        forall|i: int| 0 <= i < r@.len() ==> base64_url_char(#[trigger] r@[i]),
        base64_url_decoded(vstd::utf8::encode_utf8(r@)) == Some(bytes@),
{
    URL_SAFE_NO_PAD.encode(bytes)
}

/// `URL_SAFE_NO_PAD.decode`.
#[verifier::external_body]
pub(crate) fn base64_url_decode(text: &str) -> (r: Option<Vec<u8>>)
    ensures
        match r {
            Some(v) => base64_url_decoded(text.spec_bytes()) == Some(v@),
            None => base64_url_decoded(text.spec_bytes()) is None,
        },
{
    URL_SAFE_NO_PAD.decode(text).ok()
}

/// `subtle`'s `ConstantTimeEq` on byte slices, read as a `bool`: equal
/// lengths and equal bytes.
#[verifier::external_body]
pub(crate) fn constant_time_eq(a: &[u8], b: &[u8]) -> (r: bool)
    ensures
        r == (a@ == b@),
{
    a.ct_eq(b).into()
}

/// `OsRng::try_fill_bytes` on `n` bytes: `None` when the operating system
/// gives no randomness; otherwise `n` bytes, whose values are chance.
#[verifier::external_body]
pub(crate) fn random_bytes(n: usize) -> (r: Option<Vec<u8>>)
    ensures
        r matches Some(v) ==> v@.len() == n,
{
    let mut bytes = vec![0u8; n];
    match rand::rngs::OsRng.try_fill_bytes(&mut bytes) {
        Ok(()) => Some(bytes),
        Err(_) => None,
    }
}

/// A token made of 32 given bytes: their URL-safe base64.
pub open spec fn is_token_of_32_bytes(t: Seq<char>) -> bool {
    &&& forall|i: int| 0 <= i < t.len() ==> base64_url_char(#[trigger] t[i])
    &&& exists|bytes: Seq<u8>| bytes.len() == 32 && t == base64_url_of(bytes)
}

/// 32 bytes of operating-system randomness in URL-safe base64; `None` when
/// the operating system gives no randomness.
pub fn random_token() -> (r: Option<String>)
    ensures
        r matches Some(t) ==> is_token_of_32_bytes(t@),
{
    let bytes = match random_bytes(32) {
        Some(b) => b,
        None => return None,
    };
    let slice = bytes.as_slice();
    let r = base64_url_encode(slice);
    proof {
        assert(slice@.len() == 32);
    }
    Some(r)
}

/// The SHA-256 of a token's text, as `sessions.token_hash` stores it.
pub fn hash_token(value: &str) -> (r: Vec<u8>)
    ensures
        r@ == sha256_of(value.spec_bytes()),
        r@.len() == 32,
{
    sha256(value.as_bytes())
}

/// The refresh token in clear text: it lives only in memory and in the
/// browser's cookie; the database keeps its hash.
pub struct RefreshToken(String);

impl RefreshToken {
    pub closed spec fn text(&self) -> Seq<char> {
        self.0@
    }

    /// A fresh opaque token: 32 random bytes in URL-safe base64. It carries
    /// no data; all its meaning is in the session row. `None` when the
    /// operating system gives no randomness.
    pub fn generate() -> (r: Option<RefreshToken>)
        ensures
            r matches Some(t) ==> is_token_of_32_bytes(t.text()),
    {
        match random_token() {
            Some(t) => Some(RefreshToken(t)),
            None => None,
        }
    }

    /// A token received back from the browser.
    pub fn from_text(text: String) -> (r: RefreshToken)
        ensures
            r.text() == text@,
    {
        RefreshToken(text)
    }

    /// The token's text, for its cookie.
    pub fn as_str(&self) -> (r: &str)
        ensures
            r@ == self.text(),
    {
        self.0.as_str()
    }

    /// The hash stored for this token: `hash_token` of its text.
    pub fn hash(&self) -> (r: Vec<u8>)
        ensures
            r@ == sha256_of(vstd::utf8::encode_utf8(self.text())),
    {
        hash_token(self.0.as_str())
    }
}

/// The CSRF check of a form post: the token in the form must equal the one
/// in the cookie; with no cookie nothing passes.
pub open spec fn csrf_accepts(cookie: Option<Seq<char>>, submitted: Seq<char>) -> bool {
    match cookie {
        Some(c) => c == submitted,
        None => false,
    }
}

/// Checks the token submitted with a form against the CSRF cookie, in
/// constant time.
pub fn verify_csrf(cookie: Option<&str>, submitted: &str) -> (r: Result<(), AppError>)
    ensures
        r is Ok <==> csrf_accepts(
            match cookie {
                Some(c) => Some(c@),
                None => None,
            },
            submitted@,
        ),
        r matches Err(e) ==> e == AppError::CsrfMismatch,
{
    match cookie {
        None => Err(AppError::CsrfMismatch),
        Some(c) => {
            let same = constant_time_eq(submitted.as_bytes(), c.as_bytes());
            proof {
                lemma_utf8_injective(submitted@, c@);
            }
            if same {
                Ok(())
            } else {
                Err(AppError::CsrfMismatch)
            }
        },
    }
}

/// The token a form carries: the cookie's when there is one (two open tabs
/// must not invalidate each other), else a fresh one that the caller sets
/// as the cookie (the `bool`). `None` only where a fresh token is needed
/// and the operating system gives no randomness.
pub fn csrf_token_for(existing: Option<&str>) -> (r: Option<(String, bool)>)
    ensures
        match existing {
            Some(v) => r matches Some(p) && p.0@ == v@ && !p.1,
            None => r matches Some(p) ==> p.1 && is_token_of_32_bytes(p.0@),
        },
{
    match existing {
        Some(v) => Some((v.to_string(), false)),
        None => match random_token() {
            Some(t) => Some((t, true)),
            None => None,
        },
    }
}

proof fn lemma_utf8_injective(a: Seq<char>, b: Seq<char>)
    ensures
        (vstd::utf8::encode_utf8(a) == vstd::utf8::encode_utf8(b)) == (a == b),
{
    vstd::utf8::encode_utf8_decode_utf8(a);
    vstd::utf8::encode_utf8_decode_utf8(b);
}

/// How the request presents the admin credential in its `Authorization`
/// header.
pub enum Credential<'a> {
    /// No header.
    Missing,
    /// A header that is not visible ASCII text.
    Unreadable,
    /// The header's text.
    Text(&'a str),
}

/// Who a valid session belongs to, if the request has one.
#[derive(Clone, Copy, Debug, PartialEq, Eq, Structural)]
pub enum SessionRole {
    NoSession,
    User,
    Admin,
}

/// The outcome of the admin check, over plain values.
pub open spec fn admin_outcome(role: SessionRole, credential: Credential, secret: Seq<char>) -> Result<
    (),
    AppError,
> {
    match role {
        SessionRole::Admin => Ok(()),
        SessionRole::User => Err(AppError::InvalidCredentials),
        SessionRole::NoSession => match credential {
            Credential::Missing => Err(AppError::MissingAuthorization),
            Credential::Unreadable => Err(AppError::InvalidCredentials),
            Credential::Text(t) => if t@ == secret {
                Ok(())
            } else {
                Err(AppError::InvalidCredentials)
            },
        },
    }
}

/// The admin authorisation: a session whose role is admin passes; a session
/// without the role is refused outright (it is clearly the one in use);
/// without a session, the service secret in `Authorization` is compared in
/// constant time.
pub fn authorize_admin(role: SessionRole, credential: Credential, secret: &str) -> (r: Result<
    (),
    AppError,
>)
    ensures
        r == admin_outcome(role, credential, secret@),
{
    match role {
        SessionRole::Admin => Ok(()),
        SessionRole::User => Err(AppError::InvalidCredentials),
        SessionRole::NoSession => match credential {
            Credential::Missing => Err(AppError::MissingAuthorization),
            Credential::Unreadable => Err(AppError::InvalidCredentials),
            Credential::Text(t) => {
                let same = constant_time_eq(t.as_bytes(), secret.as_bytes());
                proof {
                    lemma_utf8_injective(t@, secret@);
                }
                if same {
                    Ok(())
                } else {
                    Err(AppError::InvalidCredentials)
                }
            },
        },
    }
}

/// An authenticated user. Only an authentication flow makes one, so holding
/// a `User` is proof that the flow ran; it carries no password or hash.
pub struct User {
    id: i64,
    username: String,
    role: String,
}

impl User {
    pub closed spec fn id_spec(&self) -> i64 {
        self.id
    }

    pub closed spec fn name_spec(&self) -> Seq<char> {
        self.username@
    }

    pub closed spec fn role_spec(&self) -> Seq<char> {
        self.role@
    }

    pub fn new(id: i64, username: String, role: String) -> (r: User)
        ensures
            r.id_spec() == id,
            r.name_spec() == username@,
            r.role_spec() == role@,
    {
        User { id, username, role }
    }

    pub fn id(&self) -> (r: i64)
        ensures
            r == self.id_spec(),
    {
        self.id
    }

    pub fn username(&self) -> (r: &str)
        ensures
            r@ == self.name_spec(),
    {
        self.username.as_str()
    }

    pub fn role(&self) -> (r: &str)
        ensures
            r@ == self.role_spec(),
    {
        self.role.as_str()
    }

    /// The user holds the administrator role.
    pub fn is_admin(&self) -> (r: bool)
        ensures
            r == (self.role_spec() == crate::wallet::ROLE_ADMIN@),
    {
        crate::text::str_eq(self.role.as_str(), crate::wallet::ROLE_ADMIN)
    }
}

/// Longest lifetime of an access token, in minutes: `coarsetime` keeps
/// instants as 32.32 fixed-point seconds, and `now + lifetime` must fit
/// that for decades to come.
pub const MAX_TOKEN_MINUTES: u64 = 1_000_000;

/// How many `.` a text holds.
pub open spec fn dot_count(s: Seq<char>) -> nat
    decreases s.len(),
{
    if s.len() == 0 {
        0
    } else {
        dot_count(s.drop_last()) + if s.last() == '.' {
            1nat
        } else {
            0nat
        }
    }
}

/// The view of an optional text.
pub open spec fn opt_text(o: Option<String>) -> Option<Seq<char>> {
    match o {
        Some(s) => Some(s@),
        None => None,
    }
}

/// The user claims `id`, `username` and `role` that the payload (the middle
/// part) of the compact JWT `token` carries, as `jwt_simple` decodes it;
/// each `None` where the claim is absent or of another JSON type.
pub uninterp spec fn jwt_payload_claims(token: Seq<char>) -> (Option<i64>, Option<Seq<char>>, Option<Seq<char>>);

/// `HS256Key::from_bytes(secret).authenticate` of claims made with
/// `Claims::with_custom_claims` (a lifetime of `ttl_minutes` from now) that
/// carry `id`, `username` and `role`: the compact token
/// `header.payload.tag`, whose payload carries those three claims. A secret
/// under 12 bytes is refused as a weak key. The error is the text of
/// `jwt_simple`'s error.
#[verifier::external_body]
fn jwt_sign(id: i64, username: &str, role: &str, secret: &str, ttl_minutes: u64) -> (r: Result<String, String>)
    requires
        ttl_minutes <= MAX_TOKEN_MINUTES,
    ensures
        secret.spec_bytes().len() < 12 ==> r is Err,
        r matches Ok(t) ==> dot_count(t@) == 2,
        r matches Ok(t) ==> jwt_payload_claims(t@) == (Some(id), Some(username@), Some(role@)),
{
    let mut claims = serde_json::Map::new();
    claims.insert("id".to_string(), serde_json::Value::from(id));
    claims.insert("username".to_string(), serde_json::Value::from(username));
    claims.insert("role".to_string(), serde_json::Value::from(role));
    let valid_for = jwt_simple::prelude::Duration::from_mins(ttl_minutes);
    let claims = Claims::with_custom_claims(serde_json::Value::Object(claims), valid_for);
    HS256Key::from_bytes(secret.as_bytes()).authenticate(claims).map_err(|e| e.to_string())
}

/// `HS256Key::from_bytes(secret).verify_token` with the default options,
/// then the `id`, `username` and `role` claims. It reads the clock (an
/// expired token is refused), so what comes back is not a function of the
/// arguments; of an accepted token: it has exactly three `.`-separated parts
/// and the claims are those its payload carries. A secret under 12 bytes
/// is refused as a weak key. The error is the text of `jwt_simple`'s error.
#[verifier::external_body]
fn jwt_claims(token: &str, secret: &str) -> (r: Result<(Option<i64>, Option<String>, Option<String>), String>)
    ensures
        secret.spec_bytes().len() < 12 ==> r is Err,
        r is Ok ==> dot_count(token@) == 2,
        r matches Ok(c) ==> (c.0, opt_text(c.1), opt_text(c.2)) == jwt_payload_claims(token@),
{
    let key = HS256Key::from_bytes(secret.as_bytes());
    let claims = key.verify_token::<serde_json::Value>(token, None).map_err(|e| e.to_string())?.custom;
    let username = claims["username"].as_str().map(str::to_string);
    let role = claims["role"].as_str().map(str::to_string);
    Ok((claims["id"].as_i64(), username, role))
}

/// The claims a token carries of `u`.
pub open spec fn claims_of(u: User) -> (Option<i64>, Option<Seq<char>>, Option<Seq<char>>) {
    (Some(u.id_spec()), Some(u.name_spec()), Some(u.role_spec()))
}

impl User {
    /// The short-lived access token of this user: an HS256 JWT signed with
    /// `secret`, valid for `ttl_minutes`, carrying the id, name and role.
    pub fn auth_token(&self, secret: &str, ttl_minutes: u64) -> (r: Result<String, AppError>)
        requires
            ttl_minutes <= MAX_TOKEN_MINUTES,
        ensures
            secret.spec_bytes().len() < 12 ==> r matches Err(AppError::Jwt(_)),
            r matches Err(e) ==> e is Jwt,
            r matches Ok(t) ==> dot_count(t@) == 2 && jwt_payload_claims(t@) == claims_of(*self),
    {
        match jwt_sign(self.id, self.username.as_str(), self.role.as_str(), secret, ttl_minutes) {
            Ok(t) => Ok(t),
            Err(m) => Err(AppError::Jwt(m)),
        }
    }

    /// The user of an access token whose signature (with `secret`) and
    /// expiry check out: the one its claims name. A token without the
    /// three claims is refused.
    pub fn from_auth_token(token: &str, secret: &str) -> (r: Result<User, AppError>)
        ensures
            secret.spec_bytes().len() < 12 ==> r matches Err(AppError::Jwt(_)),
            r matches Err(e) ==> e is Jwt,
            r matches Ok(u) ==> dot_count(token@) == 2 && jwt_payload_claims(token@) == claims_of(u),
    {
        match jwt_claims(token, secret) {
            Ok((Some(id), Some(username), Some(role))) => Ok(User::new(id, username, role)),
            Ok(_) => Err(AppError::Jwt("invalid user claims".to_string())),
            Err(m) => Err(AppError::Jwt(m)),
        }
    }
}

/// The user of the request's access token, if it has one that checks out.
pub fn user_from_access_token(token: Option<&str>, secret: &str) -> (r: Result<User, AppError>)
    ensures
        token is None ==> r == Err::<User, AppError>(AppError::MissingAuthorization),
        token is Some ==> (r matches Err(e) ==> e is Jwt),
        (token is Some && secret.spec_bytes().len() < 12) ==> r matches Err(AppError::Jwt(_)),
        r matches Ok(u) ==> (token matches Some(t) && dot_count(t@) == 2 && jwt_payload_claims(t@)
            == claims_of(u)),
{
    match token {
        None => Err(AppError::MissingAuthorization),
        Some(t) => User::from_auth_token(t, secret),
    }
}

/// The role of the session behind a request, from its user (if any).
pub fn session_role(user: Option<&User>) -> (r: SessionRole)
    ensures
        r == match user {
            None => SessionRole::NoSession,
            Some(u) => if u.role_spec() == crate::wallet::ROLE_ADMIN@ {
                SessionRole::Admin
            } else {
                SessionRole::User
            },
        },
{
    match user {
        None => SessionRole::NoSession,
        Some(u) => if u.is_admin() {
            SessionRole::Admin
        } else {
            SessionRole::User
        },
    }
}

/// A user not authenticated yet: the name and password typed in a form.
pub struct UnauthenticatedUser {
    username: String,
    password: String,
}

impl UnauthenticatedUser {
    pub closed spec fn name_spec(&self) -> Seq<char> {
        self.username@
    }

    pub closed spec fn password_spec(&self) -> Seq<char> {
        self.password@
    }

    pub fn new(username: String, password: String) -> (r: UnauthenticatedUser)
        ensures
            r.name_spec() == username@,
            r.password_spec() == password@,
    {
        UnauthenticatedUser { username, password }
    }

    pub fn username(&self) -> (r: &str)
        ensures
            r@ == self.name_spec(),
    {
        self.username.as_str()
    }

    pub fn password(&self) -> (r: &str)
        ensures
            r@ == self.password_spec(),
    {
        self.password.as_str()
    }
}

/// What checking a password against a stored hash finds.
#[derive(Clone, Copy, Debug, PartialEq, Eq, Structural)]
pub enum PasswordVerdict {
    /// The password is the one hashed.
    Match,
    /// The hash parses but the password is another (or no enabled
    /// algorithm reads it).
    Mismatch,
    /// The stored hash is not a well-formed PHC string. (A well-formed
    /// hash of an algorithm that is not enabled reads as `Mismatch`.)
    Unparsable,
}

/// `password_auth::verify_password` of a password (its UTF-8 bytes) against
/// a stored hash.
pub uninterp spec fn password_verdict(password: Seq<u8>, hash: Seq<char>) -> PasswordVerdict;

/// `password_auth::verify_password`, its outcome told apart.
#[verifier::external_body]
pub(crate) fn verify_password(password: &str, hash: &str) -> (r: PasswordVerdict)
    ensures
        r == password_verdict(password.spec_bytes(), hash@),
{
    match password_auth::verify_password(password, hash) {
        Ok(()) => PasswordVerdict::Match,
        Err(VerifyError::PasswordInvalid) => PasswordVerdict::Mismatch,
        Err(VerifyError::Parse(_)) => PasswordVerdict::Unparsable,
    }
}

/// Bytes of salt in a new password hash (what `SaltString::generate` uses).
pub const SALT_BYTES: usize = 16;

/// `Argon2::default().hash_password` of the password's bytes with the salt
/// `SaltString::encode_b64(salt)`, as its PHC string. `password_auth`
/// verifies the same password against it. `None` where `password_hash` or
/// `argon2` refuse the input: argon2 takes at most `u32::MAX` bytes of
/// password and a salt of 8 bytes or more, and a `SaltString` holds at most
/// 48 bytes; a password within bounds with a 16-byte salt is always hashed.
#[verifier::external_body]
pub(crate) fn argon2_hash(password: &str, salt: &[u8]) -> (r: Option<String>)
    ensures
        (password.spec_bytes().len() <= u32::MAX && salt@.len() == SALT_BYTES) ==> r is Some,
        r matches Some(h) ==> password_verdict(password.spec_bytes(), h@) == PasswordVerdict::Match,
{
    match SaltString::encode_b64(salt) {
        Ok(salt) => match Argon2::default().hash_password(password.as_bytes(), &salt) {
            Ok(hash) => Some(hash.to_string()),
            Err(_) => None,
        },
        Err(_) => None,
    }
}

/// The hash stored for a new account's password, salted with `salt`:
/// refused only for a password longer than `u32::MAX` bytes.
pub fn password_hash_with_salt(password: &str, salt: &[u8]) -> (r: Option<String>)
    requires
        salt@.len() == SALT_BYTES,
    ensures
        r is Some <==> password.spec_bytes().len() <= u32::MAX,
        r matches Some(h) ==> password_verdict(password.spec_bytes(), h@) == PasswordVerdict::Match,
{
    let bytes = password.as_bytes();
    if bytes.len() as u64 > 0xffff_ffffu64 {
        return None;
    }
    argon2_hash(password, salt)
}

/// The hash stored for a new account's password, with a fresh random salt.
/// `None` for a password longer than `u32::MAX` bytes, or when the
/// operating system gives no randomness.
pub fn password_hash_for(password: &str) -> (r: Option<String>)
    ensures
        password.spec_bytes().len() > u32::MAX ==> r is None,
        r matches Some(h) ==> password_verdict(password.spec_bytes(), h@) == PasswordVerdict::Match,
{
    let salt = match random_bytes(SALT_BYTES) {
        Some(s) => s,
        None => return None,
    };
    password_hash_with_salt(password, salt.as_slice())
}

/// The outcome of a login given the user's row (if any) and what checking
/// the password against its hash found: an unknown user and a wrong
/// password are different errors (the screens show them alike); an
/// unreadable stored hash has no outcome.
pub open spec fn login_outcome(record: Option<UserRecord>, verdict: PasswordVerdict) -> Option<
    Result<(i64, Seq<char>, Seq<char>), AppError>,
> {
    match record {
        None => Some(Err(AppError::UserDoesNotExist)),
        Some(r) => match verdict {
            PasswordVerdict::Match => Some(Ok((r.id, r.username@, r.role@))),
            PasswordVerdict::Mismatch => Some(Err(AppError::InvalidCredentials)),
            PasswordVerdict::Unparsable => None,
        },
    }
}

/// The user a login yields, from the row and the password check's verdict;
/// nothing where the stored hash is unreadable (a row written by other
/// means: a state the service does not go on from).
pub fn login_decision(record: Option<UserRecord>, verdict: PasswordVerdict) -> (r: Option<
    Result<User, AppError>,
>)
    ensures
        match login_outcome(record, verdict) {
            None => r is None,
            Some(Ok((id, name, role))) => r matches Some(Ok(u)) && u.id_spec() == id && u.name_spec()
                == name && u.role_spec() == role,
            Some(Err(e)) => r == Some(Err::<User, AppError>(e)),
        },
{
    match record {
        None => Some(Err(AppError::UserDoesNotExist)),
        Some(row) => match verdict {
            PasswordVerdict::Match => Some(Ok(User::new(row.id, row.username, row.role))),
            PasswordVerdict::Mismatch => Some(Err(AppError::InvalidCredentials)),
            PasswordVerdict::Unparsable => None,
        },
    }
}

/// Authenticates a login against the user's row: the password is checked
/// against the stored hash (when there is a row), then `login_decision`.
pub fn authenticate_record(record: Option<UserRecord>, password: &str) -> (r: Option<
    Result<User, AppError>,
>)
    ensures
        match record {
            None => r == Some(Err::<User, AppError>(AppError::UserDoesNotExist)),
            Some(row) => match login_outcome(
                record,
                password_verdict(password.spec_bytes(), row.password_hash@),
            ) {
                None => r is None,
                Some(Ok((id, name, role))) => r matches Some(Ok(u)) && u.id_spec() == id
                    && u.name_spec() == name && u.role_spec() == role,
                Some(Err(e)) => r == Some(Err::<User, AppError>(e)),
            },
        },
{
    let verdict = match &record {
        None => PasswordVerdict::Mismatch,
        Some(row) => verify_password(password, row.password_hash.as_str()),
    };
    login_decision(record, verdict)
}

/// Why storing a new account failed.
pub enum InsertFailure {
    /// The username is taken (the unique constraint).
    UniqueViolation,
    /// Any other database failure, with its message.
    Other(String),
}

/// A registration's outcome from the insert: the new user, a taken name, or
/// the database error.
pub fn registration_outcome(inserted: Result<UserRecord, InsertFailure>) -> (r: Result<User, AppError>)
    ensures
        match inserted {
            Ok(row) => r matches Ok(u) && u.id_spec() == row.id && u.name_spec() == row.username@
                && u.role_spec() == row.role@,
            Err(InsertFailure::UniqueViolation) => r == Err::<User, AppError>(AppError::UsernameTaken),
            Err(InsertFailure::Other(m)) => r == Err::<User, AppError>(AppError::Database(m)),
        },
{
    match inserted {
        Ok(row) => Ok(User::new(row.id, row.username, row.role)),
        Err(InsertFailure::UniqueViolation) => Err(AppError::UsernameTaken),
        Err(InsertFailure::Other(m)) => Err(AppError::Database(m)),
    }
}

/// What the session middleware does given whether the access token
/// checked out: nothing while it does or without a refresh cookie;
/// otherwise the hash of the refresh token whose session is to be rotated.
pub open spec fn rotation_plan_of(access_valid: bool, refresh_cookie: Option<Seq<u8>>) -> Option<Seq<u8>> {
    if access_valid {
        None
    } else {
        match refresh_cookie {
            Some(c) => Some(sha256_of(c)),
            None => None,
        }
    }
}

/// The session middleware's decision once the access token was checked.
pub fn rotation_plan(access_valid: bool, refresh_cookie: Option<&str>) -> (r: Option<Vec<u8>>)
    ensures
        (match r {
            Some(h) => Some(h@),
            None => None,
        }) == rotation_plan_of(
            access_valid,
            match refresh_cookie {
                Some(c) => Some(c.spec_bytes()),
                None => None,
            },
        ),
{
    if access_valid {
        return None;
    }
    match refresh_cookie {
        Some(token) => Some(hash_token(token)),
        None => None,
    }
}

/// The session middleware's first step: checks the access token (with
/// `secret`); nothing to do while it checks out or without a refresh
/// cookie; otherwise the hash of the refresh token whose session is to be
/// rotated. Without an access token (or with a secret too weak to check
/// one) the session is rotated whenever there is a refresh cookie.
pub fn refresh_plan(access_token: Option<&str>, secret: &str, refresh_cookie: Option<&str>) -> (r: Option<
    Vec<u8>,
>)
    ensures
        refresh_cookie is None ==> r is None,
        r matches Some(h) ==> (refresh_cookie matches Some(c) && h@ == sha256_of(c.spec_bytes())),
        (refresh_cookie is Some && (access_token is None || secret.spec_bytes().len() < 12)) ==> r is Some,
        (refresh_cookie is Some && r is None) ==> (access_token matches Some(t) && dot_count(t@) == 2),
{
    let access_valid = match user_from_access_token(access_token, secret) {
        Ok(_) => true,
        Err(_) => false,
    };
    rotation_plan(access_valid, refresh_cookie)
}

} // verus!
