//! Registration and login: both end in a fresh bearer token for a user.
//!
//! An email is compared in its normal form: trimmed, then lower-cased. The
//! password primitive is Argon2; what it computes is named in `platform`
//! and nothing here depends on how.
use vstd::prelude::*;
use vstd::string::*;
use crate::errors::{
    bad_request, outcome, stored, ApiError, ApiErrorView, DbError, DbErrorView,
};
use crate::models::{
    opt_text, ApiToken, ApiTokenView, AuthResponse, AuthResponseView, LoginRequest,
    RegisterRequest, User, UserView,
};
use crate::platform::{
    argon2_accepts, argon2_digest, argon2_hash, argon2_verify, fresh_id, fresh_salt, now_micros,
    uuid_text, uuid_to_text, CLOCK_END,
};
use crate::seqs::{lemma_first_index, lemma_first_index_is};
use crate::state::{same_user, token_has_value, user_has_email, State};
use crate::store::Store;
use crate::text::{lowercase, to_lowercase, trim, trimmed};

verus! {

/// The normal form of an email.
pub open spec fn normalized(email: Seq<char>) -> Seq<char> {
    lowercase(trimmed(email))
}

/// Whether a normal-form email and a password may register: the email is
/// not empty and the password has at least eight characters.
pub open spec fn acceptable(email: Seq<char>, password: Seq<char>) -> bool {
    email.len() > 0 && password.len() >= 8
}

/// The label of a token: the one asked for, or the default.
pub open spec fn label_or(label: Option<Seq<char>>, default: Seq<char>) -> Seq<char> {
    match label {
        Some(l) => l,
        None => default,
    }
}

/// A token minted for a user.
pub open spec fn minted_token(
    user_id: u128,
    label: Seq<char>,
    token_id: u128,
    value: Seq<char>,
    now: i64,
) -> ApiTokenView {
    ApiTokenView {
        id: token_id,
        label: label,
        token: value,
        user_id: Some(user_id),
        created_at: now,
    }
}

/// Creating a user with a first token, in one step: both rows or neither.
///
/// An email that is registered is a validation failure; an id or a secret
/// that is taken is a storage failure.
pub open spec fn open_account(
    s: State,
    email: Seq<char>,
    digest: Seq<char>,
    label: Option<Seq<char>>,
    user_id: u128,
    token_id: u128,
    value: Seq<char>,
    now: i64,
) -> (State, Result<AuthResponseView, ApiErrorView>) {
    let user = UserView { id: user_id, email: email, password_digest: digest, created_at: now };
    let token = minted_token(user_id, label_or(label, "Default Token"@), token_id, value, now);
    if s.user_by_email(email) is Some {
        (s, Err(ApiErrorView::BadRequest("email already registered"@)))
    } else if s.user_clash(user) || s.token_clash(token) {
        (s, Err(ApiErrorView::Db(DbErrorView::UniqueViolation)))
    } else {
        (s.add_user(user).add_token(token), Ok(AuthResponseView { token: value, user_id: user_id }))
    }
}

/// Registration, given what the environment produced: a salt, three fresh
/// ids and the instant. What is stored of the password is its Argon2
/// digest under the salt; where hashing fails, nothing is stored. The
/// secret of the token is the text of the third id.
pub open spec fn register(
    s: State,
    email: Seq<char>,
    password: Seq<char>,
    label: Option<Seq<char>>,
    salt: Seq<char>,
    user_id: u128,
    token_id: u128,
    secret: u128,
    now: i64,
) -> (State, Result<AuthResponseView, ApiErrorView>) {
    if !acceptable(normalized(email), password) {
        (
            s,
            Err(
                ApiErrorView::BadRequest(
                    "email required and password must be at least 8 characters"@,
                ),
            ),
        )
    } else {
        match argon2_digest(password, salt) {
            None => (s, Err(ApiErrorView::Internal)),
            Some(d) => open_account(
                s,
                normalized(email),
                d,
                label,
                user_id,
                token_id,
                uuid_text(secret),
                now,
            ),
        }
    }
}

/// The end of a login: a token for the user, where the password was
/// accepted. A refused password fails as a missing user does.
pub open spec fn grant_login(
    s: State,
    user_id: u128,
    accepted: bool,
    label: Option<Seq<char>>,
    token_id: u128,
    value: Seq<char>,
    now: i64,
) -> (State, Result<AuthResponseView, ApiErrorView>) {
    let token = minted_token(user_id, label_or(label, "Login Token"@), token_id, value, now);
    if !accepted {
        (s, Err(ApiErrorView::Unauthorized))
    } else if s.token_clash(token) {
        (s, Err(ApiErrorView::Db(DbErrorView::UniqueViolation)))
    } else {
        (s.add_token(token), Ok(AuthResponseView { token: value, user_id: user_id }))
    }
}

/// Login, given two fresh ids and the instant. The secret of the token is
/// the text of the second id.
pub open spec fn login(
    s: State,
    email: Seq<char>,
    password: Seq<char>,
    label: Option<Seq<char>>,
    token_id: u128,
    secret: u128,
    now: i64,
) -> (State, Result<AuthResponseView, ApiErrorView>) {
    match s.user_by_email(normalized(email)) {
        None => (s, Err(ApiErrorView::Unauthorized)),
        Some(user) => grant_login(
            s,
            user.id,
            argon2_accepts(password, user.password_digest),
            label,
            token_id,
            uuid_text(secret),
            now,
        ),
    }
}

/// Seeding a token with a given secret: nothing where a token has the
/// secret, else a new token that belongs to no user.
pub open spec fn seed(s: State, value: Seq<char>, id: u128, now: i64) -> (
    State,
    Result<(), DbErrorView>,
) {
    let token = ApiTokenView {
        id: id,
        label: "Default Admin"@,
        token: value,
        user_id: None,
        created_at: now,
    };
    if s.token_by_value(value) is Some {
        (s, Ok(()))
    } else if s.token_clash(token) {
        (s, Err(DbErrorView::UniqueViolation))
    } else {
        (s.add_token(token), Ok(()))
    }
}

/// The normal form of an email.
pub fn normalize_email(email: &str) -> (r: String)
    ensures
        r@ == normalized(email@),
{
    to_lowercase(trim(email))
}

/// Checks a normal-form email and a password before anything is stored.
pub fn check_registration(email: &str, password: &str) -> (r: Result<(), ApiError>)
    ensures
        acceptable(email@, password@) ==> r is Ok,
        !acceptable(email@, password@) ==> r is Err && r->Err_0@ == ApiErrorView::BadRequest(
            "email required and password must be at least 8 characters"@,
        ),
{
    if email.is_empty() || password.unicode_len() < 8 {
        Err(bad_request("email required and password must be at least 8 characters"))
    } else {
        Ok(())
    }
}

fn label_text(label: &Option<String>, default: &str) -> (r: String)
    ensures
        r@ == label_or(opt_text(*label), default@),
{
    match label {
        Some(l) => l.clone(),
        None => default.to_owned(),
    }
}

/// Creates a user with a first token: both rows, or neither. The secret of
/// the token is the text of the id `secret`.
pub fn create_account(
    store: &mut Store,
    email: String,
    digest: String,
    label: &Option<String>,
    user_id: u128,
    token_id: u128,
    secret: u128,
    now: i64,
) -> (r: Result<AuthResponse, ApiError>)
    ensures
        final(store)@.wf(),
        (final(store)@, outcome(r)) == open_account(
            old(store)@,
            email@,
            digest@,
            opt_text(*label),
            user_id,
            token_id,
            uuid_text(secret),
            now,
        ),
{
    store.constraints();
    let value = uuid_to_text(secret);
    let user = User { id: user_id, email: email, password_digest: digest, created_at: now };
    let token = ApiToken {
        id: token_id,
        label: label_text(label, "Default Token"),
        token: value.clone(),
        user_id: Some(user_id),
        created_at: now,
    };
    if store.find_user_by_email(user.email.as_str()).is_some() {
        return Err(bad_request("email already registered"));
    }
    match store.insert_account(user, token) {
        Ok(_) => Ok(AuthResponse { token: value, user_id: user_id }),
        Err(e) => Err(ApiError::Db(e)),
    }
}

/// Registers a user and mints a first token for it.
///
/// The email is stored in its normal form. Registration fails with
/// `BadRequest` where the email is empty or the password is shorter than
/// eight characters, and where the email is registered; nothing is stored
/// then. Whatever the environment produces, the call does what `register`
/// says for some salt of 22 characters, some ids and some instant.
pub fn register_user(store: &mut Store, payload: &RegisterRequest) -> (r: Result<
    AuthResponse,
    ApiError,
>)
    ensures
        final(store)@.wf(),
        exists|salt: Seq<char>, user_id: u128, token_id: u128, secret: u128, now: i64|
            salt.len() == 22 && 0 <= now < CLOCK_END && (final(store)@, outcome(r))
                == #[trigger] register(
                old(store)@,
                payload.email@,
                payload.password@,
                opt_text(payload.label),
                salt,
                user_id,
                token_id,
                secret,
                now,
            ),
{
    store.constraints();
    let email = normalize_email(payload.email.as_str());
    match check_registration(email.as_str(), payload.password.as_str()) {
        Err(e) => {
            let ghost blank = Seq::new(22, |i: int| '.');
            assert(blank.len() == 22);
            assert((store@, outcome(Err::<AuthResponse, ApiError>(e))) == register(
                old(store)@,
                payload.email@,
                payload.password@,
                opt_text(payload.label),
                blank,
                0,
                0,
                0,
                0,
            ));
            return Err(e);
        },
        Ok(_) => {},
    }
    let salt = fresh_salt();
    let digest = match argon2_hash(payload.password.as_str(), salt.as_str()) {
        Some(digest) => digest,
        None => {
            assert((store@, outcome(Err::<AuthResponse, ApiError>(ApiError::Internal)))
                == register(
                old(store)@,
                payload.email@,
                payload.password@,
                opt_text(payload.label),
                salt@,
                0,
                0,
                0,
                0,
            ));
            return Err(ApiError::Internal);
        },
    };
    let user_id = fresh_id();
    let token_id = fresh_id();
    let secret = fresh_id();
    let now = now_micros();
    let r = create_account(store, email, digest, &payload.label, user_id, token_id, secret, now);
    assert((store@, outcome(r)) == register(
        old(store)@,
        payload.email@,
        payload.password@,
        opt_text(payload.label),
        salt@,
        user_id,
        token_id,
        secret,
        now,
    ));
    r
}

/// Ends a login: mints a token for the user where the password was
/// accepted, and fails with `Unauthorized` where it was not. The secret of
/// the token is the text of the id `secret`.
pub fn complete_login(
    store: &mut Store,
    user_id: u128,
    accepted: bool,
    label: &Option<String>,
    token_id: u128,
    secret: u128,
    now: i64,
) -> (r: Result<AuthResponse, ApiError>)
    ensures
        final(store)@.wf(),
        (final(store)@, outcome(r)) == grant_login(
            old(store)@,
            user_id,
            accepted,
            opt_text(*label),
            token_id,
            uuid_text(secret),
            now,
        ),
{
    store.constraints();
    if !accepted {
        return Err(ApiError::Unauthorized);
    }
    let value = uuid_to_text(secret);
    let token = ApiToken {
        id: token_id,
        label: label_text(label, "Login Token"),
        token: value.clone(),
        user_id: Some(user_id),
        created_at: now,
    };
    match store.insert_token(token) {
        Ok(_) => Ok(AuthResponse { token: value, user_id: user_id }),
        Err(e) => Err(ApiError::Db(e)),
    }
}

/// Logs a user in and mints a further token for it.
///
/// An email that is not registered and a password that the stored digest
/// does not accept fail alike, with `Unauthorized`. Whatever the
/// environment produces, the call does what `login` says for some ids and
/// instant.
pub fn login_user(store: &mut Store, payload: &LoginRequest) -> (r: Result<AuthResponse, ApiError>)
    ensures
        final(store)@.wf(),
        exists|token_id: u128, secret: u128, now: i64|
            0 <= now < CLOCK_END && (final(store)@, outcome(r)) == #[trigger] login(
                old(store)@,
                payload.email@,
                payload.password@,
                opt_text(payload.label),
                token_id,
                secret,
                now,
            ),
{
    store.constraints();
    let email = normalize_email(payload.email.as_str());
    let user = match store.find_user_by_email(email.as_str()) {
        Some(user) => user,
        None => {
            assert((store@, outcome(Err::<AuthResponse, ApiError>(ApiError::Unauthorized)))
                == login(
                old(store)@,
                payload.email@,
                payload.password@,
                opt_text(payload.label),
                0,
                0,
                0,
            ));
            return Err(ApiError::Unauthorized);
        },
    };
    let accepted = argon2_verify(payload.password.as_str(), user.password_digest.as_str());
    let token_id = fresh_id();
    let secret = fresh_id();
    let now = now_micros();
    let r = complete_login(store, user.id, accepted, &payload.label, token_id, secret, now);
    assert((store@, outcome(r)) == login(
        old(store)@,
        payload.email@,
        payload.password@,
        opt_text(payload.label),
        token_id,
        secret,
        now,
    ));
    r
}

/// Seeds a token with the given secret under the id `id`, unless a token
/// has that secret.
pub fn seed_admin_token(store: &mut Store, value: &str, id: u128, now: i64) -> (r: Result<
    (),
    DbError,
>)
    ensures
        final(store)@.wf(),
        (final(store)@, stored(r)) == seed(old(store)@, value@, id, now),
{
    store.constraints();
    if store.find_token_by_value(value).is_some() {
        return Ok(());
    }
    let token = ApiToken {
        id: id,
        label: "Default Admin".to_owned(),
        token: value.to_owned(),
        user_id: None,
        created_at: now,
    };
    store.insert_token(token)
}

/// Makes sure that a token with the given secret exists, as a start-up
/// step that may be repeated.
pub fn ensure_admin_token(store: &mut Store, value: &str) -> (r: Result<(), DbError>)
    ensures
        final(store)@.wf(),
        exists|id: u128, now: i64|
            0 <= now < CLOCK_END && (final(store)@, stored(r)) == #[trigger] seed(
                old(store)@,
                value@,
                id,
                now,
            ),
{
    let id = fresh_id();
    let now = now_micros();
    seed_admin_token(store, value, id, now)
}

/// A registration that succeeds stores the user under the normal form of
/// its email, with the digest of the password, together with the token
/// that it hands out.
pub proof fn lemma_registration_stores(
    s: State,
    email: Seq<char>,
    password: Seq<char>,
    label: Option<Seq<char>>,
    salt: Seq<char>,
    user_id: u128,
    token_id: u128,
    secret: u128,
    now: i64,
)
    requires
        register(s, email, password, label, salt, user_id, token_id, secret, now).1 is Ok,
    ensures
        ({
            let after = register(s, email, password, label, salt, user_id, token_id, secret, now).0;
            &&& after.user_by_email(normalized(email)) == Some(
                UserView {
                    id: user_id,
                    email: normalized(email),
                    password_digest: argon2_digest(password, salt)->Some_0,
                    created_at: now,
                },
            )
            &&& after.users == s.users.push(after.user_by_email(normalized(email))->Some_0)
            &&& after.tokens.len() == s.tokens.len() + 1
            &&& after.tokens.last().token == uuid_text(secret)
            &&& after.tokens.last().user_id == Some(user_id)
        }),
{
    let after = register(s, email, password, label, salt, user_id, token_id, secret, now).0;
    let p = user_has_email(normalized(email));
    let user = UserView {
        id: user_id,
        email: normalized(email),
        password_digest: argon2_digest(password, salt)->Some_0,
        created_at: now,
    };
    assert forall|j: int| 0 <= j < s.users.len() implies !p(#[trigger] after.users[j]) by {
        assert(after.users[j] == s.users[j]);
        assert(!same_user()(s.users[j], user));
    }
    assert(p(after.users[s.users.len() as int]));
    lemma_first_index_is(after.users, p, s.users.len() as int);
}

/// Registering an email whose normal form is registered stores nothing and
/// fails; where the password can be hashed, the failure is a `BadRequest`.
pub proof fn lemma_registered_email_refused(
    s: State,
    email: Seq<char>,
    password: Seq<char>,
    label: Option<Seq<char>>,
    salt: Seq<char>,
    user_id: u128,
    token_id: u128,
    secret: u128,
    now: i64,
)
    requires
        s.user_by_email(normalized(email)) is Some,
    ensures
        register(s, email, password, label, salt, user_id, token_id, secret, now).0 == s,
        register(s, email, password, label, salt, user_id, token_id, secret, now).1 is Err,
        argon2_digest(password, salt) is Some ==> register(
            s,
            email,
            password,
            label,
            salt,
            user_id,
            token_id,
            secret,
            now,
        ).1->Err_0 is BadRequest,
{
}

/// Of two registrations whose emails have the same normal form, the second
/// stores nothing: there is never a second user for one email.
pub proof fn lemma_no_second_registration(
    s: State,
    email: Seq<char>,
    password: Seq<char>,
    label: Option<Seq<char>>,
    salt: Seq<char>,
    user_id: u128,
    token_id: u128,
    secret: u128,
    now: i64,
    email2: Seq<char>,
    password2: Seq<char>,
    label2: Option<Seq<char>>,
    salt2: Seq<char>,
    user_id2: u128,
    token_id2: u128,
    secret2: u128,
    now2: i64,
)
    requires
        normalized(email) == normalized(email2),
        register(s, email, password, label, salt, user_id, token_id, secret, now).1 is Ok,
    ensures
        ({
            let after = register(s, email, password, label, salt, user_id, token_id, secret, now).0;
            let again = register(
                after,
                email2,
                password2,
                label2,
                salt2,
                user_id2,
                token_id2,
                secret2,
                now2,
            );
            &&& again.0 == after
            &&& again.1 is Err
            &&& argon2_digest(password2, salt2) is Some ==> again.1->Err_0 is BadRequest
        }),
{
    lemma_registration_stores(s, email, password, label, salt, user_id, token_id, secret, now);
    let after = register(s, email, password, label, salt, user_id, token_id, secret, now).0;
    lemma_registered_email_refused(
        after,
        email2,
        password2,
        label2,
        salt2,
        user_id2,
        token_id2,
        secret2,
        now2,
    );
}

/// A user who has registered can log in with the same email and password,
/// unless the fresh token collides with one that is there.
pub proof fn lemma_registered_user_logs_in(
    s: State,
    email: Seq<char>,
    password: Seq<char>,
    label: Option<Seq<char>>,
    salt: Seq<char>,
    user_id: u128,
    token_id: u128,
    secret: u128,
    now: i64,
    label2: Option<Seq<char>>,
    token_id2: u128,
    secret2: u128,
    now2: i64,
)
    requires
        register(s, email, password, label, salt, user_id, token_id, secret, now).1 is Ok,
        argon2_accepts(password, argon2_digest(password, salt)->Some_0),
    ensures
        ({
            let after = register(s, email, password, label, salt, user_id, token_id, secret, now).0;
            let token = minted_token(
                user_id,
                label_or(label2, "Login Token"@),
                token_id2,
                uuid_text(secret2),
                now2,
            );
            &&& !after.token_clash(token) ==> login(
                after,
                email,
                password,
                label2,
                token_id2,
                secret2,
                now2,
            ).1 == Ok::<AuthResponseView, ApiErrorView>(
                AuthResponseView { token: uuid_text(secret2), user_id: user_id },
            )
            &&& after.token_clash(token) ==> login(
                after,
                email,
                password,
                label2,
                token_id2,
                secret2,
                now2,
            ).1 == Err::<AuthResponseView, ApiErrorView>(
                ApiErrorView::Db(DbErrorView::UniqueViolation),
            )
        }),
{
    lemma_registration_stores(s, email, password, label, salt, user_id, token_id, secret, now);
}

/// Seeding a secret a second time changes nothing.
pub proof fn lemma_seed_twice(s: State, value: Seq<char>, id: u128, now: i64, id2: u128, now2: i64)
    requires
        seed(s, value, id, now).1 is Ok,
    ensures
        seed(seed(s, value, id, now).0, value, id2, now2) == (
            seed(s, value, id, now).0,
            Ok::<(), DbErrorView>(()),
        ),
{
    let after = seed(s, value, id, now).0;
    if s.token_by_value(value) is None {
        let p = token_has_value(value);
        assert(p(after.tokens[after.tokens.len() - 1]));
        lemma_first_index(after.tokens, p);
    }
}

} // verus!
