//! The capabilities this library takes from its environment: fresh
//! identifiers, random digits, the clock, and the Argon2 password primitive.
//!
//! Every function here is a thin, unverified call into another crate; its
//! contract is an assumption about that crate, not something proved.
use vstd::prelude::*;

verus! {

/// What `argon2::Argon2::default().hash_password` produces for a password and
/// a salt in B64 text: the PHC string, or `None` where the call fails.
pub uninterp spec fn argon2_digest(password: Seq<char>, salt: Seq<char>) -> Option<Seq<char>>;

/// Whether `argon2::Argon2::default().verify_password` accepts a password
/// against a stored digest. A digest that is no PHC string accepts nothing.
pub uninterp spec fn argon2_accepts(password: Seq<char>, digest: Seq<char>) -> bool;

/// The lower-case hexadecimal digit for a number below sixteen.
pub open spec fn hex_digit(n: int) -> char {
    if n == 0 {
        '0'
    } else if n == 1 {
        '1'
    } else if n == 2 {
        '2'
    } else if n == 3 {
        '3'
    } else if n == 4 {
        '4'
    } else if n == 5 {
        '5'
    } else if n == 6 {
        '6'
    } else if n == 7 {
        '7'
    } else if n == 8 {
        '8'
    } else if n == 9 {
        '9'
    } else if n == 10 {
        'a'
    } else if n == 11 {
        'b'
    } else if n == 12 {
        'c'
    } else if n == 13 {
        'd'
    } else if n == 14 {
        'e'
    } else {
        'f'
    }
}

/// The `k`-th group of four bits of `id`, the most significant group first.
pub open spec fn nibble(id: u128, k: int) -> int {
    ((id >> ((4 * (31 - k)) as u128)) & 0xf) as int
}

/// How many hyphens stand before position `i` of a UUID text.
pub open spec fn hyphens_before(i: int) -> int {
    if i < 8 {
        0
    } else if i < 13 {
        1
    } else if i < 18 {
        2
    } else if i < 23 {
        3
    } else {
        4
    }
}

/// The text of the UUID that packs `id`: its 32 hex digits, the most
/// significant first, with hyphens at positions 8, 13, 18 and 23.
pub open spec fn uuid_text(id: u128) -> Seq<char> {
    Seq::new(
        36,
        |i: int|
            if i == 8 || i == 13 || i == 18 || i == 23 {
                '-'
            } else {
                hex_digit(nibble(id, i - hyphens_before(i)))
            },
    )
}

/// `uuid::Uuid::new_v4`, as the 128-bit number that the UUID packs.
///
/// The value is random; all that is claimed is what the UUID layout fixes:
/// the version nibble is 4 and the variant bits are `10`.
#[verifier::external_body]
pub(crate) fn fresh_id() -> (id: u128)
    ensures
        id & 0xF000_C000_0000_0000_0000u128 == 0x4000_8000_0000_0000_0000u128,
{
    uuid::Uuid::new_v4().as_u128()
}

/// `Display` for the `uuid::Uuid` that packs `id`: the hyphenated
/// lower-case form, 32 hex digits in groups of 8, 4, 4, 4 and 12.
#[verifier::external_body]
pub(crate) fn uuid_to_text(id: u128) -> (text: String)
    ensures
        text@ == uuid_text(id),
{
    uuid::Uuid::from_u128(id).to_string()
}

/// One sample of `rand::distributions::Uniform::new_inclusive(low, high)`
/// drawn from `rand::thread_rng()`. The sample lies in the closed range.
#[verifier::external_body]
pub(crate) fn random_in(low: u8, high: u8) -> (sample: u8)
    requires
        low <= high,
    ensures
        low <= sample <= high,
{
    let mut rng = rand::thread_rng();
    rand::Rng::sample(&mut rng, rand::distributions::Uniform::new_inclusive(low, high))
}

/// More microseconds than lie between the Unix epoch and the last instant
/// that chrono can hold: 262143 years of 366 days. chrono documents
/// December 31 of the year 262142 as its last day.
pub const CLOCK_END: i64 = 8_289_590_803_200_000_000;

/// `chrono::Utc::now`, as microseconds since the Unix epoch
/// (`DateTime::timestamp_micros`). chrono reads the clock as a duration
/// since the epoch, so the result is never negative, and it holds no
/// instant after its last day; it panics on a machine whose clock stands
/// outside that range.
#[verifier::external_body]
pub(crate) fn now_micros() -> (now: i64)
    ensures
        0 <= now < CLOCK_END,
{
    chrono::Utc::now().timestamp_micros()
}

/// `argon2::password_hash::SaltString::generate` over the operating system's
/// generator, as its B64 text: sixteen random bytes, which make 22
/// characters.
#[verifier::external_body]
pub(crate) fn fresh_salt() -> (salt: String)
    ensures
        salt@.len() == 22,
{
    argon2::password_hash::SaltString::generate(&mut rand_core::OsRng).as_str().to_owned()
}

/// `Argon2::default().hash_password` for a password and a salt, printed as a
/// PHC string. The digest is a function of the two texts alone.
#[verifier::external_body]
pub(crate) fn argon2_hash(password: &str, salt: &str) -> (digest: Option<String>)
    ensures
        match digest {
            Some(d) => argon2_digest(password@, salt@) == Some(d@),
            None => argon2_digest(password@, salt@) is None,
        },
{
    let salt = argon2::password_hash::SaltString::from_b64(salt).ok()?;
    let hasher = argon2::Argon2::default();
    match argon2::PasswordHasher::hash_password(&hasher, password.as_bytes(), &salt) {
        Ok(hash) => Some(hash.to_string()),
        Err(_) => None,
    }
}

/// `Argon2::default().verify_password` for a password against a stored
/// digest, parsed with `PasswordHash::new`.
#[verifier::external_body]
pub(crate) fn argon2_verify(password: &str, digest: &str) -> (accepted: bool)
    ensures
        accepted == argon2_accepts(password@, digest@),
{
    match argon2::PasswordHash::new(digest) {
        Ok(parsed) => argon2::PasswordVerifier::verify_password(
            &argon2::Argon2::default(),
            password.as_bytes(),
            &parsed,
        ).is_ok(),
        Err(_) => false,
    }
}

} // verus!
