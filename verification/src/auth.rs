//! Bearer-token authentication: from the credential header of a request to
//! the token that it presents.
use vstd::prelude::*;
use vstd::string::*;
use vstd::utf8::{decode_utf8, encode_utf8_decode_utf8, valid_utf8};
use crate::errors::{ApiError, ApiErrorView};
use crate::models::{opt_text, ApiToken, ApiTokenView};
use crate::seqs::opt_view;
use crate::state::State;
use crate::store::Store;
use crate::text::{from_utf8, strip_prefix, trim, trimmed};

verus! {

/// The bytes of a header that may be absent.
pub open spec fn header_bytes(header: Option<&[u8]>) -> Option<Seq<u8>> {
    match header {
        Some(bytes) => Some(bytes@),
        None => None,
    }
}

/// The secret that a credential header presents.
///
/// No header presents none, which is no failure. A header must be UTF-8
/// text that starts with the scheme `Bearer `; what follows the scheme,
/// without the white space around it, is the secret.
pub open spec fn bearer_value(header: Option<Seq<u8>>) -> Result<Option<Seq<char>>, ApiErrorView> {
    match header {
        None => Ok(None),
        Some(bytes) => if !valid_utf8(bytes) {
            Err(ApiErrorView::Unauthorized)
        } else if !"Bearer "@.is_prefix_of(decode_utf8(bytes)) {
            Err(ApiErrorView::Unauthorized)
        } else {
            Ok(Some(trimmed(decode_utf8(bytes).skip("Bearer "@.len() as int))))
        },
    }
}

/// The token that a credential header presents: none without a header, and
/// none where the secret is no token's.
pub open spec fn identify(s: State, header: Option<Seq<u8>>) -> Result<
    Option<ApiTokenView>,
    ApiErrorView,
> {
    match bearer_value(header) {
        Err(e) => Err(e),
        Ok(None) => Ok(None),
        Ok(Some(value)) => Ok(s.token_by_value(value)),
    }
}

/// The token that a credential header presents, where presenting none is a
/// failure.
pub open spec fn authenticate(s: State, header: Option<Seq<u8>>) -> Result<
    ApiTokenView,
    ApiErrorView,
> {
    match identify(s, header) {
        Err(e) => Err(e),
        Ok(None) => Err(ApiErrorView::Unauthorized),
        Ok(Some(token)) => Ok(token),
    }
}

/// Reads the secret out of a credential header.
pub fn bearer_token(header: Option<&[u8]>) -> (r: Result<Option<String>, ApiError>)
    ensures
        match r {
            Ok(value) => bearer_value(header_bytes(header)) == Ok::<
                Option<Seq<char>>,
                ApiErrorView,
            >(opt_text(value)),
            Err(e) => bearer_value(header_bytes(header)) == Err::<
                Option<Seq<char>>,
                ApiErrorView,
            >(e@),
        },
{
    let bytes = match header {
        Some(bytes) => bytes,
        None => {
            return Ok(None);
        },
    };
    let text = match from_utf8(bytes) {
        Some(text) => text,
        None => {
            return Err(ApiError::Unauthorized);
        },
    };
    proof {
        encode_utf8_decode_utf8(text@);
    }
    match strip_prefix(text, "Bearer ") {
        Some(rest) => Ok(Some(trim(rest).to_owned())),
        None => Err(ApiError::Unauthorized),
    }
}

/// The token that a request presents, if it presents one.
///
/// A request without a credential header is anonymous, and so is one whose
/// secret is no token's. Only a header that does not parse is a failure.
pub fn optional_token(store: &Store, header: Option<&[u8]>) -> (r: Result<
    Option<ApiToken>,
    ApiError,
>)
    ensures
        match r {
            Ok(token) => identify(store@, header_bytes(header)) == Ok::<
                Option<ApiTokenView>,
                ApiErrorView,
            >(opt_view(token)),
            Err(e) => identify(store@, header_bytes(header)) == Err::<
                Option<ApiTokenView>,
                ApiErrorView,
            >(e@),
        },
{
    match bearer_token(header) {
        Err(e) => Err(e),
        Ok(None) => Ok(None),
        Ok(Some(value)) => Ok(store.find_token_by_value(value.as_str())),
    }
}

/// The token that a request presents; a request that presents none fails.
pub fn require_token(store: &Store, header: Option<&[u8]>) -> (r: Result<ApiToken, ApiError>)
    ensures
        match r {
            Ok(token) => authenticate(store@, header_bytes(header)) == Ok::<
                ApiTokenView,
                ApiErrorView,
            >(token@),
            Err(e) => authenticate(store@, header_bytes(header)) == Err::<
                ApiTokenView,
                ApiErrorView,
            >(e@),
        },
{
    match optional_token(store, header) {
        Err(e) => Err(e),
        Ok(None) => Err(ApiError::Unauthorized),
        Ok(Some(token)) => Ok(token),
    }
}

} // verus!
