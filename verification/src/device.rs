//! Device codes: short numeric codes, bound to a bearer token, that a second
//! client exchanges for the token's secret. A code is redeemable once, and
//! only before it expires: at the instant of its expiry it is expired.
//!
//! The digits of a code are never reused: a code stays in its table after it
//! was consumed or has expired, and a new code must differ from every code
//! that is there.
use vstd::prelude::*;
use vstd::string::*;
use crate::auth::{authenticate, header_bytes, require_token};
use crate::errors::{bad_request, outcome, ApiError, ApiErrorView, DbError, DbErrorView};
use crate::models::{
    texts, ApiToken, ApiTokenView, DeviceCode, DeviceCodeResponse, DeviceCodeResponseView,
    DeviceCodeView, ExchangeTokenRequest, ExchangeTokenResponse,
};
use crate::platform::{now_micros, random_in, CLOCK_END};
use crate::seqs::{first_index, lemma_first_index, lemma_first_index_is};
use crate::state::{code_is, same_code, State};
use crate::store::Store;

verus! {

/// Microseconds in the ten minutes for which a device code stays
/// redeemable.
pub const DEVICE_CODE_TTL: i64 = 600_000_000;

/// How often `create_device_code` draws digits before it gives up with
/// `Internal`.
pub const MAX_CODE_ATTEMPTS: u32 = 1000;

pub open spec fn is_digit(c: char) -> bool {
    48 <= c as int <= 57
}

/// Whether a text is six decimal digits.
pub open spec fn is_code(s: Seq<char>) -> bool {
    s.len() == 6 && forall|i: int| 0 <= i < 6 ==> is_digit(#[trigger] s[i])
}

/// The store after a code was issued at `now` for a token.
pub open spec fn issue(s: State, token_id: u128, code: Seq<char>, now: i64) -> State {
    s.add_device_code(
        DeviceCodeView {
            code: code,
            token_id: token_id,
            expires_at: (now + DEVICE_CODE_TTL) as i64,
            consumed: false,
        },
    )
}

/// One attempt to redeem a code at `now`: the store after it, and the
/// secret of the bound token or the failure.
///
/// The attempt is one step: it either fails and changes nothing, or marks
/// the code as consumed and hands out the secret.
pub open spec fn redeem(s: State, code: Seq<char>, now: i64) -> (
    State,
    Result<Seq<char>, ApiErrorView>,
) {
    match s.device_code(code) {
        None => (s, Err(ApiErrorView::NotFound)),
        Some(d) => if d.consumed {
            (s, Err(ApiErrorView::BadRequest("code already used"@)))
        } else if d.expires_at <= now {
            (s, Err(ApiErrorView::BadRequest("code expired"@)))
        } else {
            match s.token_by_id(d.token_id) {
                None => (s, Err(ApiErrorView::Db(DbErrorView::RowNotFound))),
                Some(token) => (s.consume(code), Ok(token.token)),
            }
        },
    }
}

/// Six random decimal digits.
pub fn generate_code() -> (code: String)
    ensures
        is_code(code@),
{
    let mut code = String::new();
    let mut i: usize = 0;
    while i < 6
        invariant
            i <= 6,
            code@.len() == i,
            forall|j: int| 0 <= j < i ==> is_digit(#[trigger] code@[j]),
        decreases 6 - i,
    {
        let digit = random_in(0, 9);
        code.push((digit + 48) as char);
        i = i + 1;
    }
    code
}

/// Issues `code` at `now` for a token. The code expires ten minutes later.
///
/// Fails, and changes nothing, where the digits are those of a code that is
/// in the table.
pub fn issue_device_code(store: &mut Store, token: &ApiToken, code: String, now: i64) -> (r:
    Result<DeviceCodeResponse, ApiError>)
    requires
        now + DEVICE_CODE_TTL <= i64::MAX,
    ensures
        final(store)@.wf(),
        match r {
            Ok(issued) => old(store)@.device_code(code@) is None && final(store)@ == issue(
                old(store)@,
                token.id,
                code@,
                now,
            ) && issued.code@ == code@ && issued.expires_at == now + DEVICE_CODE_TTL,
            Err(e) => old(store)@.device_code(code@) is Some && final(store)@ == old(store)@
                && e@ == ApiErrorView::Db(DbErrorView::UniqueViolation),
        },
{
    let expires_at = now + DEVICE_CODE_TTL;
    let row = DeviceCode {
        code: code.clone(),
        token_id: token.id,
        expires_at: expires_at,
        consumed: false,
    };
    proof {
        lemma_code_clash(old(store)@, row@);
    }
    match store.insert_device_code(row) {
        Ok(_) => Ok(DeviceCodeResponse { code: code, expires_at: expires_at }),
        Err(e) => Err(ApiError::Db(e)),
    }
}

/// A new code collides with a code of the table exactly where a lookup of
/// its digits finds one.
pub proof fn lemma_code_clash(s: State, d: DeviceCodeView)
    ensures
        s.code_clash(d) <==> s.device_code(d.code) is Some,
{
    lemma_first_index(s.device_codes, code_is(d.code));
    let k = first_index(s.device_codes, code_is(d.code));
    if s.code_clash(d) {
        let j = choose|j: int|
            0 <= j < s.device_codes.len() && same_code()(
                #[trigger] s.device_codes[j],
                d,
            );
        assert(code_is(d.code)(s.device_codes[j]));
    }
    if k < s.device_codes.len() {
        assert(same_code()(s.device_codes[k], d));
    }
}

/// Whether no code of the store has these digits.
pub open spec fn free_in(s: State) -> spec_fn(Seq<char>) -> bool {
    |digits: Seq<char>| s.device_code(digits) is None
}

/// The index of the first of `draws` that is free in the store; the number
/// of draws where none is.
pub open spec fn first_free(s: State, draws: Seq<Seq<char>>) -> int {
    first_index(draws, free_in(s))
}

/// Issuing, at `now` and for a token, the first of `draws` that is free.
///
/// Fails with `Internal`, and changes nothing, where the expiry would not
/// fit the clock's range, and where every draw is taken.
pub open spec fn issue_first(s: State, token_id: u128, draws: Seq<Seq<char>>, now: i64) -> (
    State,
    Result<DeviceCodeResponseView, ApiErrorView>,
) {
    let k = first_free(s, draws);
    if now + DEVICE_CODE_TTL > i64::MAX || k >= draws.len() {
        (s, Err(ApiErrorView::Internal))
    } else {
        (
            issue(s, token_id, draws[k], now),
            Ok(
                DeviceCodeResponseView {
                    code: draws[k],
                    expires_at: (now + DEVICE_CODE_TTL) as i64,
                },
            ),
        )
    }
}

/// Issues, at `now` and for a token, the first of the candidates that is
/// free.
pub fn issue_first_free(store: &mut Store, token: &ApiToken, candidates: &Vec<String>, now: i64) -> (r:
    Result<DeviceCodeResponse, ApiError>)
    ensures
        final(store)@.wf(),
        (final(store)@, outcome(r)) == issue_first(old(store)@, token.id, texts(candidates@), now),
{
    store.constraints();
    let ghost draws = texts(candidates@);
    if now > i64::MAX - DEVICE_CODE_TTL {
        return Err(ApiError::Internal);
    }
    let mut i: usize = 0;
    while i < candidates.len()
        invariant
            i <= candidates.len(),
            *store == *old(store),
            draws == texts(candidates@),
            now + DEVICE_CODE_TTL <= i64::MAX,
            forall|j: int| 0 <= j < i ==> !free_in(store@)(#[trigger] draws[j]),
        decreases candidates.len() - i,
    {
        assert(draws[i as int] == candidates[i as int]@);
        if store.find_device_code(candidates[i].as_str()).is_none() {
            proof {
                lemma_first_index_is(draws, free_in(store@), i as int);
            }
            return issue_device_code(store, token, candidates[i].clone(), now);
        }
        i = i + 1;
    }
    proof {
        lemma_first_index_is(draws, free_in(store@), i as int);
    }
    Err(ApiError::Internal)
}

/// Issues a device code for the token that the request presents.
///
/// Draws six random digits, again and again until they are free in the
/// store, but at most `MAX_CODE_ATTEMPTS` times; the expiry is ten minutes
/// after the instant that the clock shows. Whatever is drawn, the call does
/// what `issue_first` says for the draws that it made and that instant, and
/// it stops drawing only at a free draw or after `MAX_CODE_ATTEMPTS` draws.
/// So it fails only where `MAX_CODE_ATTEMPTS` draws in a row were taken:
/// never on a store without codes.
pub fn create_device_code(store: &mut Store, header: Option<&[u8]>) -> (r: Result<
    DeviceCodeResponse,
    ApiError,
>)
    ensures
        final(store)@.wf(),
        match authenticate(old(store)@, header_bytes(header)) {
            Err(e) => final(store)@ == old(store)@ && outcome(r) == Err::<
                DeviceCodeResponseView,
                ApiErrorView,
            >(e),
            Ok(token) => exists|now: i64, draws: Seq<Seq<char>>|
                {
                    &&& 0 <= now < CLOCK_END
                    &&& draws.len() <= MAX_CODE_ATTEMPTS
                    &&& forall|i: int| 0 <= i < draws.len() ==> is_code(#[trigger] draws[i])
                    &&& draws.len() < MAX_CODE_ATTEMPTS ==> first_free(old(store)@, draws)
                        < draws.len()
                    &&& (final(store)@, outcome(r)) == #[trigger] issue_first(
                        old(store)@,
                        token.id,
                        draws,
                        now,
                    )
                },
        },
{
    store.constraints();
    let ghost start = store@;
    let token = match require_token(store, header) {
        Ok(token) => token,
        Err(e) => {
            return Err(e);
        },
    };
    proof {
        assert(token@.id == token.id);
    }
    let now = now_micros();
    let ghost mut draws: Seq<Seq<char>> = Seq::empty();
    let mut attempts: u32 = 0;
    while attempts < MAX_CODE_ATTEMPTS
        invariant
            attempts <= MAX_CODE_ATTEMPTS,
            *store == *old(store),
            start == old(store)@,
            store@.wf(),
            0 <= now < CLOCK_END,
            authenticate(old(store)@, header_bytes(header)) == Ok::<ApiTokenView, ApiErrorView>(
                token@,
            ),
            draws.len() == attempts,
            forall|j: int| 0 <= j < draws.len() ==> is_code(#[trigger] draws[j]),
            forall|j: int| 0 <= j < draws.len() ==> !free_in(start)(#[trigger] draws[j]),
        decreases MAX_CODE_ATTEMPTS - attempts,
    {
        let candidate = generate_code();
        let ghost tried = draws;
        proof {
            draws = draws.push(candidate@);
        }
        if store.find_device_code(candidate.as_str()).is_none() {
            proof {
                assert forall|j: int| 0 <= j < attempts implies !free_in(start)(
                    #[trigger] draws[j],
                ) by {
                    assert(draws[j] == tried[j]);
                }
                lemma_first_index_is(draws, free_in(start), attempts as int);
                assert(token@.id == token.id);
            }
            let r = issue_device_code(store, &token, candidate, now);
            proof {
                assert((store@, outcome(r)) == issue_first(start, token@.id, draws, now));
            }
            return r;
        }
        proof {
            assert forall|j: int| 0 <= j < draws.len() implies !free_in(start)(
                #[trigger] draws[j],
            ) && is_code(draws[j]) by {
                if j < attempts {
                    assert(draws[j] == tried[j]);
                }
            }
        }
        attempts = attempts + 1;
    }
    proof {
        lemma_first_index_is(draws, free_in(start), draws.len() as int);
        assert(token@.id == token.id);
        assert((store@, outcome(Err::<DeviceCodeResponse, ApiError>(ApiError::Internal)))
            == issue_first(start, token@.id, draws, now));
    }
    Err(ApiError::Internal)
}

/// Redeems a code at `now`.
///
/// Fails with `NotFound` where the code was never issued, with
/// `BadRequest("code already used")` where it was redeemed before, and with
/// `BadRequest("code expired")` where `now` is not before its expiry.
/// Otherwise the code is consumed and the secret of its token comes back.
pub fn exchange_token_at(store: &mut Store, payload: &ExchangeTokenRequest, now: i64) -> (r:
    Result<ExchangeTokenResponse, ApiError>)
    ensures
        final(store)@.wf(),
        (final(store)@, outcome(r)) == redeem(old(store)@, payload.code@, now),
{
    store.constraints();
    let row = match store.find_device_code(payload.code.as_str()) {
        Some(row) => row,
        None => {
            return Err(ApiError::NotFound);
        },
    };
    if row.consumed {
        return Err(bad_request("code already used"));
    }
    if row.expires_at <= now {
        return Err(bad_request("code expired"));
    }
    let token = match store.find_token_by_id(row.token_id) {
        Some(token) => token,
        None => {
            return Err(ApiError::Db(DbError::RowNotFound));
        },
    };
    store.consume_device_code(payload.code.as_str());
    Ok(ExchangeTokenResponse { token: token.token })
}

/// Redeems a code at the present instant.
pub fn exchange_token(store: &mut Store, payload: &ExchangeTokenRequest) -> (r: Result<
    ExchangeTokenResponse,
    ApiError,
>)
    ensures
        final(store)@.wf(),
        exists|now: i64|
            0 <= now < CLOCK_END && (final(store)@, outcome(r)) == #[trigger] redeem(
                old(store)@,
                payload.code@,
                now,
            ),
{
    let now = now_micros();
    exchange_token_at(store, payload, now)
}

/// Whether an attempt to redeem a code at `now` finds it issued, not yet
/// consumed, `now` before its expiry, and bound to a token that exists.
pub open spec fn redeemable(s: State, code: Seq<char>, now: i64) -> bool {
    match s.device_code(code) {
        Some(d) => !d.consumed && d.expires_at > now && s.token_by_id(d.token_id) is Some,
        None => false,
    }
}

/// The outcomes of attempts to redeem one code, made one after the other at
/// the given instants.
pub open spec fn redeem_each(s: State, code: Seq<char>, times: Seq<i64>) -> Seq<
    Result<Seq<char>, ApiErrorView>,
>
    decreases times.len(),
{
    if times.len() == 0 {
        Seq::empty()
    } else {
        seq![redeem(s, code, times[0]).1] + redeem_each(
            redeem(s, code, times[0]).0,
            code,
            times.drop_first(),
        )
    }
}

/// A failed attempt changes nothing.
pub proof fn lemma_failed_redeem_changes_nothing(s: State, code: Seq<char>, now: i64)
    ensures
        redeem(s, code, now).1 is Err ==> redeem(s, code, now).0 == s,
{
}

/// An attempt on a code at or after its expiry fails, though the code was
/// never consumed.
pub proof fn lemma_expired_code_fails(s: State, code: Seq<char>, now: i64)
    requires
        s.device_code(code) is Some,
        !s.device_code(code)->Some_0.consumed,
        s.device_code(code)->Some_0.expires_at <= now,
    ensures
        redeem(s, code, now) == (
            s,
            Err::<Seq<char>, ApiErrorView>(ApiErrorView::BadRequest("code expired"@)),
        ),
{
}

/// Consuming a code leaves it in place, marked.
pub proof fn lemma_consume_marks(s: State, code: Seq<char>)
    requires
        s.device_code(code) is Some,
    ensures
        s.consume(code).device_code(code) == Some(
            DeviceCodeView { consumed: true, ..s.device_code(code)->Some_0 },
        ),
{
    lemma_first_index(s.device_codes, code_is(code));
    let k = first_index(s.device_codes, code_is(code));
    let after = s.consume(code);
    assert(after.device_codes[k].code == code);
    assert forall|j: int| 0 <= j < k implies !code_is(code)(#[trigger] after.device_codes[j]) by {
        assert(after.device_codes[j] == s.device_codes[j]);
    }
    lemma_first_index_is(after.device_codes, code_is(code), k);
}

/// After a successful attempt the code is consumed, so that every later
/// attempt fails with "code already used", whenever it is made.
pub proof fn lemma_redeemed_once(s: State, code: Seq<char>, first: i64, later: i64)
    requires
        redeem(s, code, first).1 is Ok,
    ensures
        redeem(redeem(s, code, first).0, code, later) == (
            redeem(s, code, first).0,
            Err::<Seq<char>, ApiErrorView>(ApiErrorView::BadRequest("code already used"@)),
        ),
{
    lemma_consume_marks(s, code);
}

/// Every attempt on a consumed code fails with "code already used".
pub proof fn lemma_consumed_code_fails(s: State, code: Seq<char>, times: Seq<i64>)
    requires
        s.device_code(code) is Some,
        s.device_code(code)->Some_0.consumed,
    ensures
        redeem_each(s, code, times).len() == times.len(),
        forall|i: int|
            0 <= i < times.len() ==> #[trigger] redeem_each(s, code, times)[i] == Err::<
                Seq<char>,
                ApiErrorView,
            >(ApiErrorView::BadRequest("code already used"@)),
    decreases times.len(),
{
    if times.len() > 0 {
        lemma_consumed_code_fails(s, code, times.drop_first());
    }
}

/// Of any number of attempts to redeem a code, each made while the code is
/// redeemable as far as time and table go, exactly one succeeds: the first.
/// It hands out the secret of the bound token; every other attempt fails
/// with "code already used".
pub proof fn lemma_exactly_one_redemption(s: State, code: Seq<char>, times: Seq<i64>)
    requires
        times.len() > 0,
        forall|i: int| 0 <= i < times.len() ==> redeemable(s, code, #[trigger] times[i]),
    ensures
        redeem_each(s, code, times).len() == times.len(),
        redeem_each(s, code, times)[0] == Ok::<Seq<char>, ApiErrorView>(
            s.token_by_id(s.device_code(code)->Some_0.token_id)->Some_0.token,
        ),
        forall|i: int|
            1 <= i < times.len() ==> #[trigger] redeem_each(s, code, times)[i] == Err::<
                Seq<char>,
                ApiErrorView,
            >(ApiErrorView::BadRequest("code already used"@)),
{
    assert(redeemable(s, code, times[0]));
    let after = redeem(s, code, times[0]).0;
    lemma_consume_marks(s, code);
    lemma_consumed_code_fails(after, code, times.drop_first());
    let rest = redeem_each(after, code, times.drop_first());
    assert forall|i: int| 1 <= i < times.len() implies #[trigger] redeem_each(s, code, times)[i]
        == Err::<Seq<char>, ApiErrorView>(ApiErrorView::BadRequest("code already used"@)) by {
        assert(redeem_each(s, code, times)[i] == rest[i - 1]);
    }
}

/// Issuing succeeds with the first free draw, and on a store without codes
/// with the first draw: there the random source cannot make it fail.
pub proof fn lemma_issue_succeeds(s: State, token_id: u128, draws: Seq<Seq<char>>, now: i64)
    requires
        now + DEVICE_CODE_TTL <= i64::MAX,
        draws.len() > 0,
    ensures
        first_free(s, draws) < draws.len() ==> issue_first(s, token_id, draws, now).1 is Ok
            && issue_first(s, token_id, draws, now).0 == issue(
            s,
            token_id,
            draws[first_free(s, draws)],
            now,
        ),
        s.device_codes.len() == 0 ==> first_free(s, draws) == 0,
        first_free(s, draws) < draws.len() ==> s.device_code(draws[first_free(s, draws)]) is None,
{
    lemma_first_index(draws, free_in(s));
    if s.device_codes.len() == 0 {
        lemma_first_index(s.device_codes, code_is(draws[0]));
        assert(free_in(s)(draws[0]));
    }
}

} // verus!
