//! Learned commands: what an owner has run in a shell, counted, and
//! promoted into the catalog on request.
use vstd::prelude::*;
use vstd::string::*;
use crate::auth::{authenticate, header_bytes, require_token};
use crate::catalog::{
    add_command, added, attach_each, attach_tags, count_of, count_rows, clamp_limit,
    clamp_offset, limit_of, names_of, offset_of, window_bounds,
};
use crate::errors::{bad_request, outcome, ApiError, ApiErrorView, DbErrorView};
use crate::models::{
    copy_opt_text, copy_texts, opt_text, CommandPayload, CommandPayloadView, CommandQuery,
    LearnRequest, LearnedCommand, LearnedCommandView, Page, PageView, PromotePayload,
    PromotePayloadView,
};
use crate::order::{lemma_ordered_push, ordered, place, window};
use crate::platform::{fresh_id, now_micros, CLOCK_END};
use crate::seqs::{keep, lemma_keep_step, views};
use crate::state::State;
use crate::store::Store;
use crate::text::{trim, trimmed};

verus! {

/// A usage count after one more use. The count stops at the largest
/// number that it can hold.
pub open spec fn bumped(usage: i32) -> i32 {
    if usage < i32::MAX {
        (usage + 1) as i32
    } else {
        usage
    }
}

/// Learning that an owner ran a command.
///
/// The command is its text without the white space around it, and must not
/// be empty. Where the owner has run it before, its count goes up by one;
/// else it is stored with a count of one.
pub open spec fn learn(
    s: State,
    owner: u128,
    executed: Seq<char>,
    os: Option<Seq<char>>,
    pwd: Option<Seq<char>>,
    ls_output: Option<Seq<char>>,
    id: u128,
    now: i64,
) -> (State, Result<(), ApiErrorView>) {
    let content = trimmed(executed);
    if content.len() == 0 {
        (s, Err(ApiErrorView::BadRequest("executed_command is required"@)))
    } else {
        match s.learned_by_content(owner, content) {
            Some(known) => (s.set_usage(known.id, bumped(known.usage_count)), Ok(())),
            None => {
                let row = LearnedCommandView {
                    id: id,
                    content: content,
                    os: os,
                    pwd: pwd,
                    ls_output: ls_output,
                    owner_token: owner,
                    usage_count: 1,
                    created_at: now,
                    last_used_at: None,
                };
                if s.learned_clash(row) {
                    (s, Err(ApiErrorView::Db(DbErrorView::UniqueViolation)))
                } else {
                    (s.add_learned(row), Ok(()))
                }
            },
        }
    }
}

/// The learned commands of an owner.
pub open spec fn learned_by(owner: u128) -> spec_fn(LearnedCommandView) -> bool {
    |l: LearnedCommandView| l.owner_token == owner
}

/// A listing by usage: the most used first, the newer of two that are
/// used alike before the older.
pub open spec fn by_usage() -> spec_fn(LearnedCommandView) -> (int, int) {
    |l: LearnedCommandView| (l.usage_count as int, l.created_at as int)
}

/// The page of an owner's learned commands that a query shows.
pub open spec fn learned_page(
    s: State,
    owner: u128,
    limit: Option<i64>,
    offset: Option<i64>,
) -> PageView<LearnedCommandView> {
    let rows = ordered(keep(s.learned, learned_by(owner)), by_usage());
    PageView {
        items: window(rows, limit_of(limit) as int, offset_of(offset) as int),
        total: count_of(rows.len()),
        limit: limit_of(limit),
        offset: offset_of(offset),
    }
}

/// The command that promoting a learned command adds: its text is what was
/// learned, and it is no favourite.
pub open spec fn promoted(l: LearnedCommandView, p: PromotePayloadView) -> CommandPayloadView {
    CommandPayloadView {
        title: p.title,
        text: l.content,
        description: p.description,
        platform: p.platform,
        visibility: p.visibility,
        favorite: Some(false),
        tags: p.tags,
    }
}

/// Promoting a learned command of an owner into the catalog. The new
/// command starts from the usage count of what was learned.
pub open spec fn promote(
    s: State,
    owner: u128,
    learned_id: u128,
    p: PromotePayloadView,
    command_id: u128,
    now: i64,
    fresh: Seq<u128>,
) -> (State, Result<(), ApiErrorView>) {
    match s.owned_learned(learned_id, owner) {
        None => (s, Err(ApiErrorView::NotFound)),
        Some(l) => {
            let stored = added(s, owner, promoted(l, p), l.usage_count, command_id, now);
            match stored.1 {
                Err(e) => (s, Err(e)),
                Ok(_) => attach_each(stored.0, owner, command_id, names_of(p.tags), fresh),
            }
        },
    }
}

/// A usage count after one more use.
pub fn bump(usage: i32) -> (r: i32)
    ensures
        r == bumped(usage),
{
    if usage < i32::MAX {
        usage + 1
    } else {
        usage
    }
}

/// Learns that an owner ran a command; `id` and `now` are the id and the
/// instant of the row where the command is new.
pub fn learn_at(store: &mut Store, owner: u128, payload: &LearnRequest, id: u128, now: i64) -> (r:
    Result<(), ApiError>)
    ensures
        final(store)@.wf(),
        (final(store)@, outcome(r)) == learn(
            old(store)@,
            owner,
            payload.executed_command@,
            opt_text(payload.os),
            opt_text(payload.pwd),
            opt_text(payload.ls_output),
            id,
            now,
        ),
{
    store.constraints();
    let content = trim(payload.executed_command.as_str());
    if content.is_empty() {
        return Err(bad_request("executed_command is required"));
    }
    match store.find_learned(owner, content) {
        Some(known) => {
            store.set_usage(known.id, bump(known.usage_count));
            Ok(())
        },
        None => {
            let row = LearnedCommand {
                id: id,
                content: content.to_owned(),
                os: copy_opt_text(&payload.os),
                pwd: copy_opt_text(&payload.pwd),
                ls_output: copy_opt_text(&payload.ls_output),
                owner_token: owner,
                usage_count: 1,
                created_at: now,
                last_used_at: None,
            };
            match store.insert_learned(row) {
                Ok(_) => Ok(()),
                Err(e) => Err(ApiError::Db(e)),
            }
        },
    }
}

/// Learns a command for the caller that a request presents.
pub fn learn_command(store: &mut Store, header: Option<&[u8]>, payload: &LearnRequest) -> (r:
    Result<(), ApiError>)
    ensures
        final(store)@.wf(),
        match authenticate(old(store)@, header_bytes(header)) {
            Err(e) => final(store)@ == old(store)@ && outcome(r) == Err::<(), ApiErrorView>(e),
            Ok(token) => exists|id: u128, now: i64|
                0 <= now < CLOCK_END && (final(store)@, outcome(r)) == #[trigger] learn(
                    old(store)@,
                    token.id,
                    payload.executed_command@,
                    opt_text(payload.os),
                    opt_text(payload.pwd),
                    opt_text(payload.ls_output),
                    id,
                    now,
                ),
        },
{
    store.constraints();
    let ghost start = store@;
    let token = match require_token(store, header) {
        Ok(token) => token,
        Err(e) => {
            return Err(e);
        },
    };
    let id = fresh_id();
    let now = now_micros();
    let r = learn_at(store, token.id, payload, id, now);
    proof {
        assert(token@.id == token.id);
        assert((store@, outcome(r)) == learn(
            start,
            token@.id,
            payload.executed_command@,
            opt_text(payload.os),
            opt_text(payload.pwd),
            opt_text(payload.ls_output),
            id,
            now,
        ));
    }
    r
}

/// The page of an owner's learned commands that a query shows.
pub fn list_learned_for(store: &Store, owner: u128, query: &CommandQuery) -> (page: Page<
    LearnedCommand,
>)
    ensures
        page@ == learned_page(store@, owner, query.limit, query.offset),
{
    let limit = clamp_limit(query.limit);
    let offset = clamp_offset(query.offset);
    let rows = store.learned();
    let ghost all = store@.learned;
    let ghost p = learned_by(owner);
    let mut out: Vec<LearnedCommand> = Vec::new();
    let mut keys: Vec<(i64, i64)> = Vec::new();
    let mut i: usize = 0;
    proof {
        if all.len() > 0 {
            lemma_keep_step(all, p, 0);
        }
        assert(keep(all.take(0), p) =~= Seq::<LearnedCommandView>::empty());
        assert(views(out@) =~= ordered(keep(all.take(0), p), by_usage()));
    }
    while i < rows.len()
        invariant
            i <= rows.len(),
            views(rows@) == all,
            p == learned_by(owner),
            keys.len() == out.len(),
            forall|j: int|
                0 <= j < out.len() ==> by_usage()((#[trigger] out[j])@) == (
                    keys[j].0 as int,
                    keys[j].1 as int,
                ),
            views(out@) == ordered(keep(all.take(i as int), p), by_usage()),
        decreases rows.len() - i,
    {
        proof {
            lemma_keep_step(all, p, i as int);
            assert(all[i as int] == rows[i as int]@);
        }
        if rows[i].owner_token == owner {
            proof {
                lemma_ordered_push(keep(all.take(i as int), p), by_usage(), all[i as int]);
            }
            place(
                &mut out,
                &mut keys,
                rows[i].copy(),
                (rows[i].usage_count as i64, rows[i].created_at),
                Ghost(by_usage()),
            );
        }
        i = i + 1;
    }
    proof {
        assert(all.take(all.len() as int) =~= all);
    }
    let ghost sorted = views(out@);
    let ghost shown = window(sorted, limit as int, offset as int);
    let (lo, hi) = window_bounds(out.len(), limit, offset);
    let mut items: Vec<LearnedCommand> = Vec::new();
    let mut k: usize = lo;
    while k < hi
        invariant
            lo <= k <= hi <= out.len(),
            views(out@) == sorted,
            shown == sorted.subrange(lo as int, hi as int),
            items.len() == k - lo,
            forall|j: int| 0 <= j < items.len() ==> (#[trigger] items[j])@ == shown[j],
        decreases hi - k,
    {
        assert(shown[k - lo] == out[k as int]@);
        items.push(out[k].copy());
        k = k + 1;
    }
    let page = Page { items: items, total: count_rows(out.len()), limit: limit, offset: offset };
    assert(page@.items =~= learned_page(store@, owner, query.limit, query.offset).items);
    page
}

/// Lists the learned commands of the caller that a request presents.
pub fn list_learned(store: &Store, header: Option<&[u8]>, query: &CommandQuery) -> (r: Result<
    Page<LearnedCommand>,
    ApiError,
>)
    ensures
        match authenticate(store@, header_bytes(header)) {
            Err(e) => outcome(r) == Err::<PageView<LearnedCommandView>, ApiErrorView>(e),
            Ok(token) => outcome(r) == Ok::<PageView<LearnedCommandView>, ApiErrorView>(
                learned_page(store@, token.id, query.limit, query.offset),
            ),
        },
{
    match require_token(store, header) {
        Err(e) => Err(e),
        Ok(token) => Ok(list_learned_for(store, token.id, query)),
    }
}

/// Promotes a learned command of the caller that a request presents into
/// the catalog.
///
/// Fails with `NotFound` where no learned command has this id or the
/// caller does not own it, and with `BadRequest` where the payload names
/// neither level of visibility. Whatever ids and instant the environment
/// produces, the call does what `promote` says for them.
pub fn promote_learned(
    store: &mut Store,
    header: Option<&[u8]>,
    learned_id: u128,
    payload: &PromotePayload,
) -> (r: Result<(), ApiError>)
    ensures
        final(store)@.wf(),
        match authenticate(old(store)@, header_bytes(header)) {
            Err(e) => final(store)@ == old(store)@ && outcome(r) == Err::<(), ApiErrorView>(e),
            Ok(token) => exists|command_id: u128, now: i64, fresh: Seq<u128>|
                {
                    &&& 0 <= now < CLOCK_END
                    &&& fresh.len() <= names_of(payload@.tags).len()
                    &&& r is Ok ==> fresh.len() == names_of(payload@.tags).len()
                    &&& (final(store)@, outcome(r)) == #[trigger] promote(
                        old(store)@,
                        token.id,
                        learned_id,
                        payload@,
                        command_id,
                        now,
                        fresh,
                    )
                },
        },
{
    store.constraints();
    let ghost start = store@;
    let token = match require_token(store, header) {
        Ok(token) => token,
        Err(e) => {
            return Err(e);
        },
    };
    proof {
        assert(token@.id == token.id);
        assert(Seq::<u128>::empty().len() <= names_of(payload@.tags).len());
    }
    let known = match store.find_owned_learned(learned_id, token.id) {
        Some(known) => known,
        None => {
            assert((store@, outcome(Err::<(), ApiError>(ApiError::NotFound))) == promote(
                start,
                token@.id,
                learned_id,
                payload@,
                0,
                0,
                Seq::<u128>::empty(),
            ));
            return Err(ApiError::NotFound);
        },
    };
    let command_id = fresh_id();
    let now = now_micros();
    let draft = CommandPayload {
        title: copy_opt_text(&payload.title),
        text: known.content.clone(),
        description: copy_opt_text(&payload.description),
        platform: payload.platform.clone(),
        visibility: copy_opt_text(&payload.visibility),
        favorite: Some(false),
        tags: match &payload.tags {
            Some(names) => Some(copy_texts(names)),
            None => None,
        },
    };
    assert(draft@ == promoted(known@, payload@));
    match add_command(store, token.id, &draft, known.usage_count, command_id, now) {
        Ok(_) => {},
        Err(e) => {
            assert((store@, outcome(Err::<(), ApiError>(e))) == promote(
                start,
                token@.id,
                learned_id,
                payload@,
                command_id,
                now,
                Seq::<u128>::empty(),
            ));
            return Err(e);
        },
    }
    let ghost kept = store@;
    let r = attach_tags(store, token.id, command_id, &payload.tags);
    proof {
        let fresh = choose|fresh: Seq<u128>|
            {
                &&& fresh.len() <= names_of(payload@.tags).len()
                &&& r is Ok ==> fresh.len() == names_of(payload@.tags).len()
                &&& (store@, outcome(r)) == #[trigger] attach_each(
                    kept,
                    token.id,
                    command_id,
                    names_of(payload@.tags),
                    fresh,
                )
            };
        assert((store@, outcome(r)) == promote(
            start,
            token@.id,
            learned_id,
            payload@,
            command_id,
            now,
            fresh,
        ));
    }
    r
}

} // verus!
