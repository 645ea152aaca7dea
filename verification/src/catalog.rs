//! The catalog of commands: what a caller may see of it, and how it is
//! listed, searched, extended and pruned.
//!
//! A command is visible to a caller where it is public or where the caller
//! presents the token that owns it. Every listing applies that rule before
//! anything else, and counts only what it would show.
use std::collections::HashMap;
use vstd::prelude::*;
use vstd::string::*;
use crate::auth::{authenticate, header_bytes, identify, optional_token, require_token};
use crate::errors::{bad_request, outcome, ApiError, ApiErrorView, DbErrorView};
use crate::models::{
    copy_opt_text, copy_texts, opt_text, opt_texts, texts, ApiToken, ApiTokenView, Command, CommandPayload,
    CommandPayloadView, CommandQuery, CommandTag, CommandView, CommandWithTags,
    CommandWithTagsView, Page, PageView, SuggestRequest, TagView,
};
use crate::order::{
    key_before, lemma_ordered_push, lemma_ordered_sorted, lemma_ordered_sources, ordered, place,
    window, window_end, window_start,
};
use crate::platform::{fresh_id, now_micros, CLOCK_END};
use crate::seqs::{
    clash, exactly_one, first_index, keep, lemma_distinct_push, lemma_first_index,
    lemma_first_index_is, lemma_keep_none, lemma_keep_sources, lemma_keep_step, opt_view, views,
};
use crate::state::{
    command_has_id, link_of, same_command, same_link, same_tag, tag_has_id, tag_named, State,
};
use crate::store::Store;
use crate::text::{contains, lowercase, occurs_in, same, to_lowercase};

verus! {

/// Whether a command is public.
pub open spec fn is_public(c: CommandView) -> bool {
    c.visibility == "PUBLIC"@
}

/// Whether a caller of this identity may see a command: it is public, or
/// the caller's token owns it.
pub open spec fn visible(c: CommandView, identity: Option<u128>) -> bool {
    is_public(c) || identity == Some(c.owner_token)
}

/// Whether `needle` occurs in `hay` when case is ignored.
pub open spec fn mentions(hay: Seq<char>, needle: Seq<char>) -> bool {
    occurs_in(lowercase(needle), lowercase(hay))
}

/// The associations of a command whose tag exists.
pub open spec fn tagging(s: State, command_id: u128) -> spec_fn(CommandTag) -> bool {
    |l: CommandTag| l.command_id == command_id && s.tag_by_id(l.tag_id) is Some
}

/// The names of the tags of a command, in the order in which they were
/// associated with it.
pub open spec fn tag_names(s: State, command_id: u128) -> Seq<Seq<char>> {
    let links = keep(s.command_tags, tagging(s, command_id));
    Seq::new(links.len(), |i: int| s.tag_by_id(links[i].tag_id)->Some_0.name)
}

/// Whether some text of `names` mentions `needle`.
pub open spec fn any_mentions(names: Seq<Seq<char>>, needle: Seq<char>) -> bool {
    exists|i: int| 0 <= i < names.len() && mentions(#[trigger] names[i], needle)
}

/// The commands that a listing selects: those that the caller may see,
/// whose text mentions `q` where one is given, and one of whose tags
/// mentions `tag` where one is given.
pub open spec fn selected(
    s: State,
    identity: Option<u128>,
    q: Option<Seq<char>>,
    tag: Option<Seq<char>>,
) -> spec_fn(CommandView) -> bool {
    |c: CommandView|
        {
            &&& visible(c, identity)
            &&& q is Some ==> mentions(c.text, q->Some_0)
            &&& tag is Some ==> any_mentions(tag_names(s, c.id), tag->Some_0)
        }
}

/// A listing by recency: the newest command first.
pub open spec fn recency() -> spec_fn(CommandView) -> (int, int) {
    |c: CommandView| (0int, c.created_at as int)
}

/// A listing by popularity: the most used command first, the newer of two
/// that are used alike before the older.
pub open spec fn popularity() -> spec_fn(CommandView) -> (int, int) {
    |c: CommandView| (c.usage_count as int, c.created_at as int)
}

/// The page size that a query asks for: 20 where it names none, and
/// between 1 and 200.
pub open spec fn limit_of(asked: Option<i64>) -> i64 {
    match asked {
        None => 20,
        Some(n) => if n < 1 {
            1
        } else if n > 200 {
            200
        } else {
            n
        },
    }
}

/// The number of rows that a query skips: none where it names none, and
/// never a negative number.
pub open spec fn offset_of(asked: Option<i64>) -> i64 {
    match asked {
        None => 0,
        Some(n) => if n < 0 {
            0
        } else {
            n
        },
    }
}

/// A number of rows as a page reports it.
pub open spec fn count_of(n: nat) -> i64 {
    if n <= i64::MAX {
        n as i64
    } else {
        i64::MAX
    }
}

/// A command as it is handed out.
pub open spec fn with_tags(s: State, c: CommandView) -> CommandWithTagsView {
    CommandWithTagsView {
        id: c.id,
        title: c.title,
        text: c.text,
        description: c.description,
        platform: c.platform,
        visibility: c.visibility,
        favorite: c.favorite,
        usage_count: c.usage_count,
        tags: tag_names(s, c.id),
        created_at: c.created_at,
        last_used_at: c.last_used_at,
    }
}

/// Every command that a query selects for a caller, newest first.
pub open spec fn listing(
    s: State,
    identity: Option<u128>,
    q: Option<Seq<char>>,
    tag: Option<Seq<char>>,
) -> Seq<CommandView> {
    ordered(keep(s.commands, selected(s, identity, q, tag)), recency())
}

/// The page that a query shows a caller.
pub open spec fn list(
    s: State,
    identity: Option<u128>,
    q: Option<Seq<char>>,
    tag: Option<Seq<char>>,
    limit: Option<i64>,
    offset: Option<i64>,
) -> PageView<CommandWithTagsView> {
    let rows = listing(s, identity, q, tag);
    let shown = window(rows, limit_of(limit) as int, offset_of(offset) as int);
    PageView {
        items: Seq::new(shown.len(), |i: int| with_tags(s, shown[i])),
        total: count_of(rows.len()),
        limit: limit_of(limit),
        offset: offset_of(offset),
    }
}

/// The texts that are suggested to a caller for a query: of the commands
/// that the caller may see and whose text mentions the query, the ten most
/// popular.
pub open spec fn suggestions(s: State, identity: Option<u128>, query: Seq<char>) -> Seq<
    Seq<char>,
> {
    let rows = ordered(keep(s.commands, selected(s, identity, Some(query), None)), popularity());
    let shown = window(rows, 10, 0);
    Seq::new(shown.len(), |i: int| shown[i].text)
}

/// The identity that a token stands for.
pub open spec fn identity_of(token: Option<ApiTokenView>) -> Option<u128> {
    match token {
        Some(t) => Some(t.id),
        None => None,
    }
}

/// The names of the tags of one command.
pub fn tags_of(store: &Store, command_id: u128) -> (names: Vec<String>)
    ensures
        texts(names@) == tag_names(store@, command_id),
{
    let links = store.command_tags();
    let ghost all = store@.command_tags;
    let ghost p = tagging(store@, command_id);
    let mut names: Vec<String> = Vec::new();
    let mut i: usize = 0;
    while i < links.len()
        invariant
            i <= links.len(),
            links@ == all,
            all == store@.command_tags,
            p == tagging(store@, command_id),
            names.len() == keep(all.take(i as int), p).len(),
            forall|j: int|
                0 <= j < names.len() ==> (#[trigger] names[j])@ == store@.tag_by_id(
                    keep(all.take(i as int), p)[j].tag_id,
                )->Some_0.name,
        decreases links.len() - i,
    {
        proof {
            lemma_keep_step(all, p, i as int);
        }
        if links[i].command_id == command_id {
            match store.find_tag_by_id(links[i].tag_id) {
                Some(tag) => {
                    names.push(tag.name);
                },
                None => {},
            }
        }
        i = i + 1;
    }
    proof {
        if all.len() > 0 {
            lemma_keep_step(all, p, 0);
        }
        assert(all.take(all.len() as int) =~= all);
        assert(texts(names@) =~= tag_names(store@, command_id));
    }
    names
}

/// The names of the tags of each of the given commands, by the id of the
/// command. A command without tags has no entry.
pub fn load_tags(store: &Store, ids: &Vec<u128>) -> (tags: HashMap<u128, Vec<String>>)
    ensures
        forall|id: u128|
            #![trigger tags@.contains_key(id)]
            #![trigger tag_names(store@, id)]
            tags@.contains_key(id) <==> ids@.contains(id) && tag_names(store@, id).len() > 0,
        forall|id: u128|
            #![trigger tags@.contains_key(id)]
            #![trigger tag_names(store@, id)]
            tags@.contains_key(id) ==> texts(tags@[id]@) == tag_names(store@, id),
{
    broadcast use vstd::std_specs::hash::group_hash_axioms;

    let mut tags: HashMap<u128, Vec<String>> = HashMap::new();
    let mut i: usize = 0;
    while i < ids.len()
        invariant
            i <= ids.len(),
            forall|id: u128|
                #![trigger tags@.contains_key(id)]
                #![trigger tag_names(store@, id)]
                tags@.contains_key(id) <==> ids@.take(i as int).contains(id) && tag_names(
                    store@,
                    id,
                ).len() > 0,
            forall|id: u128|
                #![trigger tags@.contains_key(id)]
                #![trigger tag_names(store@, id)]
                tags@.contains_key(id) ==> texts(tags@[id]@) == tag_names(store@, id),
        decreases ids.len() - i,
    {
        let id = ids[i];
        let names = tags_of(store, id);
        let ghost before = tags@;
        let ghost kept = names@;
        if names.len() > 0 {
            tags.insert(id, names);
        }
        proof {
            let seen = ids@.take(i as int);
            let next = ids@.take(i + 1);
            assert(next =~= seen.push(id));
            assert forall|other: u128|
                #![trigger tags@.contains_key(other)]
                #![trigger tag_names(store@, other)]
                tags@.contains_key(other) <==> next.contains(other) && tag_names(
                    store@,
                    other,
                ).len() > 0 by {
                assert(before.contains_key(other) <==> seen.contains(other) && tag_names(
                    store@,
                    other,
                ).len() > 0);
                if other == id {
                    assert(next[i as int] == id);
                    assert(tag_names(store@, id).len() == texts(kept).len());
                    assert(texts(kept).len() == kept.len());
                    assert(tags@.contains_key(id) <==> kept.len() > 0);
                } else {
                    if seen.contains(other) {
                        let k = choose|k: int| 0 <= k < seen.len() && seen[k] == other;
                        assert(next[k] == other);
                    }
                    if next.contains(other) {
                        let k = choose|k: int| 0 <= k < next.len() && next[k] == other;
                        assert(seen[k] == other);
                    }
                }
            }
        }
        i = i + 1;
    }
    proof {
        assert(ids@.take(ids.len() as int) =~= ids@);
    }
    tags
}

/// Whether a text mentions a needle that is in lower case already.
fn mentions_lowered(hay: &str, needle: &str, Ghost(asked): Ghost<Seq<char>>) -> (r: bool)
    requires
        needle@ == lowercase(asked),
    ensures
        r == mentions(hay@, asked),
{
    let lowered = to_lowercase(hay);
    contains(lowered.as_str(), needle)
}

/// An optional text in lower case.
fn lowered(text: &Option<String>) -> (r: Option<String>)
    ensures
        text is Some <==> r is Some,
        text is Some ==> r->Some_0@ == lowercase(text->Some_0@),
{
    match text {
        Some(t) => Some(to_lowercase(t.as_str())),
        None => None,
    }
}

/// Whether a tag of a command mentions a needle that is in lower case
/// already.
fn tagged_like(store: &Store, command_id: u128, needle: &str, Ghost(asked): Ghost<Seq<char>>) -> (r:
    bool)
    requires
        needle@ == lowercase(asked),
    ensures
        r == any_mentions(tag_names(store@, command_id), asked),
{
    let names = tags_of(store, command_id);
    let ghost all = tag_names(store@, command_id);
    let mut i: usize = 0;
    while i < names.len()
        invariant
            i <= names.len(),
            texts(names@) == all,
            all == tag_names(store@, command_id),
            needle@ == lowercase(asked),
            forall|j: int| 0 <= j < i ==> !mentions(#[trigger] all[j], asked),
        decreases names.len() - i,
    {
        assert(all[i as int] == names[i as int]@);
        if mentions_lowered(names[i].as_str(), needle, Ghost(asked)) {
            return true;
        }
        i = i + 1;
    }
    false
}

/// Whether a query selects a command for a caller. The two needles are in
/// lower case.
fn selects(
    store: &Store,
    c: &Command,
    identity: Option<u128>,
    q: &Option<String>,
    tag: &Option<String>,
    Ghost(asked_q): Ghost<Option<Seq<char>>>,
    Ghost(asked_tag): Ghost<Option<Seq<char>>>,
) -> (r: bool)
    requires
        asked_q is Some <==> q is Some,
        asked_q is Some ==> q->Some_0@ == lowercase(asked_q->Some_0),
        asked_tag is Some <==> tag is Some,
        asked_tag is Some ==> tag->Some_0@ == lowercase(asked_tag->Some_0),
    ensures
        r == selected(store@, identity, asked_q, asked_tag)(c@),
{
    let owned = match identity {
        Some(id) => id == c.owner_token,
        None => false,
    };
    if !owned && !same(c.visibility.as_str(), "PUBLIC") {
        return false;
    }
    match q {
        Some(needle) => {
            if !mentions_lowered(c.text.as_str(), needle.as_str(), Ghost(asked_q->Some_0)) {
                return false;
            }
        },
        None => {},
    }
    match tag {
        Some(needle) => tagged_like(store, c.id, needle.as_str(), Ghost(asked_tag->Some_0)),
        None => true,
    }
}

/// The commands that a query selects for a caller, in order: by
/// popularity, or else by recency.
fn select(
    store: &Store,
    identity: Option<u128>,
    q: &Option<String>,
    tag: &Option<String>,
    by_popularity: bool,
) -> (out: Vec<Command>)
    ensures
        views(out@) == ordered(
            keep(store@.commands, selected(store@, identity, opt_text(*q), opt_text(*tag))),
            if by_popularity {
                popularity()
            } else {
                recency()
            },
        ),
{
    let q_low = lowered(q);
    let tag_low = lowered(tag);
    let rows = store.commands();
    let ghost all = store@.commands;
    let ghost p = selected(store@, identity, opt_text(*q), opt_text(*tag));
    let ghost key = if by_popularity {
        popularity()
    } else {
        recency()
    };
    let mut out: Vec<Command> = Vec::new();
    let mut keys: Vec<(i64, i64)> = Vec::new();
    let mut i: usize = 0;
    proof {
        if all.len() > 0 {
            lemma_keep_step(all, p, 0);
        }
        assert(keep(all.take(0), p) =~= Seq::<CommandView>::empty());
        assert(views(out@) =~= ordered(keep(all.take(0), p), key));
    }
    while i < rows.len()
        invariant
            i <= rows.len(),
            views(rows@) == all,
            all == store@.commands,
            p == selected(store@, identity, opt_text(*q), opt_text(*tag)),
            key == if by_popularity {
                popularity()
            } else {
                recency()
            },
            q is Some <==> q_low is Some,
            q is Some ==> q_low->Some_0@ == lowercase(q->Some_0@),
            tag is Some <==> tag_low is Some,
            tag is Some ==> tag_low->Some_0@ == lowercase(tag->Some_0@),
            keys.len() == out.len(),
            forall|j: int|
                0 <= j < out.len() ==> key((#[trigger] out[j])@) == (
                    keys[j].0 as int,
                    keys[j].1 as int,
                ),
            views(out@) == ordered(keep(all.take(i as int), p), key),
        decreases rows.len() - i,
    {
        proof {
            lemma_keep_step(all, p, i as int);
            assert(all[i as int] == rows[i as int]@);
        }
        if selects(
            store,
            &rows[i],
            identity,
            &q_low,
            &tag_low,
            Ghost(opt_text(*q)),
            Ghost(opt_text(*tag)),
        ) {
            proof {
                lemma_ordered_push(keep(all.take(i as int), p), key, all[i as int]);
            }
            let k = if by_popularity {
                (rows[i].usage_count as i64, rows[i].created_at)
            } else {
                (0i64, rows[i].created_at)
            };
            place(&mut out, &mut keys, rows[i].copy(), k, Ghost(key));
        }
        i = i + 1;
    }
    proof {
        assert(all.take(all.len() as int) =~= all);
    }
    out
}

/// The page size that a query asks for.
pub fn clamp_limit(asked: Option<i64>) -> (limit: i64)
    ensures
        limit == limit_of(asked),
        1 <= limit <= 200,
{
    match asked {
        None => 20,
        Some(n) => if n < 1 {
            1
        } else if n > 200 {
            200
        } else {
            n
        },
    }
}

/// The number of rows that a query skips.
pub fn clamp_offset(asked: Option<i64>) -> (offset: i64)
    ensures
        offset == offset_of(asked),
        offset >= 0,
{
    match asked {
        None => 0,
        Some(n) => if n < 0 {
            0
        } else {
            n
        },
    }
}

/// A number of rows as a page reports it.
pub fn count_rows(n: usize) -> (total: i64)
    ensures
        total == count_of(n as nat),
{
    if n as u64 <= 0x7fff_ffff_ffff_ffffu64 {
        n as i64
    } else {
        0x7fff_ffff_ffff_ffffi64
    }
}

/// The two ends of the window that a page shows of `n` rows.
pub(crate) fn window_bounds(n: usize, limit: i64, offset: i64) -> (ends: (usize, usize))
    requires
        limit >= 0,
        offset >= 0,
    ensures
        ends.0 == window_start(n as int, offset as int),
        ends.1 == window_end(n as int, limit as int, offset as int),
        ends.0 <= ends.1 <= n,
{
    if offset as u64 >= n as u64 {
        (n, n)
    } else {
        let lo = offset as usize;
        if limit as u64 >= (n - lo) as u64 {
            (lo, n)
        } else {
            (lo, lo + limit as usize)
        }
    }
}

/// A command as it is handed out, with the names of its tags.
pub fn attach_names(store: &Store, c: &Command) -> (r: CommandWithTags)
    ensures
        r@ == with_tags(store@, c@),
{
    CommandWithTags {
        id: c.id,
        title: copy_opt_text(&c.title),
        text: c.text.clone(),
        description: copy_opt_text(&c.description),
        platform: c.platform.clone(),
        visibility: c.visibility.clone(),
        favorite: c.favorite,
        usage_count: c.usage_count,
        tags: tags_of(store, c.id),
        created_at: c.created_at,
        last_used_at: c.last_used_at,
    }
}

/// A command as it is handed out, with its tag names taken from a map
/// that holds the names of the tags of this command, if it has any.
fn with_names(c: &Command, tags: &HashMap<u128, Vec<String>>, Ghost(s): Ghost<State>) -> (r:
    CommandWithTags)
    requires
        tags@.contains_key(c.id) <==> tag_names(s, c.id).len() > 0,
        tags@.contains_key(c.id) ==> texts(tags@[c.id]@) == tag_names(s, c.id),
    ensures
        r@ == with_tags(s, c@),
{
    broadcast use vstd::std_specs::hash::group_hash_axioms;

    let names = match tags.get(&c.id) {
        Some(names) => copy_texts(names),
        None => Vec::new(),
    };
    assert(texts(names@) =~= tag_names(s, c.id));
    CommandWithTags {
        id: c.id,
        title: copy_opt_text(&c.title),
        text: c.text.clone(),
        description: copy_opt_text(&c.description),
        platform: c.platform.clone(),
        visibility: c.visibility.clone(),
        favorite: c.favorite,
        usage_count: c.usage_count,
        tags: names,
        created_at: c.created_at,
        last_used_at: c.last_used_at,
    }
}

/// The page that a query shows a caller of the given identity.
pub fn list_for(store: &Store, identity: Option<u128>, query: &CommandQuery) -> (page: Page<
    CommandWithTags,
>)
    ensures
        page@ == list(
            store@,
            identity,
            opt_text(query.q),
            opt_text(query.tag),
            query.limit,
            query.offset,
        ),
{
    let limit = clamp_limit(query.limit);
    let offset = clamp_offset(query.offset);
    let rows = select(store, identity, &query.q, &query.tag, false);
    let ghost all = listing(store@, identity, opt_text(query.q), opt_text(query.tag));
    let ghost shown = window(all, limit as int, offset as int);
    let (lo, hi) = window_bounds(rows.len(), limit, offset);
    assert(shown == all.subrange(lo as int, hi as int));
    let mut ids: Vec<u128> = Vec::new();
    let mut j: usize = lo;
    while j < hi
        invariant
            lo <= j <= hi <= rows.len(),
            ids.len() == j - lo,
            forall|n: int| 0 <= n < ids.len() ==> #[trigger] ids[n] == rows[lo + n].id,
        decreases hi - j,
    {
        ids.push(rows[j].id);
        j = j + 1;
    }
    let tags = load_tags(store, &ids);
    let mut items: Vec<CommandWithTags> = Vec::new();
    let mut k: usize = lo;
    while k < hi
        invariant
            lo <= k <= hi <= rows.len(),
            views(rows@) == all,
            shown == all.subrange(lo as int, hi as int),
            ids.len() == hi - lo,
            forall|n: int| 0 <= n < ids.len() ==> #[trigger] ids[n] == rows[lo + n].id,
            forall|id: u128|
                #![trigger tags@.contains_key(id)]
                #![trigger tag_names(store@, id)]
                tags@.contains_key(id) <==> ids@.contains(id) && tag_names(store@, id).len() > 0,
            forall|id: u128|
                #![trigger tags@.contains_key(id)]
                #![trigger tag_names(store@, id)]
                tags@.contains_key(id) ==> texts(tags@[id]@) == tag_names(store@, id),
            items.len() == k - lo,
            forall|j: int|
                0 <= j < items.len() ==> (#[trigger] items[j])@ == with_tags(store@, shown[j]),
        decreases hi - k,
    {
        assert(shown[k - lo] == rows[k as int]@);
        assert(ids[k - lo] == rows[k as int].id);
        assert(ids@.contains(rows[k as int].id));
        items.push(with_names(&rows[k], &tags, Ghost(store@)));
        k = k + 1;
    }
    let page = Page { items: items, total: count_rows(rows.len()), limit: limit, offset: offset };
    assert(page@.items =~= list(
        store@,
        identity,
        opt_text(query.q),
        opt_text(query.tag),
        query.limit,
        query.offset,
    ).items);
    page
}

fn identity(token: &Option<ApiToken>) -> (id: Option<u128>)
    ensures
        id == identity_of(opt_view(*token)),
{
    match token {
        Some(t) => Some(t.id),
        None => None,
    }
}

/// Lists the catalog for the caller that a request presents.
///
/// A caller without a token, or with a secret that is no token's, sees the
/// public commands only. The page holds the part of the listing that the
/// query's window shows; its total counts the whole listing.
pub fn list_commands(store: &Store, header: Option<&[u8]>, query: &CommandQuery) -> (r: Result<
    Page<CommandWithTags>,
    ApiError,
>)
    ensures
        match identify(store@, header_bytes(header)) {
            Err(e) => outcome(r) == Err::<PageView<CommandWithTagsView>, ApiErrorView>(e),
            Ok(token) => outcome(r) == Ok::<PageView<CommandWithTagsView>, ApiErrorView>(
                list(
                    store@,
                    identity_of(token),
                    opt_text(query.q),
                    opt_text(query.tag),
                    query.limit,
                    query.offset,
                ),
            ),
        },
{
    match optional_token(store, header) {
        Err(e) => Err(e),
        Ok(token) => Ok(list_for(store, identity(&token), query)),
    }
}

/// The texts that are suggested to a caller of the given identity.
pub fn suggest_for(store: &Store, identity: Option<u128>, query: &str) -> (found: Vec<String>)
    ensures
        texts(found@) == suggestions(store@, identity, query@),
{
    let needle = Some(query.to_owned());
    let rows = select(store, identity, &needle, &None, true);
    let ghost all = ordered(
        keep(store@.commands, selected(store@, identity, Some(query@), None)),
        popularity(),
    );
    let ghost shown = window(all, 10, 0);
    let (lo, hi) = window_bounds(rows.len(), 10, 0);
    assert(shown == all.subrange(lo as int, hi as int));
    let mut out: Vec<String> = Vec::new();
    let mut k: usize = lo;
    while k < hi
        invariant
            lo <= k <= hi <= rows.len(),
            views(rows@) == all,
            shown == all.subrange(lo as int, hi as int),
            out.len() == k - lo,
            forall|j: int| 0 <= j < out.len() ==> (#[trigger] out[j])@ == shown[j].text,
        decreases hi - k,
    {
        assert(shown[k - lo] == rows[k as int]@);
        out.push(rows[k].text.clone());
        k = k + 1;
    }
    assert(texts(out@) =~= suggestions(store@, identity, query@));
    out
}

/// Suggests commands to the caller that a request presents.
pub fn suggest_commands(store: &Store, header: Option<&[u8]>, payload: &SuggestRequest) -> (r:
    Result<Vec<String>, ApiError>)
    ensures
        match identify(store@, header_bytes(header)) {
            Err(e) => r is Err && r->Err_0@ == e,
            Ok(token) => r is Ok && texts(r->Ok_0@) == suggestions(
                store@,
                identity_of(token),
                payload.query@,
            ),
        },
{
    match optional_token(store, header) {
        Err(e) => Err(e),
        Ok(token) => Ok(suggest_for(store, identity(&token), payload.query.as_str())),
    }
}

/// Whether a text names one of the two levels of visibility.
pub open spec fn valid_visibility(v: Seq<char>) -> bool {
    v == "PUBLIC"@ || v == "PRIVATE"@
}

/// The visibility that a payload asks for: private where it names none,
/// and a validation failure where it names neither level.
pub open spec fn visibility_of(asked: Option<Seq<char>>) -> Result<Seq<char>, ApiErrorView> {
    let v = match asked {
        Some(v) => v,
        None => "PRIVATE"@,
    };
    if valid_visibility(v) {
        Ok(v)
    } else {
        Err(ApiErrorView::BadRequest("visibility must be PUBLIC or PRIVATE"@))
    }
}

/// The names that a payload's tags hold.
pub open spec fn names_of(tags: Option<Seq<Seq<char>>>) -> Seq<Seq<char>> {
    match tags {
        Some(names) => names,
        None => Seq::empty(),
    }
}

/// Adding a command for an owner, with the usage count that it starts
/// from: the store with it, and the new row.
pub open spec fn added(
    s: State,
    owner: u128,
    p: CommandPayloadView,
    usage: i32,
    command_id: u128,
    now: i64,
) -> (State, Result<CommandView, ApiErrorView>) {
    match visibility_of(p.visibility) {
        Err(e) => (s, Err(e)),
        Ok(visibility) => {
            let c = CommandView {
                id: command_id,
                title: p.title,
                text: p.text,
                description: p.description,
                platform: p.platform,
                visibility: visibility,
                favorite: p.favorite == Some(true),
                usage_count: usage,
                owner_token: owner,
                created_at: now,
                updated_at: now,
                last_used_at: None,
            };
            if s.command_clash(c) {
                (s, Err(ApiErrorView::Db(DbErrorView::UniqueViolation)))
            } else {
                (s.add_command(c), Ok(c))
            }
        },
    }
}

/// Tagging a command with a name: the owner's tag of that name is found, or
/// added under the id `fresh`, and associated with the command unless it
/// is associated already. A command that is not there cannot be tagged.
pub open spec fn attach(s: State, owner: u128, command_id: u128, name: Seq<char>, fresh: u128) -> (
    State,
    Result<(), ApiErrorView>,
) {
    let found = s.upsert_tag(owner, name, fresh);
    match found.1 {
        Ok(tag_id) => {
            let linked = found.0.link(CommandTag { command_id: command_id, tag_id: tag_id });
            match linked.1 {
                Ok(_) => (linked.0, Ok(())),
                Err(e) => (linked.0, Err(ApiErrorView::Db(e))),
            }
        },
        Err(e) => (found.0, Err(ApiErrorView::Db(e))),
    }
}

/// Tagging a command with the first names of a list, one after the other,
/// as many as there are fresh ids, and up to the first failure.
pub open spec fn attach_each(
    s: State,
    owner: u128,
    command_id: u128,
    names: Seq<Seq<char>>,
    fresh: Seq<u128>,
) -> (State, Result<(), ApiErrorView>)
    decreases fresh.len(),
{
    if fresh.len() == 0 {
        (s, Ok(()))
    } else {
        let before = attach_each(s, owner, command_id, names, fresh.drop_last());
        if before.1 is Err {
            before
        } else {
            attach(before.0, owner, command_id, names[fresh.len() - 1], fresh.last())
        }
    }
}

/// Creating a command with its tags.
///
/// The command is stored first; a failure to tag it afterwards leaves it,
/// and the tags attached so far, in place.
pub open spec fn create(
    s: State,
    owner: u128,
    p: CommandPayloadView,
    command_id: u128,
    now: i64,
    fresh: Seq<u128>,
) -> (State, Result<CommandWithTagsView, ApiErrorView>) {
    let stored = added(s, owner, p, 0, command_id, now);
    match stored.1 {
        Err(e) => (s, Err(e)),
        Ok(c) => {
            let tagged = attach_each(stored.0, owner, command_id, names_of(p.tags), fresh);
            match tagged.1 {
                Err(e) => (tagged.0, Err(e)),
                Ok(_) => (tagged.0, Ok(with_tags(tagged.0, c))),
            }
        },
    }
}

/// Deleting a command for an owner. Where no command has this id, and
/// where the command of this id has another owner, the outcome is the same.
pub open spec fn delete(s: State, owner: u128, command_id: u128) -> (
    State,
    Result<(), ApiErrorView>,
) {
    if s.owned_command(command_id, owner) is Some {
        (s.remove_command(command_id, owner), Ok(()))
    } else {
        (s, Err(ApiErrorView::NotFound))
    }
}

/// The visibility that a payload asks for.
pub fn check_visibility(asked: &Option<String>) -> (r: Result<String, ApiError>)
    ensures
        match r {
            Ok(v) => visibility_of(opt_text(*asked)) == Ok::<Seq<char>, ApiErrorView>(v@),
            Err(e) => visibility_of(opt_text(*asked)) == Err::<Seq<char>, ApiErrorView>(e@),
        },
{
    let v = match asked {
        Some(v) => v.clone(),
        None => "PRIVATE".to_owned(),
    };
    if same(v.as_str(), "PUBLIC") || same(v.as_str(), "PRIVATE") {
        Ok(v)
    } else {
        Err(bad_request("visibility must be PUBLIC or PRIVATE"))
    }
}

/// Adds a command for an owner, under the given id and at the given
/// instant, with the usage count that it starts from.
pub fn add_command(
    store: &mut Store,
    owner: u128,
    payload: &CommandPayload,
    usage: i32,
    command_id: u128,
    now: i64,
) -> (r: Result<Command, ApiError>)
    ensures
        final(store)@.wf(),
        (final(store)@, outcome(r)) == added(old(store)@, owner, payload@, usage, command_id, now),
{
    store.constraints();
    let visibility = match check_visibility(&payload.visibility) {
        Ok(v) => v,
        Err(e) => {
            return Err(e);
        },
    };
    let favorite = match payload.favorite {
        Some(f) => f,
        None => false,
    };
    let c = Command {
        id: command_id,
        title: copy_opt_text(&payload.title),
        text: payload.text.clone(),
        description: copy_opt_text(&payload.description),
        platform: payload.platform.clone(),
        visibility: visibility,
        favorite: favorite,
        usage_count: usage,
        owner_token: owner,
        created_at: now,
        updated_at: now,
        last_used_at: None,
    };
    match store.insert_command(c.copy()) {
        Ok(_) => Ok(c),
        Err(e) => Err(ApiError::Db(e)),
    }
}

/// Tags a command with a name; `fresh` is the id of the tag where the name
/// is new to the owner.
pub fn attach_tag(store: &mut Store, owner: u128, command_id: u128, name: &str, fresh: u128) -> (r:
    Result<(), ApiError>)
    ensures
        final(store)@.wf(),
        (final(store)@, outcome(r)) == attach(old(store)@, owner, command_id, name@, fresh),
{
    match store.upsert_tag(owner, name, fresh) {
        Ok(tag_id) => match store.link_tag(command_id, tag_id) {
            Ok(_) => Ok(()),
            Err(e) => Err(ApiError::Db(e)),
        },
        Err(e) => Err(ApiError::Db(e)),
    }
}

/// Tags a command with every name of a list, each new tag under a fresh
/// random id, and stops at the first failure.
pub fn attach_tags(
    store: &mut Store,
    owner: u128,
    command_id: u128,
    names: &Option<Vec<String>>,
) -> (r: Result<(), ApiError>)
    ensures
        final(store)@.wf(),
        exists|fresh: Seq<u128>|
            {
                &&& fresh.len() <= names_of(opt_texts(*names)).len()
                &&& r is Ok ==> fresh.len() == names_of(opt_texts(*names)).len()
                &&& (final(store)@, outcome(r)) == #[trigger] attach_each(
                    old(store)@,
                    owner,
                    command_id,
                    names_of(opt_texts(*names)),
                    fresh,
                )
            },
{
    store.constraints();
    let ghost all = names_of(opt_texts(*names));
    let ghost start = store@;
    let list = match names {
        Some(list) => list,
        None => {
            assert((store@, outcome(Ok::<(), ApiError>(()))) == attach_each(
                start,
                owner,
                command_id,
                all,
                Seq::<u128>::empty(),
            ));
            return Ok(());
        },
    };
    let ghost mut fresh: Seq<u128> = Seq::empty();
    let mut i: usize = 0;
    while i < list.len()
        invariant
            i <= list.len(),
            all == texts(list@),
            all == names_of(opt_texts(*names)),
            start == old(store)@,
            fresh.len() == i,
            store@.wf(),
            (store@, Ok::<(), ApiErrorView>(())) == attach_each(start, owner, command_id, all, fresh),
        decreases list.len() - i,
    {
        let id = fresh_id();
        let ghost before = fresh;
        proof {
            fresh = fresh.push(id);
            assert(fresh.drop_last() =~= before);
            assert(all[i as int] == list[i as int]@);
        }
        match attach_tag(store, owner, command_id, list[i].as_str(), id) {
            Ok(_) => {},
            Err(e) => {
                assert((store@, outcome(Err::<(), ApiError>(e))) == attach_each(
                    start,
                    owner,
                    command_id,
                    all,
                    fresh,
                ));
                return Err(e);
            },
        }
        i = i + 1;
    }
    assert((store@, outcome(Ok::<(), ApiError>(()))) == attach_each(
        start,
        owner,
        command_id,
        all,
        fresh,
    ));
    Ok(())
}

/// Creates a command for the caller that a request presents.
///
/// The caller must present a token; the command belongs to that token. The
/// visibility is private unless the payload names one, and a payload that
/// names neither level fails with `BadRequest` before anything is stored.
/// Whatever ids and instant the environment produces, the call does what
/// `create` says for them.
pub fn create_command(
    store: &mut Store,
    header: Option<&[u8]>,
    payload: &CommandPayload,
) -> (r: Result<CommandWithTags, ApiError>)
    ensures
        final(store)@.wf(),
        match authenticate(old(store)@, header_bytes(header)) {
            Err(e) => final(store)@ == old(store)@ && outcome(r) == Err::<
                CommandWithTagsView,
                ApiErrorView,
            >(e),
            Ok(token) => exists|command_id: u128, now: i64, fresh: Seq<u128>|
                {
                    &&& 0 <= now < CLOCK_END
                    &&& fresh.len() <= names_of(payload@.tags).len()
                    &&& r is Ok ==> fresh.len() == names_of(payload@.tags).len()
                    &&& (final(store)@, outcome(r)) == #[trigger] create(
                        old(store)@,
                        token.id,
                        payload@,
                        command_id,
                        now,
                        fresh,
                    )
                },
        },
{
    store.constraints();
    let ghost start = store@;
    let token = match require_token(store, header) {
        Ok(token) => token,
        Err(e) => {
            return Err(e);
        },
    };
    assert(authenticate(start, header_bytes(header)) == Ok::<
        ApiTokenView,
        ApiErrorView,
    >(token@));
    let command_id = fresh_id();
    let now = now_micros();
    let c = match add_command(store, token.id, payload, 0, command_id, now) {
        Ok(c) => c,
        Err(e) => {
            assert(token@.id == token.id);
            assert(Seq::<u128>::empty().len() <= names_of(payload@.tags).len());
            assert((store@, outcome(Err::<CommandWithTags, ApiError>(e))) == create(
                start,
                token@.id,
                payload@,
                command_id,
                now,
                Seq::<u128>::empty(),
            ));
            return Err(e);
        },
    };
    let ghost kept = store@;
    match attach_tags(store, token.id, command_id, &payload.tags) {
        Ok(_) => {
            let answer = attach_names(store, &c);
            proof {
                let fresh = choose|fresh: Seq<u128>|
                    {
                        &&& fresh.len() == names_of(payload@.tags).len()
                        &&& (store@, Ok::<(), ApiErrorView>(())) == #[trigger] attach_each(
                            kept,
                            token.id,
                            command_id,
                            names_of(payload@.tags),
                            fresh,
                        )
                    };
                assert(token@.id == token.id);
                assert((store@, outcome(Ok::<CommandWithTags, ApiError>(answer))) == create(
                    start,
                    token@.id,
                    payload@,
                    command_id,
                    now,
                    fresh,
                ));
            }
            Ok(answer)
        },
        Err(e) => {
            proof {
                let fresh = choose|fresh: Seq<u128>|
                    {
                        &&& fresh.len() <= names_of(payload@.tags).len()
                        &&& (store@, Err::<(), ApiErrorView>(e@)) == #[trigger] attach_each(
                            kept,
                            token.id,
                            command_id,
                            names_of(payload@.tags),
                            fresh,
                        )
                    };
                assert(token@.id == token.id);
                assert((store@, outcome(Err::<CommandWithTags, ApiError>(e))) == create(
                    start,
                    token@.id,
                    payload@,
                    command_id,
                    now,
                    fresh,
                ));
            }
            Err(e)
        },
    }
}

/// Deletes a command for an owner.
pub fn delete_owned(store: &mut Store, owner: u128, command_id: u128) -> (r: Result<(), ApiError>)
    ensures
        final(store)@.wf(),
        (final(store)@, outcome(r)) == delete(old(store)@, owner, command_id),
{
    if store.delete_command(command_id, owner) == 0 {
        Err(ApiError::NotFound)
    } else {
        Ok(())
    }
}

/// Deletes a command for the caller that a request presents.
///
/// Succeeds only where a command has this id and the caller's token owns
/// it; otherwise fails with `NotFound`, whether or not the id exists.
pub fn delete_command(store: &mut Store, header: Option<&[u8]>, command_id: u128) -> (r: Result<
    (),
    ApiError,
>)
    ensures
        final(store)@.wf(),
        match authenticate(old(store)@, header_bytes(header)) {
            Err(e) => final(store)@ == old(store)@ && outcome(r) == Err::<(), ApiErrorView>(e),
            Ok(token) => (final(store)@, outcome(r)) == delete(old(store)@, token.id, command_id),
        },
{
    store.constraints();
    match require_token(store, header) {
        Ok(token) => delete_owned(store, token.id, command_id),
        Err(e) => Err(e),
    }
}

/// Every row of a listing is a command of the store that the query
/// selects, and so one that the caller may see.
pub proof fn lemma_listing_selected(
    s: State,
    identity: Option<u128>,
    q: Option<Seq<char>>,
    tag: Option<Seq<char>>,
)
    ensures
        listing(s, identity, q, tag).len() == keep(s.commands, selected(s, identity, q, tag)).len(),
        forall|i: int|
            0 <= i < listing(s, identity, q, tag).len() ==> {
                &&& s.commands.contains(#[trigger] listing(s, identity, q, tag)[i])
                &&& selected(s, identity, q, tag)(listing(s, identity, q, tag)[i])
                &&& visible(listing(s, identity, q, tag)[i], identity)
            },
{
    let p = selected(s, identity, q, tag);
    let kept = keep(s.commands, p);
    let from = lemma_keep_sources(s.commands, p);
    let (src, dst) = lemma_ordered_sources(kept, recency());
    let rows = listing(s, identity, q, tag);
    assert forall|i: int| 0 <= i < rows.len() implies {
        &&& s.commands.contains(#[trigger] rows[i])
        &&& p(rows[i])
        &&& visible(rows[i], identity)
    } by {
        let k = src[i];
        assert(rows[i] == kept[k]);
        assert(kept[k] == s.commands[from[k]]);
    }
}

/// A command that the caller may not see is on no page: no item of any
/// page that the caller is shown has its id.
pub proof fn lemma_hidden_command_not_shown(
    s: State,
    identity: Option<u128>,
    q: Option<Seq<char>>,
    tag: Option<Seq<char>>,
    limit: Option<i64>,
    offset: Option<i64>,
    k: int,
)
    requires
        s.wf(),
        0 <= k < s.commands.len(),
        !visible(s.commands[k], identity),
    ensures
        forall|i: int|
            0 <= i < list(s, identity, q, tag, limit, offset).items.len() ==> (#[trigger] list(
                s,
                identity,
                q,
                tag,
                limit,
                offset,
            ).items[i]).id != s.commands[k].id,
{
    lemma_listing_selected(s, identity, q, tag);
    let rows = listing(s, identity, q, tag);
    let shown = window(rows, limit_of(limit) as int, offset_of(offset) as int);
    let lo = window_start(rows.len() as int, offset_of(offset) as int);
    let page = list(s, identity, q, tag, limit, offset);
    assert forall|i: int| 0 <= i < page.items.len() implies (#[trigger] page.items[i]).id
        != s.commands[k].id by {
        assert(page.items[i] == with_tags(s, shown[i]));
        assert(shown[i] == rows[lo + i]);
        assert(s.commands.contains(rows[lo + i]));
        let j = choose|j: int| 0 <= j < s.commands.len() && s.commands[j] == rows[lo + i];
        assert(visible(s.commands[j], identity));
        if j < k {
            assert(!same_command()(s.commands[j], s.commands[k]));
        } else if k < j {
            assert(!same_command()(s.commands[k], s.commands[j]));
        }
    }
}

/// A public command that a query's filters match is in the listing of
/// every caller, whoever the caller is.
pub proof fn lemma_public_command_listed(
    s: State,
    identity: Option<u128>,
    q: Option<Seq<char>>,
    tag: Option<Seq<char>>,
    k: int,
)
    requires
        0 <= k < s.commands.len(),
        is_public(s.commands[k]),
        selected(s, None, q, tag)(s.commands[k]),
    ensures
        listing(s, identity, q, tag).contains(s.commands[k]),
{
    let p = selected(s, identity, q, tag);
    let kept = keep(s.commands, p);
    assert(p(s.commands[k]));
    let from = lemma_keep_sources(s.commands, p);
    let i = choose|i: int| 0 <= i < from.len() && #[trigger] from[i] == k;
    let (src, dst) = lemma_ordered_sources(kept, recency());
    assert(listing(s, identity, q, tag)[dst[i]] == kept[i]);
}

/// A listing is in order: no command stands behind one that is older.
pub proof fn lemma_listing_newest_first(
    s: State,
    identity: Option<u128>,
    q: Option<Seq<char>>,
    tag: Option<Seq<char>>,
)
    ensures
        forall|i: int, j: int|
            0 <= i < j < listing(s, identity, q, tag).len() ==> (#[trigger] listing(
                s,
                identity,
                q,
                tag,
            )[i]).created_at >= (#[trigger] listing(s, identity, q, tag)[j]).created_at,
{
    let kept = keep(s.commands, selected(s, identity, q, tag));
    lemma_ordered_sorted(kept, recency());
    let rows = listing(s, identity, q, tag);
    assert forall|i: int, j: int| 0 <= i < j < rows.len() implies (#[trigger] rows[i]).created_at
        >= (#[trigger] rows[j]).created_at by {
        assert(!key_before(recency()(rows[j]), recency()(rows[i])));
    }
}

/// The total of a page is the number of commands that the query selects,
/// whatever window the query asks for; and a window that starts behind
/// the last row shows nothing.
pub proof fn lemma_total_ignores_window(
    s: State,
    identity: Option<u128>,
    q: Option<Seq<char>>,
    tag: Option<Seq<char>>,
    limit: Option<i64>,
    offset: Option<i64>,
    other_limit: Option<i64>,
    other_offset: Option<i64>,
)
    ensures
        list(s, identity, q, tag, limit, offset).total == count_of(
            keep(s.commands, selected(s, identity, q, tag)).len(),
        ),
        list(s, identity, q, tag, limit, offset).total == list(
            s,
            identity,
            q,
            tag,
            other_limit,
            other_offset,
        ).total,
        offset_of(offset) >= keep(s.commands, selected(s, identity, q, tag)).len() ==> list(
            s,
            identity,
            q,
            tag,
            limit,
            offset,
        ).items.len() == 0,
        list(s, identity, q, tag, limit, offset).items.len() <= limit_of(limit),
{
    lemma_listing_selected(s, identity, q, tag);
}

/// What tagging a command leaves behind: the owner has a tag of that
/// name, and the tag is associated with the command.
pub proof fn lemma_attached(s: State, owner: u128, command_id: u128, name: Seq<char>, fresh: u128)
    requires
        attach(s, owner, command_id, name, fresh).1 is Ok,
    ensures
        ({
            let after = attach(s, owner, command_id, name, fresh).0;
            &&& after.has_command(command_id)
            &&& after.tag_by_name(owner, name) is Some
            &&& after.tag_by_name(owner, name)->Some_0.id == s.upsert_tag(owner, name, fresh).1->Ok_0
            &&& after.tags == s.upsert_tag(owner, name, fresh).0.tags
            &&& after.linked(
                CommandTag {
                    command_id: command_id,
                    tag_id: after.tag_by_name(owner, name)->Some_0.id,
                },
            )
        }),
{
    let found = s.upsert_tag(owner, name, fresh);
    let p = tag_named(owner, name);
    lemma_first_index(s.tags, p);
    if s.tag_by_name(owner, name) is None {
        assert(p(found.0.tags[s.tags.len() as int]));
        assert forall|j: int| 0 <= j < s.tags.len() implies !p(#[trigger] found.0.tags[j]) by {
            assert(found.0.tags[j] == s.tags[j]);
        }
        lemma_first_index_is(found.0.tags, p, s.tags.len() as int);
    }
    let l = CommandTag { command_id: command_id, tag_id: found.1->Ok_0 };
    let after = found.0.link(l).0;
    if !found.0.linked(l) {
        assert(same_link()(after.command_tags[found.0.command_tags.len() as int], l));
    }
}

/// Tagging a command twice with one name is tagging it once: the second
/// time nothing is added, neither a tag nor an association.
pub proof fn lemma_attach_twice(
    s: State,
    owner: u128,
    command_id: u128,
    name: Seq<char>,
    fresh: u128,
    other: u128,
)
    requires
        attach(s, owner, command_id, name, fresh).1 is Ok,
    ensures
        attach(attach(s, owner, command_id, name, fresh).0, owner, command_id, name, other) == (
            attach(s, owner, command_id, name, fresh).0,
            Ok::<(), ApiErrorView>(()),
        ),
{
    lemma_attached(s, owner, command_id, name, fresh);
}

/// Tagging a second command with a name that the owner has used adds no
/// tag: the two commands share the one tag of that name.
pub proof fn lemma_attach_shares_tag(
    s: State,
    owner: u128,
    command_id: u128,
    name: Seq<char>,
    fresh: u128,
)
    requires
        s.tag_by_name(owner, name) is Some,
        s.has_command(command_id),
    ensures
        attach(s, owner, command_id, name, fresh).1 is Ok,
        attach(s, owner, command_id, name, fresh).0.tags == s.tags,
{
}

/// Tagging keeps the constraints: no owner has two tags of one name, no
/// tag is associated twice with one command, and no association is
/// without its command.
pub proof fn lemma_attach_keeps_constraints(
    s: State,
    owner: u128,
    command_id: u128,
    name: Seq<char>,
    fresh: u128,
)
    requires
        s.wf(),
    ensures
        attach(s, owner, command_id, name, fresh).0.wf(),
{
    let found = s.upsert_tag(owner, name, fresh);
    lemma_first_index(s.tags, tag_named(owner, name));
    lemma_first_index(s.tags, tag_has_id(fresh));
    if s.tag_by_name(owner, name) is None && s.tag_by_id(fresh) is None {
        let t = TagView { id: fresh, name: name, owner_token: owner };
        assert(!clash(s.tags, same_tag(), t)) by {
            if clash(s.tags, same_tag(), t) {
                let j = choose|j: int|
                    0 <= j < s.tags.len() && same_tag()(#[trigger] s.tags[j], t);
                assert(!tag_named(owner, name)(s.tags[j]));
                assert(!tag_has_id(fresh)(s.tags[j]));
            }
        }
        lemma_distinct_push(s.tags, same_tag(), t);
    }
    assert(found.0.anchored());
    if found.1 is Ok {
        let l = CommandTag { command_id: command_id, tag_id: found.1->Ok_0 };
        let after = found.0.link(l).0;
        if found.0.has_command(command_id) && !found.0.linked(l) {
            lemma_distinct_push(found.0.command_tags, same_link(), l);
            assert forall|j: int| 0 <= j < after.command_tags.len() implies after.has_command(
                (#[trigger] after.command_tags[j]).command_id,
            ) by {
                if j < found.0.command_tags.len() {
                    assert(after.command_tags[j] == found.0.command_tags[j]);
                }
            }
        }
    }
}

/// Adding a command keeps the constraints, and the new command starts
/// without associations.
pub proof fn lemma_add_command(s: State, c: CommandView)
    requires
        s.wf(),
        !s.command_clash(c),
    ensures
        s.add_command(c).wf(),
        s.add_command(c).has_command(c.id),
        forall|j: int| 0 <= j < s.command_tags.len() ==> (#[trigger] s.command_tags[j]).command_id != c.id,
{
    let after = s.add_command(c);
    lemma_distinct_push(s.commands, same_command(), c);
    assert(command_has_id(c.id)(after.commands[s.commands.len() as int]));
    assert forall|j: int| 0 <= j < s.command_tags.len() implies (
    #[trigger] s.command_tags[j]).command_id != c.id && after.has_command(
        s.command_tags[j].command_id,
    ) by {
        let id = s.command_tags[j].command_id;
        assert(s.has_command(id));
        let k = choose|k: int|
            0 <= k < s.commands.len() && command_has_id(id)(#[trigger] s.commands[k]);
        assert(after.commands[k] == s.commands[k]);
        if id == c.id {
            assert(same_command()(s.commands[k], c));
        }
    }
    assert forall|j: int| 0 <= j < after.command_tags.len() implies after.has_command(
        (#[trigger] after.command_tags[j]).command_id,
    ) by {
        assert(after.command_tags[j] == s.command_tags[j]);
    }
}

/// A command that is created with one name twice among its tags has that
/// name once: where the creation succeeds, the owner has exactly one tag
/// of the name, the command has exactly one association, with that tag,
/// and the answer holds the name once. A tag that the owner had is used
/// again.
pub proof fn lemma_create_tags_once(
    s: State,
    owner: u128,
    p: CommandPayloadView,
    command_id: u128,
    now: i64,
    fresh: Seq<u128>,
    name: Seq<char>,
)
    requires
        s.wf(),
        names_of(p.tags) == seq![name, name],
        fresh.len() == 2,
        create(s, owner, p, command_id, now, fresh).1 is Ok,
    ensures
        ({
            let after = create(s, owner, p, command_id, now, fresh).0;
            let answer = create(s, owner, p, command_id, now, fresh).1->Ok_0;
            &&& after.wf()
            &&& exactly_one(after.tags, tag_named(owner, name))
            &&& s.tag_by_name(owner, name) is Some ==> after.tags == s.tags
            &&& after.tags.len() <= s.tags.len() + 1
            &&& after.commands == s.commands.push(added(s, owner, p, 0, command_id, now).1->Ok_0)
            &&& after.command_tags == s.command_tags.push(
                CommandTag {
                    command_id: command_id,
                    tag_id: after.tag_by_name(owner, name)->Some_0.id,
                },
            )
            &&& exactly_one(after.command_tags, link_of(command_id))
            &&& answer.id == command_id
            &&& answer.tags == seq![name]
        }),
{
    let names = names_of(p.tags);
    let c = added(s, owner, p, 0, command_id, now).1->Ok_0;
    let s1 = s.add_command(c);
    lemma_add_command(s, c);
    reveal_with_fuel(attach_each, 3);
    let one = fresh.drop_last();
    assert(one.len() == 1);
    assert(one.drop_last().len() == 0);
    assert(one.last() == fresh[0]);
    assert(names[0] == name && names[1] == name);
    let first = attach(s1, owner, command_id, name, fresh[0]);
    assert(attach_each(s1, owner, command_id, names, one) == first);
    assert(first.1 is Ok);
    lemma_attach_twice(s1, owner, command_id, name, fresh[0], fresh[1]);
    let after = first.0;
    assert(create(s, owner, p, command_id, now, fresh).0 == after);
    lemma_attach_keeps_constraints(s1, owner, command_id, name, fresh[0]);
    lemma_attached(s1, owner, command_id, name, fresh[0]);
    let named = tag_named(owner, name);
    lemma_first_index(after.tags, named);
    let k = first_index(after.tags, named);
    let tag_id = after.tags[k].id;
    assert forall|j: int| 0 <= j < after.tags.len() && named(#[trigger] after.tags[j]) implies j
        == k by {
        if j < k {
            assert(!same_tag()(after.tags[j], after.tags[k]));
        } else if k < j {
            assert(!same_tag()(after.tags[k], after.tags[j]));
        }
    }
    assert(named(after.tags[k]));
    let l = CommandTag { command_id: command_id, tag_id: tag_id };
    let found = s1.upsert_tag(owner, name, fresh[0]);
    assert(found.0.command_tags == s.command_tags);
    assert(!found.0.linked(l)) by {
        if found.0.linked(l) {
            let j = choose|j: int|
                0 <= j < s.command_tags.len() && same_link()(#[trigger] s.command_tags[j], l);
            assert(s.command_tags[j].command_id != command_id);
        }
    }
    assert(found.0.has_command(command_id));
    assert(after.command_tags == s.command_tags.push(l));
    let n = s.command_tags.len() as int;
    assert(link_of(command_id)(after.command_tags[n]));
    assert forall|j: int|
        0 <= j < after.command_tags.len() && link_of(command_id)(
            #[trigger] after.command_tags[j],
        ) implies j == n by {
        if j < n {
            assert(after.command_tags[j] == s.command_tags[j]);
        }
    }
    let q = tagging(after, command_id);
    lemma_first_index(after.tags, tag_has_id(tag_id));
    let by_id = first_index(after.tags, tag_has_id(tag_id));
    assert(tag_has_id(tag_id)(after.tags[k]));
    if by_id < k {
        assert(!same_tag()(after.tags[by_id], after.tags[k]));
    } else if k < by_id {
        assert(!same_tag()(after.tags[k], after.tags[by_id]));
    }
    assert(after.tag_by_id(tag_id) == Some(after.tags[k]));
    assert forall|j: int| 0 <= j < s.command_tags.len() implies !q(#[trigger] s.command_tags[j]) by {
        assert(s.command_tags[j].command_id != command_id);
    }
    lemma_keep_none(s.command_tags, q);
    assert(after.command_tags.drop_last() =~= s.command_tags);
    assert(after.command_tags.last() == l);
    assert(q(l));
    assert(keep(after.command_tags, q) =~= seq![l]);
    assert(tag_names(after, command_id) =~= seq![name]);
}

/// Two commands of one owner, each created with one name twice among its
/// tags: where both creations succeed, the owner has exactly one tag of the
/// name, each of the two commands has exactly one association, and each
/// answer holds the name once.
pub proof fn lemma_create_twice_tags_once(
    s: State,
    owner: u128,
    name: Seq<char>,
    p: CommandPayloadView,
    command_id: u128,
    now: i64,
    fresh: Seq<u128>,
    p2: CommandPayloadView,
    command_id2: u128,
    now2: i64,
    fresh2: Seq<u128>,
)
    requires
        s.wf(),
        names_of(p.tags) == seq![name, name],
        names_of(p2.tags) == seq![name, name],
        fresh.len() == 2,
        fresh2.len() == 2,
        create(s, owner, p, command_id, now, fresh).1 is Ok,
        create(
            create(s, owner, p, command_id, now, fresh).0,
            owner,
            p2,
            command_id2,
            now2,
            fresh2,
        ).1 is Ok,
    ensures
        ({
            let middle = create(s, owner, p, command_id, now, fresh);
            let end = create(middle.0, owner, p2, command_id2, now2, fresh2);
            &&& end.0.wf()
            &&& command_id != command_id2
            &&& exactly_one(end.0.tags, tag_named(owner, name))
            &&& end.0.tags == middle.0.tags
            &&& exactly_one(end.0.command_tags, link_of(command_id))
            &&& exactly_one(end.0.command_tags, link_of(command_id2))
            &&& middle.1->Ok_0.tags == seq![name]
            &&& end.1->Ok_0.tags == seq![name]
        }),
{
    lemma_create_tags_once(s, owner, p, command_id, now, fresh, name);
    let middle = create(s, owner, p, command_id, now, fresh).0;
    lemma_create_tags_once(middle, owner, p2, command_id2, now2, fresh2, name);
    let end = create(middle, owner, p2, command_id2, now2, fresh2).0;
    let c = added(s, owner, p, 0, command_id, now).1->Ok_0;
    let c2 = added(middle, owner, p2, 0, command_id2, now2).1->Ok_0;
    assert(middle.commands[s.commands.len() as int] == c);
    if command_id == command_id2 {
        assert(same_command()(middle.commands[s.commands.len() as int], c2));
    }
    lemma_first_index(middle.tags, tag_named(owner, name));
    let n = s.command_tags.len() as int;
    assert(end.command_tags[n] == middle.command_tags[n]);
    assert(link_of(command_id)(end.command_tags[n]));
    assert forall|j: int|
        0 <= j < end.command_tags.len() && link_of(command_id)(
            #[trigger] end.command_tags[j],
        ) implies j == n by {
        if j < n {
            assert(end.command_tags[j] == middle.command_tags[j]);
            assert(link_of(command_id)(middle.command_tags[j]));
        }
    }
}

/// Every suggestion is the text of a command that the caller may see and
/// whose text mentions the query, and at most ten are made. Suggestion `i`
/// is the text of command `from[i]`.
pub proof fn lemma_suggestions_visible(s: State, identity: Option<u128>, query: Seq<char>) -> (from:
    Seq<int>)
    ensures
        suggestions(s, identity, query).len() <= 10,
        from.len() == suggestions(s, identity, query).len(),
        forall|i: int|
            0 <= i < from.len() ==> {
                &&& 0 <= #[trigger] from[i] < s.commands.len()
                &&& visible(s.commands[from[i]], identity)
                &&& mentions(s.commands[from[i]].text, query)
                &&& s.commands[from[i]].text == suggestions(s, identity, query)[i]
            },
{
    let p = selected(s, identity, Some(query), None);
    let kept = keep(s.commands, p);
    let origin = lemma_keep_sources(s.commands, p);
    let (src, dst) = lemma_ordered_sources(kept, popularity());
    let rows = ordered(kept, popularity());
    let shown = window(rows, 10, 0);
    let from = Seq::new(shown.len(), |i: int| origin[src[i]]);
    assert forall|i: int| 0 <= i < from.len() implies {
        &&& 0 <= #[trigger] from[i] < s.commands.len()
        &&& visible(s.commands[from[i]], identity)
        &&& mentions(s.commands[from[i]].text, query)
        &&& s.commands[from[i]].text == suggestions(s, identity, query)[i]
    } by {
        assert(shown[i] == rows[i]);
        assert(rows[i] == kept[src[i]]);
        assert(kept[src[i]] == s.commands[origin[src[i]]]);
        assert(p(s.commands[from[i]]));
    }
    from
}

} // verus!
