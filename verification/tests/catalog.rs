use command_catalog::catalog::{
    add_command, attach_names, attach_tag, attach_tags, check_visibility, clamp_limit,
    clamp_offset, count_rows, create_command, delete_command, delete_owned, list_commands,
    list_for, load_tags, tags_of, suggest_commands, suggest_for,
};
use command_catalog::errors::{ApiError, DbError};
use command_catalog::models::{ApiToken, CommandPayload, CommandQuery, SuggestRequest};
use command_catalog::store::Store;

const ALICE: &[u8] = b"Bearer alice-secret";
const BOB: &[u8] = b"Bearer bob-secret";

fn store_with_two_owners() -> Store {
    let mut store = Store::new();
    for (id, value) in [(1u128, "alice-secret"), (2u128, "bob-secret")] {
        let token = ApiToken {
            id,
            label: "t".to_string(),
            token: value.to_string(),
            user_id: None,
            created_at: 0,
        };
        assert!(store.insert_token(token).is_ok());
    }
    store
}

fn payload(text: &str, visibility: Option<&str>, tags: &[&str]) -> CommandPayload {
    CommandPayload {
        title: None,
        text: text.to_string(),
        description: None,
        platform: "linux".to_string(),
        visibility: visibility.map(|v| v.to_string()),
        favorite: None,
        tags: if tags.is_empty() { None } else { Some(tags.iter().map(|t| t.to_string()).collect()) },
    }
}

fn query(q: Option<&str>, tag: Option<&str>, limit: Option<i64>, offset: Option<i64>) -> CommandQuery {
    CommandQuery { q: q.map(|s| s.to_string()), tag: tag.map(|s| s.to_string()), limit, offset }
}

fn everything() -> CommandQuery {
    query(None, None, Some(200), None)
}

fn texts_of(store: &Store, identity: Option<u128>, query: &CommandQuery) -> Vec<String> {
    list_for(store, identity, query).items.into_iter().map(|c| c.text).collect()
}

fn bad_visibility() -> ApiError {
    ApiError::BadRequest("visibility must be PUBLIC or PRIVATE".to_string())
}

#[test]
fn the_page_size_is_between_1_and_200() {
    assert_eq!(clamp_limit(None), 20);
    assert_eq!(clamp_limit(Some(0)), 1);
    assert_eq!(clamp_limit(Some(-7)), 1);
    assert_eq!(clamp_limit(Some(1)), 1);
    assert_eq!(clamp_limit(Some(50)), 50);
    assert_eq!(clamp_limit(Some(200)), 200);
    assert_eq!(clamp_limit(Some(201)), 200);
    assert_eq!(clamp_limit(Some(i64::MAX)), 200);
    assert_eq!(clamp_limit(Some(i64::MIN)), 1);
}

#[test]
fn the_offset_is_never_negative() {
    assert_eq!(clamp_offset(None), 0);
    assert_eq!(clamp_offset(Some(-1)), 0);
    assert_eq!(clamp_offset(Some(0)), 0);
    assert_eq!(clamp_offset(Some(17)), 17);
    assert_eq!(clamp_offset(Some(i64::MAX)), i64::MAX);
}

#[test]
fn rows_are_counted_as_they_are() {
    assert_eq!(count_rows(0), 0);
    assert_eq!(count_rows(3), 3);
}

#[test]
fn visibility_is_private_unless_named() {
    assert_eq!(check_visibility(&None), Ok("PRIVATE".to_string()));
    assert_eq!(check_visibility(&Some("PRIVATE".to_string())), Ok("PRIVATE".to_string()));
    assert_eq!(check_visibility(&Some("PUBLIC".to_string())), Ok("PUBLIC".to_string()));
}

#[test]
fn a_visibility_that_is_neither_level_is_refused() {
    assert_eq!(check_visibility(&Some("SECRET".to_string())), Err(bad_visibility()));
    assert_eq!(check_visibility(&Some("public".to_string())), Err(bad_visibility()));
    assert_eq!(check_visibility(&Some(String::new())), Err(bad_visibility()));
    assert_eq!(check_visibility(&Some(" PUBLIC".to_string())), Err(bad_visibility()));
}

#[test]
fn creating_with_visibility_secret_is_a_bad_request() {
    let mut store = store_with_two_owners();
    let refused = create_command(&mut store, Some(ALICE), &payload("ls", Some("SECRET"), &["a"]));
    assert_eq!(refused, Err(bad_visibility()));
    assert!(store.commands().is_empty());
    assert!(store.tags().is_empty());
}

#[test]
fn creating_needs_an_identity_before_anything_else() {
    let mut store = store_with_two_owners();
    assert_eq!(
        create_command(&mut store, None, &payload("ls", Some("SECRET"), &[])),
        Err(ApiError::Unauthorized)
    );
    assert_eq!(
        create_command(&mut store, Some(b"Bearer nobody".as_slice()), &payload("ls", None, &[])),
        Err(ApiError::Unauthorized)
    );
    assert!(store.commands().is_empty());
}

#[test]
fn a_created_command_belongs_to_the_caller() {
    let mut store = store_with_two_owners();
    let mut wanted = payload("git status", Some("PUBLIC"), &["git", "vcs"]);
    wanted.title = Some("Status".to_string());
    wanted.description = Some("what changed".to_string());
    wanted.favorite = Some(true);
    let made = create_command(&mut store, Some(BOB), &wanted).unwrap();
    assert_eq!(made.title, Some("Status".to_string()));
    assert_eq!(made.text, "git status");
    assert_eq!(made.description, Some("what changed".to_string()));
    assert_eq!(made.platform, "linux");
    assert_eq!(made.visibility, "PUBLIC");
    assert!(made.favorite);
    assert_eq!(made.usage_count, 0);
    assert_eq!(made.tags, vec!["git".to_string(), "vcs".to_string()]);
    assert_eq!(made.last_used_at, None);
    assert!(made.created_at >= 0);
    let row = &store.commands()[0];
    assert_eq!(row.id, made.id);
    assert_eq!(row.owner_token, 2);
    assert_eq!(row.created_at, made.created_at);
    assert_eq!(row.updated_at, made.created_at);
}

#[test]
fn a_command_is_private_and_no_favourite_by_default() {
    let mut store = store_with_two_owners();
    let made = create_command(&mut store, Some(ALICE), &payload("ls", None, &[])).unwrap();
    assert_eq!(made.visibility, "PRIVATE");
    assert!(!made.favorite);
    assert!(made.tags.is_empty());
}

#[test]
fn tagging_twice_with_one_name_makes_one_tag_and_one_association() {
    let mut store = store_with_two_owners();
    let first = create_command(&mut store, Some(ALICE), &payload("ls", None, &["a", "a"])).unwrap();
    assert_eq!(first.tags, vec!["a".to_string()]);
    assert_eq!(store.tags().len(), 1);
    assert_eq!(store.command_tags().len(), 1);
    let second = create_command(&mut store, Some(ALICE), &payload("ls", None, &["a", "a"])).unwrap();
    assert_eq!(second.tags, vec!["a".to_string()]);
    assert_eq!(store.tags().len(), 1);
    assert_eq!(store.tags()[0].name, "a");
    assert_eq!(store.tags()[0].owner_token, 1);
    assert_eq!(store.command_tags().len(), 2);
    assert_eq!(store.command_tags()[0].command_id, first.id);
    assert_eq!(store.command_tags()[1].command_id, second.id);
    assert_eq!(store.command_tags()[0].tag_id, store.command_tags()[1].tag_id);
}

#[test]
fn tags_are_namespaced_by_owner() {
    let mut store = store_with_two_owners();
    assert!(create_command(&mut store, Some(ALICE), &payload("ls", None, &["a"])).is_ok());
    assert!(create_command(&mut store, Some(BOB), &payload("ls", None, &["a"])).is_ok());
    assert_eq!(store.tags().len(), 2);
    assert_ne!(store.tags()[0].id, store.tags()[1].id);
    assert_ne!(store.tags()[0].owner_token, store.tags()[1].owner_token);
}

#[test]
fn attach_tag_is_exact() {
    let mut store = Store::new();
    assert!(add_command(&mut store, 1, &payload("ls", None, &[]), 0, 10, 0).is_ok());
    assert!(add_command(&mut store, 1, &payload("ls", None, &[]), 0, 11, 0).is_ok());
    assert_eq!(attach_tag(&mut store, 1, 10, "net", 100), Ok(()));
    assert_eq!(attach_tag(&mut store, 1, 10, "net", 101), Ok(()));
    assert_eq!(attach_tag(&mut store, 1, 11, "net", 102), Ok(()));
    assert_eq!(store.tags().len(), 1);
    assert_eq!(store.tags()[0].id, 100);
    assert_eq!(store.command_tags().len(), 2);
    assert_eq!(
        attach_tag(&mut store, 1, 10, "disk", 100),
        Err(ApiError::Db(DbError::UniqueViolation))
    );
    assert_eq!(store.tags().len(), 1);
    assert_eq!(store.command_tags().len(), 2);
    assert_eq!(tags_of(&store, 10), vec!["net".to_string()]);
    assert_eq!(tags_of(&store, 11), vec!["net".to_string()]);
    assert!(tags_of(&store, 12).is_empty());
}

#[test]
fn a_command_that_is_not_there_cannot_be_tagged() {
    let mut store = Store::new();
    assert_eq!(
        attach_tag(&mut store, 1, 10, "net", 100),
        Err(ApiError::Db(DbError::ForeignKeyViolation))
    );
    assert!(store.command_tags().is_empty());
    assert_eq!(store.tags().len(), 1);
    let names = Some(vec!["a".to_string(), "b".to_string()]);
    assert_eq!(
        attach_tags(&mut store, 1, 10, &names),
        Err(ApiError::Db(DbError::ForeignKeyViolation))
    );
    assert_eq!(store.tags().len(), 2);
}

#[test]
fn tags_come_in_the_order_of_their_association() {
    let mut store = Store::new();
    assert!(add_command(&mut store, 1, &payload("ls", None, &[]), 0, 10, 0).is_ok());
    let names = Some(vec!["b".to_string(), "a".to_string(), "c".to_string(), "a".to_string()]);
    assert_eq!(attach_tags(&mut store, 1, 10, &names), Ok(()));
    assert_eq!(attach_tags(&mut store, 1, 10, &None), Ok(()));
    assert_eq!(tags_of(&store, 10), vec!["b".to_string(), "a".to_string(), "c".to_string()]);
    assert_eq!(store.tags().len(), 3);
}

#[test]
fn add_command_is_exact() {
    let mut store = Store::new();
    let made = add_command(&mut store, 7, &payload("ls -la", Some("PUBLIC"), &["x"]), 3, 40, 50).unwrap();
    assert_eq!(made.id, 40);
    assert_eq!(made.text, "ls -la");
    assert_eq!(made.visibility, "PUBLIC");
    assert_eq!(made.usage_count, 3);
    assert_eq!(made.owner_token, 7);
    assert_eq!(made.created_at, 50);
    assert_eq!(made.updated_at, 50);
    assert_eq!(made.last_used_at, None);
    assert_eq!(store.commands()[0], made);
    assert!(store.tags().is_empty());
    assert_eq!(
        add_command(&mut store, 8, &payload("pwd", None, &[]), 0, 40, 51),
        Err(ApiError::Db(DbError::UniqueViolation))
    );
    assert_eq!(
        add_command(&mut store, 8, &payload("pwd", Some("nope"), &[]), 0, 41, 51),
        Err(bad_visibility())
    );
    assert_eq!(store.commands().len(), 1);
    let with_names = attach_names(&store, &made);
    assert_eq!(with_names.id, 40);
    assert!(with_names.tags.is_empty());
}

fn seeded() -> Store {
    let mut store = store_with_two_owners();
    let rows: [(u128, u128, &str, &str, i32, i64, &[&str]); 6] = [
        (10, 1, "git status", "PRIVATE", 5, 100, &["git"]),
        (11, 1, "git push", "PUBLIC", 1, 300, &["git", "Remote"]),
        (12, 2, "ls -la", "PUBLIC", 9, 200, &["files"]),
        (13, 2, "GIT log", "PRIVATE", 7, 400, &["history"]),
        (14, 2, "df -h", "PUBLIC", 9, 300, &[]),
        (15, 1, "du -sh", "PRIVATE", 0, 300, &["files"]),
    ];
    let mut fresh = 1000;
    for (id, owner, text, visibility, usage, at, tags) in rows {
        assert!(add_command(&mut store, owner, &payload(text, Some(visibility), &[]), usage, id, at).is_ok());
        for tag in tags {
            fresh += 1;
            assert!(attach_tag(&mut store, owner, id, tag, fresh).is_ok());
        }
    }
    store
}

#[test]
fn an_anonymous_caller_sees_the_public_commands_only() {
    let store = seeded();
    assert_eq!(texts_of(&store, None, &everything()), vec!["git push", "df -h", "ls -la"]);
    let page = list_commands(&store, None, &everything()).unwrap();
    assert_eq!(page.total, 3);
    assert!(page.items.iter().all(|c| c.visibility == "PUBLIC"));
}

#[test]
fn an_owner_sees_the_public_commands_and_its_own() {
    let store = seeded();
    assert_eq!(
        texts_of(&store, Some(1), &everything()),
        vec!["git push", "df -h", "du -sh", "ls -la", "git status"]
    );
    assert_eq!(
        texts_of(&store, Some(2), &everything()),
        vec!["GIT log", "git push", "df -h", "ls -la"]
    );
}

#[test]
fn a_private_command_is_hidden_from_every_other_caller() {
    let store = seeded();
    for identity in [None, Some(2), Some(3)] {
        for q in [None, Some("git"), Some("status")] {
            let page = list_for(&store, identity, &query(q, None, Some(200), None));
            assert!(page.items.iter().all(|c| c.id != 10 && c.id != 15));
        }
    }
    let through_header = list_commands(&store, Some(BOB), &everything()).unwrap();
    assert!(through_header.items.iter().all(|c| c.id != 10 && c.id != 15));
    assert!(through_header.items.iter().any(|c| c.id == 13));
}

#[test]
fn a_public_command_is_shown_to_every_caller() {
    let store = seeded();
    for identity in [None, Some(1), Some(2), Some(3)] {
        let page = list_for(&store, identity, &everything());
        for id in [11u128, 12, 14] {
            assert!(page.items.iter().any(|c| c.id == id));
        }
    }
}

#[test]
fn a_secret_that_is_no_tokens_lists_as_anonymous() {
    let store = seeded();
    let page = list_commands(&store, Some(b"Bearer nobody".as_slice()), &everything()).unwrap();
    assert_eq!(page.total, 3);
    assert_eq!(
        list_commands(&store, Some(b"nobody".as_slice()), &everything()),
        Err(ApiError::Unauthorized)
    );
}

#[test]
fn the_newest_command_comes_first_and_ties_keep_their_order() {
    let store = seeded();
    let page = list_for(&store, Some(1), &everything());
    let ids: Vec<u128> = page.items.iter().map(|c| c.id).collect();
    assert_eq!(ids, vec![11, 14, 15, 12, 10]);
    let times: Vec<i64> = page.items.iter().map(|c| c.created_at).collect();
    assert_eq!(times, vec![300, 300, 300, 200, 100]);
}

#[test]
fn the_text_filter_ignores_case() {
    let store = seeded();
    let found = texts_of(&store, Some(2), &query(Some("git"), None, None, None));
    assert_eq!(found, vec!["GIT log", "git push"]);
    let upper = texts_of(&store, Some(2), &query(Some("GIT"), None, None, None));
    assert_eq!(upper, vec!["GIT log", "git push"]);
    let inner = texts_of(&store, Some(1), &query(Some("T S"), None, None, None));
    assert_eq!(inner, vec!["git status"]);
    assert!(texts_of(&store, Some(1), &query(Some("svn"), None, None, None)).is_empty());
}

#[test]
fn the_text_filter_is_a_plain_substring() {
    let store = seeded();
    assert!(texts_of(&store, Some(1), &query(Some("g%t"), None, None, None)).is_empty());
    assert!(texts_of(&store, Some(1), &query(Some("g_t"), None, None, None)).is_empty());
    assert_eq!(texts_of(&store, None, &query(Some(""), None, None, None)).len(), 3);
}

#[test]
fn the_tag_filter_matches_any_tag_once() {
    let store = seeded();
    let by_git = texts_of(&store, Some(1), &query(None, Some("GIT"), None, None));
    assert_eq!(by_git, vec!["git push", "git status"]);
    let by_remote = texts_of(&store, None, &query(None, Some("remo"), None, None));
    assert_eq!(by_remote, vec!["git push"]);
    let by_e = list_for(&store, Some(1), &query(None, Some("e"), None, None));
    let ids: Vec<u128> = by_e.items.iter().map(|c| c.id).collect();
    assert_eq!(ids, vec![11, 15, 12]);
    assert_eq!(by_e.total, 3);
    assert!(texts_of(&store, None, &query(None, Some("zzz"), None, None)).is_empty());
}

#[test]
fn the_two_filters_must_both_match() {
    let store = seeded();
    let found = texts_of(&store, Some(1), &query(Some("push"), Some("git"), None, None));
    assert_eq!(found, vec!["git push"]);
    assert!(texts_of(&store, Some(1), &query(Some("ls"), Some("git"), None, None)).is_empty());
}

#[test]
fn a_listed_command_carries_its_tags() {
    let store = seeded();
    let page = list_for(&store, None, &everything());
    assert_eq!(page.items[0].tags, vec!["git".to_string(), "Remote".to_string()]);
    assert!(page.items[1].tags.is_empty());
    assert_eq!(page.items[2].tags, vec!["files".to_string()]);
}

#[test]
fn the_total_does_not_depend_on_the_window() {
    let store = seeded();
    for limit in [None, Some(1), Some(2), Some(500)] {
        for offset in [None, Some(0), Some(1), Some(4), Some(1000)] {
            let page = list_for(&store, Some(2), &query(Some("git"), None, limit, offset));
            assert_eq!(page.total, 2);
            assert_eq!(page.limit, clamp_limit(limit));
            assert_eq!(page.offset, clamp_offset(offset));
        }
    }
}

#[test]
fn an_offset_beyond_the_total_shows_nothing() {
    let store = seeded();
    let page = list_for(&store, Some(1), &query(None, None, Some(10), Some(5)));
    assert!(page.items.is_empty());
    assert_eq!(page.total, 5);
    let far = list_for(&store, Some(1), &query(None, None, Some(10), Some(i64::MAX)));
    assert!(far.items.is_empty());
    assert_eq!(far.total, 5);
    assert_eq!(far.offset, i64::MAX);
}

#[test]
fn pages_tile_the_listing() {
    let store = seeded();
    let first = list_for(&store, Some(1), &query(None, None, Some(2), Some(0)));
    let second = list_for(&store, Some(1), &query(None, None, Some(2), Some(2)));
    let third = list_for(&store, Some(1), &query(None, None, Some(2), Some(4)));
    let ids = |items: &Vec<command_catalog::models::CommandWithTags>| -> Vec<u128> {
        items.iter().map(|c| c.id).collect()
    };
    assert_eq!(ids(&first.items), vec![11, 14]);
    assert_eq!(ids(&second.items), vec![15, 12]);
    assert_eq!(ids(&third.items), vec![10]);
    let negative = list_for(&store, Some(1), &query(None, None, Some(0), Some(-3)));
    assert_eq!(ids(&negative.items), vec![11]);
    assert_eq!(negative.limit, 1);
    assert_eq!(negative.offset, 0);
}

#[test]
fn the_default_page_holds_twenty() {
    let mut store = store_with_two_owners();
    for i in 0..25u128 {
        assert!(add_command(&mut store, 1, &payload("ls", Some("PUBLIC"), &[]), 0, 100 + i, i as i64).is_ok());
    }
    let page = list_for(&store, None, &query(None, None, None, None));
    assert_eq!(page.items.len(), 20);
    assert_eq!(page.total, 25);
    assert_eq!(page.limit, 20);
    assert_eq!(page.items[0].id, 124);
    let rest = list_for(&store, None, &query(None, None, None, Some(20)));
    assert_eq!(rest.items.len(), 5);
    assert_eq!(rest.items[4].id, 100);
}

#[test]
fn suggestions_are_the_most_used_matches() {
    let store = seeded();
    assert_eq!(suggest_for(&store, Some(2), "git"), vec!["GIT log", "git push"]);
    assert_eq!(suggest_for(&store, Some(1), "GIT"), vec!["git status", "git push"]);
    assert_eq!(suggest_for(&store, None, ""), vec!["df -h", "ls -la", "git push"]);
    assert!(suggest_for(&store, None, "status").is_empty());
}

#[test]
fn at_most_ten_suggestions_are_made() {
    let mut store = store_with_two_owners();
    for i in 0..15u128 {
        let made = add_command(
            &mut store, 1, &payload("echo", Some("PUBLIC"), &[]), i as i32, 100 + i, 0);
        assert!(made.is_ok());
    }
    let request = SuggestRequest { query: "ECHO".to_string(), os: None, pwd: None };
    let suggested = suggest_commands(&store, None, &request).unwrap();
    assert_eq!(suggested.len(), 10);
    assert_eq!(
        suggest_commands(&store, Some(b"Basic x".as_slice()), &request),
        Err(ApiError::Unauthorized)
    );
}

#[test]
fn deleting_needs_the_owner() {
    let mut store = seeded();
    assert_eq!(delete_command(&mut store, None, 10), Err(ApiError::Unauthorized));
    assert_eq!(delete_command(&mut store, Some(BOB), 10), Err(ApiError::NotFound));
    assert_eq!(delete_command(&mut store, Some(BOB), 11), Err(ApiError::NotFound));
    assert_eq!(delete_command(&mut store, Some(BOB), 999), Err(ApiError::NotFound));
    assert_eq!(store.commands().len(), 6);
    assert_eq!(delete_command(&mut store, Some(ALICE), 10), Ok(()));
    assert_eq!(delete_command(&mut store, Some(ALICE), 10), Err(ApiError::NotFound));
    assert_eq!(store.commands().len(), 5);
    assert!(store.commands().iter().all(|c| c.id != 10));
}

#[test]
fn a_deleted_command_leaves_no_association() {
    let mut store = seeded();
    let before = store.command_tags().len();
    assert_eq!(delete_owned(&mut store, 1, 11), Ok(()));
    assert_eq!(store.command_tags().len(), before - 2);
    assert!(store.command_tags().iter().all(|l| l.command_id != 11));
    assert!(tags_of(&store, 11).is_empty());
    assert_eq!(tags_of(&store, 10), vec!["git".to_string()]);
    assert_eq!(delete_owned(&mut store, 2, 11), Err(ApiError::NotFound));
}

#[test]
fn tags_are_loaded_for_many_commands_at_once() {
    let store = seeded();
    let tags = load_tags(&store, &vec![11, 14, 10, 11, 999]);
    assert_eq!(tags.len(), 2);
    assert_eq!(tags.get(&11), Some(&vec!["git".to_string(), "Remote".to_string()]));
    assert_eq!(tags.get(&10), Some(&vec!["git".to_string()]));
    assert_eq!(tags.get(&14), None);
    assert_eq!(tags.get(&999), None);
    assert_eq!(tags.get(&12), None);
    assert!(load_tags(&store, &vec![]).is_empty());
}
